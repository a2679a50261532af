//! The grammar of the console: client commands and operator (REPL) actions.
use vstd::prelude::*;

use crate::message::{ClientCommand, ClientCommandView, NodeId, ReplAction, Speed};
use crate::text::{
    all_from, chars_of, contains_lit, contains_seq, digit_char, is_digit, is_space, is_word, lemma_run_end,
    lowercase, matches_at, occurs_at, parse_usize, parsed_usize, run_end, space_char, string_of,
    to_lowercase, word_char,
};

verus! {

broadcast use vstd::string::group_string_axioms;

/// The character classes the console grammar is written with.
pub enum CharClass {
    /// `\w`
    Word,
    /// `\s`
    Space,
    /// `[^\s]`
    NotSpace,
    /// `.`: anything but a line feed
    NotNewline,
    /// `\d`
    Digit,
}

/// Membership in each character class.
pub open spec fn class_pred(class: CharClass) -> spec_fn(char) -> bool {
    match class {
        CharClass::Word => |c: char| is_word(c),
        CharClass::Space => |c: char| is_space(c),
        CharClass::NotSpace => |c: char| !is_space(c),
        CharClass::NotNewline => |c: char| c != '\n',
        CharClass::Digit => |c: char| is_digit(c),
    }
}

fn in_class(c: char, class: &CharClass) -> (res: bool)
    ensures
        res == class_pred(*class)(c),
{
    match class {
        CharClass::Word => word_char(c),
        CharClass::Space => space_char(c),
        CharClass::NotSpace => !space_char(c),
        CharClass::NotNewline => c != '\n',
        CharClass::Digit => digit_char(c),
    }
}

/// The end of the longest run of characters of `class` in `v` from `from` on.
pub fn class_run_end(v: &Vec<char>, from: usize, class: CharClass) -> (res: usize)
    requires
        from <= v@.len(),
    ensures
        res == run_end(v@, from as int, class_pred(class)),
        from <= res <= v@.len(),
{
    let ghost p = class_pred(class);
    let mut i = from;
    proof {
        lemma_run_end(v@, from as int, p);
    }
    while i < v.len() && in_class(v[i], &class)
        invariant
            from <= i <= v@.len(),
            p == class_pred(class),
            run_end(v@, i as int, p) == run_end(v@, from as int, p),
        decreases v@.len() - i,
    {
        i = i + 1;
    }
    i
}

/// Whether every character of `v` from `from` on is of `class`.
fn all_in_class(v: &Vec<char>, from: usize, class: CharClass) -> (res: bool)
    requires
        from <= v@.len(),
    ensures
        res == all_from(v@, from as int, class_pred(class)),
{
    let ghost p = class_pred(class);
    let end = class_run_end(v, from, class);
    proof {
        lemma_run_end(v@, from as int, p);
    }
    end == v.len()
}

/// Whether the characters of `v` are exactly those of `lit`.
fn equals_lit(v: &Vec<char>, lit: &str) -> (res: bool)
    ensures
        res == (v@ == lit@),
{
    let n = lit.unicode_len();
    if v.len() != n {
        return false;
    }
    let r = matches_at(v, 0, lit);
    assert(v@.subrange(0, v@.len() as int) =~= v@);
    r
}

/// The command that the argument text `args` makes of the command word
/// `word` (already lowercased).
pub open spec fn command_from_parts(word: Seq<char>, args: Seq<char>) -> Option<ClientCommandView> {
    if word == "load"@ {
        let f = run_end(args, 0, class_pred(CharClass::Word));
        if f == 0 {
            None
        } else {
            Some(ClientCommandView::Load { filename: args.subrange(0, f) })
        }
    } else if word == "append"@ {
        let u = run_end(args, 0, class_pred(CharClass::NotSpace));
        if u == 0 {
            None
        } else {
            let t = run_end(args, u, class_pred(CharClass::Space));
            Some(ClientCommandView::Append { uid: args.subrange(0, u), text: args.subrange(t, args.len() as int) })
        }
    } else if word == "delete"@ {
        if args.len() > 0 && all_from(args, 0, class_pred(CharClass::NotSpace)) {
            Some(ClientCommandView::Delete { uid: args })
        } else {
            None
        }
    } else if word == "list"@ {
        Some(ClientCommandView::List)
    } else if word == "get"@ {
        if args.len() > 0 && all_from(args, 0, class_pred(CharClass::NotSpace)) {
            Some(ClientCommandView::Get { uid: args })
        } else {
            None
        }
    } else {
        None
    }
}

/// The client command a console line stands for: a command word of word
/// characters, optional blanks, the arguments up to the end of the first line,
/// and nothing but blanks after them. The command word is case-insensitive;
/// `load` takes a word as file name, `append` a uid and a text, `delete` and
/// `get` a uid without blanks, `list` ignores its arguments.
pub open spec fn parsed_command(line: Seq<char>) -> Option<ClientCommandView> {
    let i = run_end(line, 0, class_pred(CharClass::Word));
    let j = run_end(line, i, class_pred(CharClass::Space));
    let k = run_end(line, j, class_pred(CharClass::NotNewline));
    if i == 0 || !all_from(line, k, class_pred(CharClass::Space)) {
        None
    } else {
        command_from_parts(lowercase(line.subrange(0, i)), line.subrange(j, k))
    }
}

/// `arg` stands verbatim in `line` at `a`, and only blanks follow it there.
pub open spec fn ends_line_at(line: Seq<char>, a: int, arg: Seq<char>) -> bool {
    &&& 0 <= a
    &&& a + arg.len() <= line.len()
    &&& line.subrange(a, a + arg.len()) == arg
    &&& forall|i: int| a + arg.len() <= i < line.len() ==> is_space(#[trigger] line[i])
}

/// The arguments of a parsed command are taken verbatim from the line, after
/// the command word: only the command word is read case-insensitively. A file
/// name is a nonempty run of word characters of the line; a uid is a nonempty
/// run of non-blank characters of the line; an appended text is the end of the
/// line's first line after its uid; only blanks may follow a uid to delete or
/// get, or an appended text.
pub proof fn lemma_command_arguments_verbatim(line: Seq<char>)
    ensures
        parsed_command(line) matches Some(ClientCommandView::Load { filename }) ==> {
            &&& filename.len() > 0
            &&& forall|i: int| 0 <= i < filename.len() ==> is_word(#[trigger] filename[i])
            &&& exists|a: int|
                0 < a && a + filename.len() <= line.len() && #[trigger] line.subrange(
                    a,
                    a + filename.len(),
                ) == filename
        },
        parsed_command(line) matches Some(ClientCommandView::Append { uid, text }) ==> {
            &&& uid.len() > 0
            &&& forall|i: int| 0 <= i < uid.len() ==> !is_space(#[trigger] uid[i])
            &&& exists|a: int, b: int|
                0 < a && a + uid.len() <= b && #[trigger] ends_line_at(line, b, text)
                    && #[trigger] line.subrange(a, a + uid.len()) == uid
        },
        parsed_command(line) matches Some(ClientCommandView::Delete { uid }) ==> {
            &&& uid.len() > 0
            &&& forall|i: int| 0 <= i < uid.len() ==> !is_space(#[trigger] uid[i])
            &&& exists|a: int| 0 < a && #[trigger] ends_line_at(line, a, uid)
        },
        parsed_command(line) matches Some(ClientCommandView::Get { uid }) ==> {
            &&& uid.len() > 0
            &&& forall|i: int| 0 <= i < uid.len() ==> !is_space(#[trigger] uid[i])
            &&& exists|a: int| 0 < a && #[trigger] ends_line_at(line, a, uid)
        },
{
    match parsed_command(line) {
        Some(ClientCommandView::Load { filename }) => lemma_load_verbatim(line, filename),
        Some(ClientCommandView::Append { uid, text }) => lemma_append_verbatim(line, uid, text),
        Some(ClientCommandView::Delete { uid }) => lemma_uid_verbatim(line, uid),
        Some(ClientCommandView::Get { uid }) => lemma_uid_verbatim(line, uid),
        _ => {},
    }
}

proof fn lemma_load_verbatim(line: Seq<char>, filename: Seq<char>)
    requires
        parsed_command(line) == Some(ClientCommandView::Load { filename }),
    ensures
        filename.len() > 0,
        forall|i: int| 0 <= i < filename.len() ==> is_word(#[trigger] filename[i]),
        exists|a: int|
            0 < a && a + filename.len() <= line.len() && #[trigger] line.subrange(a, a + filename.len())
                == filename,
{
    let pw = class_pred(CharClass::Word);
    let i = run_end(line, 0, pw);
    let j = run_end(line, i, class_pred(CharClass::Space));
    proof_run_ends(line, i, j);
    let k = run_end(line, j, class_pred(CharClass::NotNewline));
    let args = line.subrange(j, k);
    let f = run_end(args, 0, pw);
    lemma_run_end(args, 0, pw);
    assert(filename == args.subrange(0, f));
    assert(line.subrange(j, j + filename.len()) =~= filename);
    assert forall|q: int| 0 <= q < filename.len() implies is_word(#[trigger] filename[q]) by {
        assert(pw(args[q]));
    }
}

proof fn lemma_append_verbatim(line: Seq<char>, uid: Seq<char>, text: Seq<char>)
    requires
        parsed_command(line) == Some(ClientCommandView::Append { uid, text }),
    ensures
        uid.len() > 0,
        forall|i: int| 0 <= i < uid.len() ==> !is_space(#[trigger] uid[i]),
        exists|a: int, b: int|
            0 < a && a + uid.len() <= b && #[trigger] ends_line_at(line, b, text) && #[trigger] line.subrange(
                a,
                a + uid.len(),
            ) == uid,
{
    let ps = class_pred(CharClass::Space);
    let pns = class_pred(CharClass::NotSpace);
    let i = run_end(line, 0, class_pred(CharClass::Word));
    let j = run_end(line, i, ps);
    proof_run_ends(line, i, j);
    let k = run_end(line, j, class_pred(CharClass::NotNewline));
    let args = line.subrange(j, k);
    let u = run_end(args, 0, pns);
    lemma_run_end(args, 0, pns);
    let t = run_end(args, u, ps);
    lemma_run_end(args, u, ps);
    assert(uid == args.subrange(0, u));
    assert(text == args.subrange(t, args.len() as int));
    assert(line.subrange(j, j + uid.len()) =~= uid);
    assert(line.subrange(j + t, j + t + text.len()) =~= text);
    assert forall|q: int| 0 <= q < uid.len() implies !is_space(#[trigger] uid[q]) by {
        assert(pns(args[q]));
    }
    assert forall|q: int| j + t + text.len() <= q < line.len() implies is_space(#[trigger] line[q]) by {
        assert(ps(line[q]));
    }
    assert(ends_line_at(line, j + t, text));
}

proof fn lemma_uid_verbatim(line: Seq<char>, uid: Seq<char>)
    requires
        parsed_command(line) == Some(ClientCommandView::Delete { uid }) || parsed_command(line) == Some(
            ClientCommandView::Get { uid },
        ),
    ensures
        uid.len() > 0,
        forall|i: int| 0 <= i < uid.len() ==> !is_space(#[trigger] uid[i]),
        exists|a: int| 0 < a && #[trigger] ends_line_at(line, a, uid),
{
    let ps = class_pred(CharClass::Space);
    let pns = class_pred(CharClass::NotSpace);
    let i = run_end(line, 0, class_pred(CharClass::Word));
    let j = run_end(line, i, ps);
    proof_run_ends(line, i, j);
    let k = run_end(line, j, class_pred(CharClass::NotNewline));
    let args = line.subrange(j, k);
    assert(uid == args);
    assert(line.subrange(j, j + uid.len()) =~= uid);
    assert forall|q: int| 0 <= q < uid.len() implies !is_space(#[trigger] uid[q]) by {
        assert(pns(args[q]));
    }
    assert forall|q: int| j + uid.len() <= q < line.len() implies is_space(#[trigger] line[q]) by {
        assert(ps(line[q]));
    }
    assert(ends_line_at(line, j, uid));
}

proof fn proof_run_ends(line: Seq<char>, i: int, j: int)
    requires
        i == run_end(line, 0, class_pred(CharClass::Word)),
        j == run_end(line, i, class_pred(CharClass::Space)),
    ensures
        0 <= i <= j <= run_end(line, j, class_pred(CharClass::NotNewline)) <= line.len(),
{
    lemma_run_end(line, 0, class_pred(CharClass::Word));
    lemma_run_end(line, i, class_pred(CharClass::Space));
    lemma_run_end(line, j, class_pred(CharClass::NotNewline));
}

/// The view of an optional command.
pub open spec fn command_view(c: Option<ClientCommand>) -> Option<ClientCommandView> {
    match c {
        Some(c) => Some(c@),
        None => None,
    }
}

/// The command that the arguments `args` make of the command word `word`,
/// once lowercased.
pub fn command_of_parts(word: &Vec<char>, args: &Vec<char>) -> (res: Option<ClientCommand>)
    ensures
        command_view(res) == command_from_parts(word@, args@),
{
    if equals_lit(word, "load") {
        let f = class_run_end(args, 0, CharClass::Word);
        if f == 0 {
            None
        } else {
            Some(ClientCommand::Load { filename: string_of(args, 0, f) })
        }
    } else if equals_lit(word, "append") {
        let u = class_run_end(args, 0, CharClass::NotSpace);
        if u == 0 {
            None
        } else {
            let t = class_run_end(args, u, CharClass::Space);
            Some(ClientCommand::Append { uid: string_of(args, 0, u), text: string_of(args, t, args.len()) })
        }
    } else if equals_lit(word, "delete") {
        if args.len() > 0 && all_in_class(args, 0, CharClass::NotSpace) {
            let uid = string_of(args, 0, args.len());
            assert(args@.subrange(0, args@.len() as int) =~= args@);
            Some(ClientCommand::Delete { uid })
        } else {
            None
        }
    } else if equals_lit(word, "list") {
        Some(ClientCommand::List)
    } else if equals_lit(word, "get") {
        if args.len() > 0 && all_in_class(args, 0, CharClass::NotSpace) {
            let uid = string_of(args, 0, args.len());
            assert(args@.subrange(0, args@.len() as int) =~= args@);
            Some(ClientCommand::Get { uid })
        } else {
            None
        }
    } else {
        None
    }
}

/// The characters `v[from..to]`.
fn sub_chars(v: &Vec<char>, from: usize, to: usize) -> (res: Vec<char>)
    requires
        from <= to <= v@.len(),
    ensures
        res@ == v@.subrange(from as int, to as int),
{
    let mut res: Vec<char> = Vec::new();
    let mut i = from;
    while i < to
        invariant
            from <= i <= to <= v@.len(),
            res@ == v@.subrange(from as int, i as int),
        decreases to - i,
    {
        res.push(v[i]);
        assert(res@ =~= v@.subrange(from as int, i + 1));
        i = i + 1;
    }
    res
}

impl ClientCommand {
    /// Reads a client command from a console line.
    pub fn parse_command(line: &str) -> (res: Option<ClientCommand>)
        ensures
            command_view(res) == parsed_command(line@),
    {
        let v = chars_of(line);
        let i = class_run_end(&v, 0, CharClass::Word);
        let j = class_run_end(&v, i, CharClass::Space);
        let k = class_run_end(&v, j, CharClass::NotNewline);
        if i == 0 || !all_in_class(&v, k, CharClass::Space) {
            return None;
        }
        let word = string_of(&v, 0, i);
        let lower = to_lowercase(word.as_str());
        let word_chars = chars_of(lower.as_str());
        let args = sub_chars(&v, j, k);
        command_of_parts(&word_chars, &args)
    }
}

/// "speed " followed by a word character stands at `pos` of `a`.
pub open spec fn speed_at(a: Seq<char>, pos: int) -> bool {
    occurs_at(a, pos, "speed "@) && pos + 6 < a.len() && is_word(a[pos + 6])
}

/// `pos` is the first position of `a` where "speed " followed by a word
/// character stands.
pub open spec fn first_speed_at(a: Seq<char>, pos: int) -> bool {
    speed_at(a, pos) && forall|q: int| 0 <= q < pos ==> !speed_at(a, q)
}

/// The action that a lowercased console line `a` asks of node `id`: the speed
/// named after the first "speed ", else the first of crash, start, shutdown,
/// recovery, timeout and display that the line contains.
pub open spec fn action_of(a: Seq<char>, id: NodeId) -> Option<(NodeId, ReplAction)> {
    if exists|p: int| first_speed_at(a, p) {
        let p = choose|p: int| first_speed_at(a, p);
        let w = a.subrange(p + 6, run_end(a, p + 6, class_pred(CharClass::Word)));
        if w == "fast"@ {
            Some((id, ReplAction::Speed(Speed::Fast)))
        } else if w == "medium"@ {
            Some((id, ReplAction::Speed(Speed::Medium)))
        } else if w == "slow"@ {
            Some((id, ReplAction::Speed(Speed::Slow)))
        } else {
            None
        }
    } else if contains_seq(a, "crash"@) {
        Some((id, ReplAction::Crash))
    } else if contains_seq(a, "start"@) {
        Some((id, ReplAction::Start))
    } else if contains_seq(a, "shutdown"@) {
        Some((id, ReplAction::Shutdown))
    } else if contains_seq(a, "recovery"@) {
        Some((id, ReplAction::Recovery))
    } else if contains_seq(a, "timeout"@) {
        Some((id, ReplAction::Timeout))
    } else if contains_seq(a, "display"@) {
        Some((id, ReplAction::Display))
    } else {
        None
    }
}

/// The operator action a console line stands for. The line is read in
/// lowercase; it must start with "repl " and a run of decimal digits, which
/// must be an ASCII number that fits a `usize`: the node it is meant for.
pub open spec fn parsed_action(line: Seq<char>) -> Option<(NodeId, ReplAction)> {
    lowercase_action(lowercase(line))
}

/// The operator action a lowercased console line `a` stands for.
pub open spec fn lowercase_action(a: Seq<char>) -> Option<(NodeId, ReplAction)> {
    if !(occurs_at(a, 0, "repl "@) && 5 < a.len() && is_digit(a[5])) {
        None
    } else {
        match parsed_usize(a.subrange(5, run_end(a, 5, class_pred(CharClass::Digit)))) {
            None => None,
            Some(id) => action_of(a, id),
        }
    }
}

/// The first position of `a` where "speed " followed by a word character stands.
fn find_speed(a: &Vec<char>) -> (res: Option<usize>)
    ensures
        match res {
            Some(p) => first_speed_at(a@, p as int),
            None => forall|p: int| !speed_at(a@, p),
        },
{
    proof {
        reveal_strlit("speed ");
    }
    let len = a.len();
    let mut pos: usize = 0;
    while pos < len
        invariant
            len == a@.len(),
            pos <= len,
            forall|q: int| 0 <= q < pos ==> !speed_at(a@, q),
        decreases len - pos,
    {
        if matches_at(a, pos, "speed ") && 6 < len - pos && word_char(a[pos + 6]) {
            return Some(pos);
        }
        pos = pos + 1;
    }
    assert forall|p: int| !speed_at(a@, p) by {
        if p >= len {
            assert(!occurs_at(a@, p, "speed "@));
        }
    }
    None
}

/// Reads an operator action from a console line already in lowercase.
pub fn action_of_lowercase(a: &Vec<char>) -> (res: Option<(NodeId, ReplAction)>)
    ensures
        res == lowercase_action(a@),
{
    proof {
        reveal_strlit("repl ");
        reveal_strlit("speed ");
    }
    if !(matches_at(a, 0, "repl ") && 5 < a.len() && digit_char(a[5])) {
        return None;
    }
    let e = class_run_end(a, 5, CharClass::Digit);
    let id = match parse_usize(a, 5, e) {
        Some(id) => id,
        None => {
            return None;
        },
    };
    match find_speed(a) {
        Some(p) => {
            proof {
                let q = choose|q: int| first_speed_at(a@, q);
                assert(q == p);
            }
            let w_end = class_run_end(a, p + 6, CharClass::Word);
            let w = sub_chars(a, p + 6, w_end);
            if equals_lit(&w, "fast") {
                Some((id, ReplAction::Speed(Speed::Fast)))
            } else if equals_lit(&w, "medium") {
                Some((id, ReplAction::Speed(Speed::Medium)))
            } else if equals_lit(&w, "slow") {
                Some((id, ReplAction::Speed(Speed::Slow)))
            } else {
                None
            }
        },
        None => {
            if contains_lit(a, "crash") {
                Some((id, ReplAction::Crash))
            } else if contains_lit(a, "start") {
                Some((id, ReplAction::Start))
            } else if contains_lit(a, "shutdown") {
                Some((id, ReplAction::Shutdown))
            } else if contains_lit(a, "recovery") {
                Some((id, ReplAction::Recovery))
            } else if contains_lit(a, "timeout") {
                Some((id, ReplAction::Timeout))
            } else if contains_lit(a, "display") {
                Some((id, ReplAction::Display))
            } else {
                None
            }
        },
    }
}

impl ReplAction {
    /// Reads an operator action from a console line.
    pub fn parse_action(action: &str) -> (res: Option<(NodeId, ReplAction)>)
        ensures
            res == parsed_action(action@),
    {
        let lower = to_lowercase(action);
        let a = chars_of(lower.as_str());
        action_of_lowercase(&a)
    }
}

} // verus!
