use vstd::prelude::*;
use vstd::std_specs::iter::IteratorSpec;

verus! {

broadcast use vstd::string::group_string_axioms;

/// `String::push` of std appends one character to the end of the string.
pub assume_specification[ String::push ](string: &mut String, ch: char)
    ensures
        final(string)@ == old(string)@.push(ch),
;

/// Name for what the `regex` crate answers when `pattern` is compiled with
/// `Regex::new` and searched for in `text` with `Regex::is_match` (false when
/// the pattern does not compile).
pub uninterp spec fn regex_match(pattern: Seq<char>, text: Seq<char>) -> bool;

/// Asks the `regex` crate whether `pattern` matches somewhere in the text made
/// of the single character `c`; with a character class as the pattern this is
/// whether `c` belongs to the class.
#[verifier::external_body]
fn regex_matches_char(pattern: &str, c: char) -> (res: bool)
    ensures
        res == regex_match(pattern@, seq![c]),
{
    let mut buf = [0u8; 4];
    match regex::Regex::new(pattern) {
        Ok(re) => re.is_match(c.encode_utf8(&mut buf)),
        Err(_) => false,
    }
}

/// Name for what `str::to_lowercase` of std returns: the Unicode lowercase
/// mapping of `s` (per character, except capital sigma, which std maps by
/// its place in a word).
pub uninterp spec fn lowercase(s: Seq<char>) -> Seq<char>;

/// `str::to_lowercase` of std.
#[verifier::external_body]
pub(crate) fn to_lowercase(s: &str) -> (res: String)
    ensures
        res@ == lowercase(s@),
{
    s.to_lowercase()
}

/// A word character of the regex crate's Unicode classes (`\w`).
pub open spec fn is_word(c: char) -> bool {
    regex_match("\\w"@, seq![c])
}

/// A whitespace character of the regex crate's Unicode classes (`\s`).
pub open spec fn is_space(c: char) -> bool {
    regex_match("\\s"@, seq![c])
}

/// A decimal digit of the regex crate's Unicode classes (`\d`).
pub open spec fn is_digit(c: char) -> bool {
    regex_match("\\d"@, seq![c])
}

pub fn word_char(c: char) -> (res: bool)
    ensures
        res == is_word(c),
{
    regex_matches_char("\\w", c)
}

pub fn space_char(c: char) -> (res: bool)
    ensures
        res == is_space(c),
{
    regex_matches_char("\\s", c)
}

pub fn digit_char(c: char) -> (res: bool)
    ensures
        res == is_digit(c),
{
    regex_matches_char("\\d", c)
}

/// The end of the longest run of characters satisfying `p` that starts at `from`.
pub open spec fn run_end(s: Seq<char>, from: int, p: spec_fn(char) -> bool) -> int
    decreases s.len() - from,
{
    if 0 <= from < s.len() && p(s[from]) {
        run_end(s, from + 1, p)
    } else {
        from
    }
}

pub proof fn lemma_run_end(s: Seq<char>, from: int, p: spec_fn(char) -> bool)
    requires
        0 <= from <= s.len(),
    ensures
        from <= run_end(s, from, p) <= s.len(),
        forall|i: int| from <= i < run_end(s, from, p) ==> p(#[trigger] s[i]),
        run_end(s, from, p) < s.len() ==> !p(s[run_end(s, from, p)]),
    decreases s.len() - from,
{
    if from < s.len() && p(s[from]) {
        lemma_run_end(s, from + 1, p);
    }
}

/// Every character of `s` from `from` on satisfies `p`.
pub open spec fn all_from(s: Seq<char>, from: int, p: spec_fn(char) -> bool) -> bool {
    forall|i: int| from <= i < s.len() ==> p(#[trigger] s[i])
}

/// `lit` occurs in `s` at position `pos`.
pub open spec fn occurs_at(s: Seq<char>, pos: int, lit: Seq<char>) -> bool {
    0 <= pos && pos + lit.len() <= s.len() && s.subrange(pos, pos + lit.len()) == lit
}

/// `lit` occurs somewhere in `s`.
pub open spec fn contains_seq(s: Seq<char>, lit: Seq<char>) -> bool {
    exists|pos: int| occurs_at(s, pos, lit)
}

/// The characters of `s`, in order.
pub fn chars_of(s: &str) -> (res: Vec<char>)
    ensures
        res@ == s@,
{
    let mut res: Vec<char> = Vec::new();
    let mut it = s.chars();
    loop
        invariant
            res@ + it.remaining() == s@,
            it.obeys_prophetic_iter_laws(),
            it.decrease() is Some,
        ensures
            res@ == s@,
        decreases it.decrease()->0,
    {
        let ghost before = it.remaining();
        match it.next() {
            Some(c) => {
                res.push(c);
                assert(res@ + it.remaining() =~= s@) by {
                    assert(before =~= seq![c] + it.remaining());
                }
            },
            None => {
                assert(it.remaining().len() == 0);
                assert(res@ =~= s@);
                break;
            },
        }
    }
    res
}

/// The string made of the characters `v[from..to]`.
pub fn string_of(v: &Vec<char>, from: usize, to: usize) -> (res: String)
    requires
        from <= to <= v@.len(),
    ensures
        res@ == v@.subrange(from as int, to as int),
{
    let mut res = String::new();
    let mut i: usize = from;
    while i < to
        invariant
            from <= i <= to <= v@.len(),
            res@ == v@.subrange(from as int, i as int),
        decreases to - i,
    {
        res.push(v[i]);
        assert(res@ =~= v@.subrange(from as int, i + 1));
        i = i + 1;
    }
    res
}

/// Whether `lit` occurs in `v` at position `pos`.
pub fn matches_at(v: &Vec<char>, pos: usize, lit: &str) -> (res: bool)
    ensures
        res == occurs_at(v@, pos as int, lit@),
{
    let n = lit.unicode_len();
    let len = v.len();
    if n > len || pos > len - n {
        return false;
    }
    let mut i: usize = 0;
    while i < n
        invariant
            n == lit@.len(),
            len == v@.len(),
            pos + n <= len,
            i <= n,
            forall|j: int| 0 <= j < i ==> v@[pos + j] == lit@[j],
        decreases n - i,
    {
        if v[pos + i] != lit.get_char(i) {
            assert(v@.subrange(pos as int, pos + n)[i as int] != lit@[i as int]);
            return false;
        }
        i = i + 1;
    }
    assert(v@.subrange(pos as int, pos + n) =~= lit@);
    true
}

/// Whether `lit` occurs anywhere in `v`.
pub fn contains_lit(v: &Vec<char>, lit: &str) -> (res: bool)
    ensures
        res == contains_seq(v@, lit@),
{
    let len = v.len();
    let mut pos: usize = 0;
    while pos < len
        invariant
            len == v@.len(),
            pos <= len,
            forall|p: int| 0 <= p < pos ==> !occurs_at(v@, p, lit@),
        decreases len - pos,
    {
        if matches_at(v, pos, lit) {
            return true;
        }
        pos = pos + 1;
    }
    if matches_at(v, len, lit) {
        return true;
    }
    assert forall|p: int| !occurs_at(v@, p, lit@) by {
        if p > v@.len() {
            assert(p + lit@.len() > v@.len());
        }
    }
    false
}

/// The ASCII decimal digit `c` stands for.
pub open spec fn ascii_digit_value(c: char) -> int {
    c as int - '0' as int
}

pub open spec fn is_ascii_digit(c: char) -> bool {
    '0' <= c <= '9'
}

/// The number written in decimal by the ASCII digits of `s`.
pub open spec fn decimal_value(s: Seq<char>) -> int
    decreases s.len(),
{
    if s.len() == 0 {
        0
    } else {
        decimal_value(s.drop_last()) * 10 + ascii_digit_value(s.last())
    }
}

/// What `str::parse::<usize>` gives for a string of decimal digits: the number
/// when every character is an ASCII digit and the number fits in a `usize`.
pub open spec fn parsed_usize(s: Seq<char>) -> Option<usize> {
    if s.len() > 0 && (forall|i: int| 0 <= i < s.len() ==> is_ascii_digit(#[trigger] s[i]))
        && decimal_value(s) <= usize::MAX {
        Some(decimal_value(s) as usize)
    } else {
        None
    }
}

proof fn lemma_decimal_value_grows(s: Seq<char>, k: int)
    requires
        0 <= k <= s.len(),
        forall|i: int| 0 <= i < s.len() ==> is_ascii_digit(#[trigger] s[i]),
    ensures
        decimal_value(s.subrange(0, k)) <= decimal_value(s),
        0 <= decimal_value(s.subrange(0, k)),
    decreases s.len() - k,
{
    if k < s.len() {
        lemma_decimal_value_grows(s, k + 1);
        assert(s.subrange(0, k + 1).drop_last() =~= s.subrange(0, k));
    } else {
        assert(s.subrange(0, k) =~= s);
        lemma_decimal_value_nonneg(s);
    }
}

proof fn lemma_decimal_value_nonneg(s: Seq<char>)
    requires
        forall|i: int| 0 <= i < s.len() ==> is_ascii_digit(#[trigger] s[i]),
    ensures
        0 <= decimal_value(s),
    decreases s.len(),
{
    if s.len() > 0 {
        lemma_decimal_value_nonneg(s.drop_last());
    }
}

/// Reads `v[from..to]` as a `usize` written in decimal, as `str::parse::<usize>` does
/// for a string of digits.
pub fn parse_usize(v: &Vec<char>, from: usize, to: usize) -> (res: Option<usize>)
    requires
        from <= to <= v@.len(),
    ensures
        res == parsed_usize(v@.subrange(from as int, to as int)),
{
    let ghost s = v@.subrange(from as int, to as int);
    if from == to {
        return None;
    }
    let mut i: usize = from;
    let mut value: usize = 0;
    while i < to
        invariant
            from <= i <= to <= v@.len(),
            s == v@.subrange(from as int, to as int),
            forall|j: int| 0 <= j < i - from ==> is_ascii_digit(#[trigger] s[j]),
            value == decimal_value(s.subrange(0, i - from)),
        decreases to - i,
    {
        let c = v[i];
        if !('0' <= c && c <= '9') {
            assert(!is_ascii_digit(s[i - from]));
            return None;
        }
        let d = (c as u32 - '0' as u32) as usize;
        assert(s.subrange(0, i - from + 1).drop_last() =~= s.subrange(0, i - from));
        if value > (usize::MAX - d) / 10 {
            proof {
                assert(decimal_value(s.subrange(0, i - from + 1)) > usize::MAX);
                if forall|j: int| 0 <= j < s.len() ==> is_ascii_digit(#[trigger] s[j]) {
                    lemma_decimal_value_grows(s, i - from + 1);
                }
            }
            return None;
        }
        value = value * 10 + d;
        i = i + 1;
    }
    assert(s.subrange(0, s.len() as int) =~= s);
    Some(value)
}

/// The ASCII digit for `d < 10`.
pub open spec fn digit_to_char(d: int) -> char {
    (d + '0' as int) as char
}

/// `n` written in decimal, as `format!("{}", n)` writes it.
pub open spec fn decimal(n: nat) -> Seq<char>
    decreases n,
{
    if n < 10 {
        seq![digit_to_char(n as int)]
    } else {
        decimal(n / 10).push(digit_to_char((n % 10) as int))
    }
}

/// Appends `n` written in decimal to `s`.
pub fn push_decimal(s: &mut String, n: usize)
    ensures
        final(s)@ == old(s)@ + decimal(n as nat),
    decreases n,
{
    if n >= 10 {
        push_decimal(s, n / 10);
    }
    let d = (n % 10) as u8;
    let c = (48u8 + d) as char;
    assert(c == digit_to_char((n % 10) as int));
    s.push(c);
    assert(s@ =~= old(s)@ + decimal(n as nat));
}

} // verus!
