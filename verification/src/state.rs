use vstd::prelude::*;

use crate::entry::{LogEntry, StateMutation};

verus! {

/// A file of the replicated store.
#[derive(Debug, PartialEq, Eq, PartialOrd)]
pub struct File {
    pub filename: String,
    pub text: String,
}

/// The mathematical value of a [`File`]: its name and its text.
pub struct FileView {
    pub filename: Seq<char>,
    pub text: Seq<char>,
}

impl View for File {
    type V = FileView;

    open spec fn view(&self) -> FileView {
        FileView { filename: self.filename@, text: self.text@ }
    }
}

impl Clone for File {
    fn clone(&self) -> (res: Self)
        ensures
            res == *self,
    {
        File { filename: self.filename.clone(), text: self.text.clone() }
    }
}

/// The files of a store listed as (uid, file) pairs, read as a map from uid to file.
pub open spec fn store_map(s: Seq<(String, File)>) -> Map<Seq<char>, FileView>
    decreases s.len(),
{
    if s.len() == 0 {
        Map::empty()
    } else {
        store_map(s.drop_last()).insert(s.last().0@, s.last().1@)
    }
}

/// No uid occurs twice in the listing.
pub open spec fn uids_distinct(s: Seq<(String, File)>) -> bool {
    forall|i: int, j: int| 0 <= i < j < s.len() ==> s[i].0@ != s[j].0@
}

/// The effect of one mutation on the files of the store.
pub open spec fn apply_mutation(
    files: Map<Seq<char>, FileView>,
    mutation: StateMutation,
) -> Map<Seq<char>, FileView> {
    match mutation {
        StateMutation::Create { uid, filename } => files.insert(
            uid@,
            FileView { filename: filename@, text: Seq::empty() },
        ),
        StateMutation::Delete { uid } => files.remove(uid@),
        StateMutation::Append { uid, text } => if files.contains_key(uid@) {
            files.insert(
                uid@,
                FileView {
                    filename: files[uid@].filename,
                    text: files[uid@].text + text@ + seq!['\n'],
                },
            )
        } else {
            files
        },
        StateMutation::Noop => files,
    }
}

/// The effect of the mutations of `entries`, in order, on the files of the store.
pub open spec fn apply_entries(
    files: Map<Seq<char>, FileView>,
    entries: Seq<LogEntry>,
) -> Map<Seq<char>, FileView>
    decreases entries.len(),
{
    if entries.len() == 0 {
        files
    } else {
        apply_mutation(apply_entries(files, entries.drop_last()), entries.last().mutation)
    }
}

/// The state machine that committed log entries are applied to: a store of
/// files keyed by uid, with the indices of the last applied and last committed
/// log entries.
#[derive(Debug)]
pub struct VolatileState {
    pub storage: Vec<(String, File)>,
    pub last_applied: usize,
    pub commit_index: usize,
}

proof fn lemma_store_map(s: Seq<(String, File)>)
    requires
        uids_distinct(s),
    ensures
        forall|k: Seq<char>|
            store_map(s).contains_key(k) <==> exists|i: int| 0 <= i < s.len() && #[trigger] s[i].0@ == k,
        forall|i: int| 0 <= i < s.len() ==> store_map(s)[#[trigger] s[i].0@] == s[i].1@,
        store_map(s).dom().finite(),
        store_map(s).len() == s.len(),
    decreases s.len(),
{
    if s.len() > 0 {
        let t = s.drop_last();
        lemma_store_map(t);
        assert forall|k: Seq<char>|
            store_map(s).contains_key(k) <==> exists|i: int| 0 <= i < s.len() && #[trigger] s[i].0@ == k by {
            if store_map(s).contains_key(k) && k != s.last().0@ {
                let i = choose|i: int| 0 <= i < t.len() && #[trigger] t[i].0@ == k;
                assert(s[i].0@ == k);
            }
            if exists|i: int| 0 <= i < s.len() && #[trigger] s[i].0@ == k {
                let i = choose|i: int| 0 <= i < s.len() && #[trigger] s[i].0@ == k;
                if i < t.len() {
                    assert(t[i].0@ == k);
                }
            }
        }
        assert forall|i: int| 0 <= i < s.len() implies store_map(s)[#[trigger] s[i].0@] == s[i].1@ by {
            if i < t.len() {
                assert(t[i].0@ == s[i].0@);
            }
        }
        assert(!store_map(t).contains_key(s.last().0@)) by {
            if store_map(t).contains_key(s.last().0@) {
                let i = choose|i: int| 0 <= i < t.len() && #[trigger] t[i].0@ == s.last().0@;
                assert(s[i].0@ == s[s.len() - 1].0@);
            }
        }
    }
}

/// Two listings with distinct uids, the same uids and the same file for each
/// uid are read as the same map.
proof fn lemma_store_map_ext(s: Seq<(String, File)>, m: Map<Seq<char>, FileView>)
    requires
        uids_distinct(s),
        forall|k: Seq<char>|
            m.contains_key(k) <==> exists|i: int| 0 <= i < s.len() && #[trigger] s[i].0@ == k,
        forall|i: int| 0 <= i < s.len() ==> m[#[trigger] s[i].0@] == s[i].1@,
    ensures
        store_map(s) == m,
{
    lemma_store_map(s);
    assert forall|k: Seq<char>| #[trigger] m.contains_key(k) implies store_map(s)[k] == m[k] by {
        let i = choose|i: int| 0 <= i < s.len() && #[trigger] s[i].0@ == k;
    }
    assert(store_map(s) =~= m);
}

impl VolatileState {
    /// The files of the store, keyed by uid.
    pub closed spec fn files(&self) -> Map<Seq<char>, FileView> {
        store_map(self.storage@)
    }

    /// The store holds no uid twice.
    pub closed spec fn wf(&self) -> bool {
        uids_distinct(self.storage@)
    }

    /// The store lists finitely many files.
    pub proof fn lemma_files_finite(&self)
        requires
            self.wf(),
        ensures
            self.files().dom().finite(),
    {
        lemma_store_map(self.storage@);
    }

    /// An empty store with nothing committed or applied.
    pub fn new() -> (res: Self)
        ensures
            res.wf(),
            res.files() == Map::<Seq<char>, FileView>::empty(),
            res.last_applied == 0,
            res.commit_index == 0,
    {
        VolatileState { storage: Vec::new(), commit_index: 0, last_applied: 0 }
    }

    /// Records `index` as the index of the last committed entry.
    pub fn set_commit_index(&mut self, index: usize)
        ensures
            final(self).commit_index == index,
            final(self).last_applied == old(self).last_applied,
            final(self).files() == old(self).files(),
            final(self).wf() == old(self).wf(),
    {
        self.commit_index = index;
    }

    fn find(&self, uid: &String) -> (res: Option<usize>)
        requires
            self.wf(),
        ensures
            match res {
                Some(i) => i < self.storage@.len() && self.storage@[i as int].0@ == uid@,
                None => !self.files().contains_key(uid@),
            },
    {
        proof {
            lemma_store_map(self.storage@);
        }
        let mut i: usize = 0;
        while i < self.storage.len()
            invariant
                i <= self.storage@.len(),
                forall|j: int| 0 <= j < i ==> self.storage@[j].0@ != uid@,
            decreases self.storage@.len() - i,
        {
            if self.storage[i].0 == *uid {
                return Some(i);
            }
            i = i + 1;
        }
        None
    }

    /// The file stored under `uid`, if any.
    pub fn get(&self, uid: &str) -> (res: Option<&File>)
        requires
            self.wf(),
        ensures
            match res {
                Some(file) => self.files().contains_key(uid@) && file@ == self.files()[uid@],
                None => !self.files().contains_key(uid@),
            },
    {
        let key = String::from_str(uid);
        match self.find(&key) {
            Some(i) => {
                proof {
                    lemma_store_map(self.storage@);
                }
                Some(&self.storage[i].1)
            },
            None => None,
        }
    }

    /// The uids of all stored files, each once, in no particular order.
    pub fn list_uid(&self) -> (res: Vec<String>)
        requires
            self.wf(),
        ensures
            forall|i: int, j: int| 0 <= i < j < res@.len() ==> res@[i]@ != res@[j]@,
            forall|i: int| 0 <= i < res@.len() ==> self.files().contains_key(#[trigger] res@[i]@),
            forall|k: Seq<char>|
                #[trigger] self.files().contains_key(k) ==> exists|i: int|
                    0 <= i < res@.len() && #[trigger] res@[i]@ == k,
    {
        proof {
            lemma_store_map(self.storage@);
        }
        let mut res: Vec<String> = Vec::new();
        let mut i: usize = 0;
        while i < self.storage.len()
            invariant
                i <= self.storage@.len(),
                res@.len() == i,
                uids_distinct(self.storage@),
                forall|j: int| 0 <= j < i ==> #[trigger] res@[j]@ == self.storage@[j].0@,
            decreases self.storage@.len() - i,
        {
            res.push(self.storage[i].0.clone());
            i = i + 1;
        }
        proof {
            assert forall|k: Seq<char>| #[trigger] self.files().contains_key(k) implies exists|i: int|
                0 <= i < res@.len() && #[trigger] res@[i]@ == k by {
                let j = choose|j: int| 0 <= j < self.storage@.len() && #[trigger] self.storage@[j].0@ == k;
                assert(res@[j]@ == k);
            }
        }
        res
    }

    fn set_file(&mut self, uid: String, file: File)
        requires
            old(self).wf(),
        ensures
            final(self).wf(),
            final(self).files() == old(self).files().insert(uid@, file@),
            final(self).last_applied == old(self).last_applied,
            final(self).commit_index == old(self).commit_index,
    {
        let ghost old_files = self.files();
        let ghost old_s = self.storage@;
        let ghost k = uid@;
        let ghost v = file@;
        proof {
            lemma_store_map(self.storage@);
        }
        let m = Ghost(old_files.insert(k, v));
        match self.find(&uid) {
            Some(i) => {
                self.storage.set(i, (uid, file));
                proof {
                    let s = self.storage@;
                    assert(s == old_s.update(i as int, s[i as int]));
                    assert forall|a: int, b: int| 0 <= a < b < s.len() implies s[a].0@ != s[b].0@ by {
                        if a != i && b != i {
                            assert(s[a] == old_s[a] && s[b] == old_s[b]);
                        } else if a == i {
                            assert(s[b] == old_s[b]);
                        } else {
                            assert(s[a] == old_s[a]);
                        }
                    }
                    assert forall|kk: Seq<char>|
                        m@.contains_key(kk) <==> exists|j: int| 0 <= j < s.len() && #[trigger] s[j].0@ == kk by {
                        if m@.contains_key(kk) && kk != k {
                            let j = choose|j: int| 0 <= j < old_s.len() && #[trigger] old_s[j].0@ == kk;
                            assert(s[j] == old_s[j]);
                        }
                        if kk == k {
                            assert(s[i as int].0@ == kk);
                        }
                        if exists|j: int| 0 <= j < s.len() && #[trigger] s[j].0@ == kk {
                            let j = choose|j: int| 0 <= j < s.len() && #[trigger] s[j].0@ == kk;
                            if j != i {
                                assert(old_s[j] == s[j]);
                            }
                        }
                    }
                    assert forall|j: int| 0 <= j < s.len() implies m@[#[trigger] s[j].0@] == s[j].1@ by {
                        if j != i {
                            assert(old_s[j] == s[j]);
                        }
                    }
                    lemma_store_map_ext(s, m@);
                }
            },
            None => {
                self.storage.push((uid, file));
                proof {
                    let s = self.storage@;
                    assert(s.drop_last() =~= old_s);
                    assert forall|a: int, b: int| 0 <= a < b < s.len() implies s[a].0@ != s[b].0@ by {
                        assert(s[a] == old_s[a]);
                        if b < old_s.len() {
                            assert(s[b] == old_s[b]);
                        } else {
                            assert(old_s[a].0@ != k);
                        }
                    }
                }
            },
        }
    }

    fn remove_file(&mut self, uid: &String)
        requires
            old(self).wf(),
        ensures
            final(self).wf(),
            final(self).files() == old(self).files().remove(uid@),
            final(self).last_applied == old(self).last_applied,
            final(self).commit_index == old(self).commit_index,
    {
        let ghost old_s = self.storage@;
        let ghost old_files = self.files();
        proof {
            lemma_store_map(self.storage@);
        }
        match self.find(uid) {
            Some(i) => {
                self.storage.remove(i);
                proof {
                    let s = self.storage@;
                    assert forall|a: int, b: int| 0 <= a < b < s.len() implies s[a].0@ != s[b].0@ by {
                        let a2 = if a < i { a } else { a + 1 };
                        let b2 = if b < i { b } else { b + 1 };
                        assert(s[a] == old_s[a2]);
                        assert(s[b] == old_s[b2]);
                    }
                    let m = old_files.remove(uid@);
                    assert forall|k: Seq<char>|
                        m.contains_key(k) <==> exists|j: int| 0 <= j < s.len() && #[trigger] s[j].0@ == k by {
                        if m.contains_key(k) {
                            let j = choose|j: int| 0 <= j < old_s.len() && #[trigger] old_s[j].0@ == k;
                            let j2 = if j < i { j } else { j - 1 };
                            assert(s[j2] == old_s[j]);
                        }
                        if exists|j: int| 0 <= j < s.len() && #[trigger] s[j].0@ == k {
                            let j = choose|j: int| 0 <= j < s.len() && #[trigger] s[j].0@ == k;
                            let j2 = if j < i { j } else { j + 1 };
                            assert(old_s[j2] == s[j]);
                        }
                    }
                    assert forall|j: int| 0 <= j < s.len() implies m[#[trigger] s[j].0@] == s[j].1@ by {
                        let j2 = if j < i { j } else { j + 1 };
                        assert(old_s[j2] == s[j]);
                    }
                    lemma_store_map_ext(s, m);
                }
            },
            None => {
                assert(old_files.remove(uid@) =~= old_files);
            },
        }
    }

    /// Applies one mutation to the store.
    pub fn process(&mut self, action: &StateMutation)
        requires
            old(self).wf(),
        ensures
            final(self).wf(),
            final(self).files() == apply_mutation(old(self).files(), *action),
            final(self).last_applied == old(self).last_applied,
            final(self).commit_index == old(self).commit_index,
    {
        match action {
            StateMutation::Create { uid, filename } => {
                let file = File { filename: filename.clone(), text: String::new() };
                self.set_file(uid.clone(), file);
            },
            StateMutation::Delete { uid } => {
                self.remove_file(uid);
            },
            StateMutation::Append { uid, text } => {
                proof {
                    lemma_store_map(self.storage@);
                }
                match self.find(uid) {
                    Some(i) => {
                        let ghost before = self.files();
                        let mut file = self.storage[i].1.clone();
                        assert(file@ == before[uid@]);
                        file.text.append(text.as_str());
                        file.text.push('\n');
                        assert(file.text@ =~= before[uid@].text + text@ + seq!['\n']);
                        self.set_file(uid.clone(), file);
                    },
                    None => {},
                }
            },
            StateMutation::Noop => {},
        }
    }

    /// Applies the mutations of `entries` to the store, in order.
    pub fn process_batch(&mut self, entries: &[LogEntry])
        requires
            old(self).wf(),
        ensures
            final(self).wf(),
            final(self).files() == apply_entries(old(self).files(), entries@),
            final(self).last_applied == old(self).last_applied,
            final(self).commit_index == old(self).commit_index,
    {
        let ghost start = self.files();
        let mut i: usize = 0;
        while i < entries.len()
            invariant
                i <= entries@.len(),
                self.wf(),
                self.files() == apply_entries(start, entries@.subrange(0, i as int)),
                self.last_applied == old(self).last_applied,
                self.commit_index == old(self).commit_index,
            decreases entries@.len() - i,
        {
            self.process(&entries[i].mutation);
            proof {
                assert(entries@.subrange(0, i + 1).drop_last() =~= entries@.subrange(0, i as int));
            }
            i = i + 1;
        }
        proof {
            assert(entries@.subrange(0, entries@.len() as int) =~= entries@);
        }
    }

    /// Applies the log entries that are committed but not yet applied, and
    /// records them as applied.
    pub fn apply_committed_entries(&mut self, logs: &Vec<LogEntry>)
        requires
            old(self).wf(),
            old(self).commit_index > old(self).last_applied ==> old(self).commit_index <= logs@.len(),
        ensures
            final(self).wf(),
            final(self).commit_index == old(self).commit_index,
            if old(self).commit_index > old(self).last_applied {
                &&& final(self).files() == apply_entries(
                    old(self).files(),
                    logs@.subrange(old(self).last_applied as int, old(self).commit_index as int),
                )
                &&& final(self).last_applied == old(self).commit_index
            } else {
                &&& final(self).files() == old(self).files()
                &&& final(self).last_applied == old(self).last_applied
            },
    {
        if self.commit_index > self.last_applied {
            let entries = &logs.as_slice()[self.last_applied..self.commit_index];
            self.process_batch(entries);
            self.last_applied = self.commit_index;
        }
    }
}

} // verus!
