use vstd::prelude::*;

verus! {

/// A change to the replicated file store, carried by a log entry.
#[derive(Debug, PartialEq, Eq, PartialOrd)]
pub enum StateMutation {
    Create { uid: String, filename: String },
    Delete { uid: String },
    Append { uid: String, text: String },
    Noop,
}

/// One entry of the replicated log: the term in which a leader created it and
/// the mutation it carries.
#[derive(Debug, PartialEq, Eq, PartialOrd)]
pub struct LogEntry {
    pub term: usize,
    pub mutation: StateMutation,
}

impl Clone for StateMutation {
    fn clone(&self) -> (res: Self)
        ensures
            res == *self,
    {
        match self {
            StateMutation::Create { uid, filename } => StateMutation::Create {
                uid: uid.clone(),
                filename: filename.clone(),
            },
            StateMutation::Delete { uid } => StateMutation::Delete { uid: uid.clone() },
            StateMutation::Append { uid, text } => StateMutation::Append {
                uid: uid.clone(),
                text: text.clone(),
            },
            StateMutation::Noop => StateMutation::Noop,
        }
    }
}

impl Clone for LogEntry {
    fn clone(&self) -> (res: Self)
        ensures
            res == *self,
    {
        LogEntry { term: self.term, mutation: self.mutation.clone() }
    }
}

/// The term of the last entry of `logs`, or 0 for an empty log.
pub open spec fn last_term(logs: Seq<LogEntry>) -> usize {
    if logs.len() == 0 {
        0
    } else {
        logs.last().term
    }
}

/// Clones the entries `logs[from..]` into a new vector.
pub fn clone_suffix(logs: &Vec<LogEntry>, from: usize) -> (res: Vec<LogEntry>)
    requires
        from <= logs.len(),
    ensures
        res@ == logs@.subrange(from as int, logs@.len() as int),
{
    let mut res: Vec<LogEntry> = Vec::new();
    let mut i: usize = from;
    while i < logs.len()
        invariant
            from <= i <= logs.len(),
            res@ == logs@.subrange(from as int, i as int),
        decreases logs.len() - i,
    {
        res.push(logs[i].clone());
        i = i + 1;
    }
    res
}

} // verus!
