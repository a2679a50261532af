use vstd::prelude::*;

use crate::entry::{clone_suffix, LogEntry};
use crate::state::File;

verus! {

/// Index of a node (a server or a client) on the network.
pub type NodeId = usize;

/// Index of a client on the network; clients come after the servers.
pub type ClientId = usize;

/// A message between nodes, clients and the operator console.
#[derive(Debug, PartialEq, Eq)]
pub struct Message {
    pub content: MessageContent,
    pub from: NodeId,
}

#[derive(Debug, PartialEq, Eq)]
pub enum MessageContent {
    // Election
    VoteRequest { last_log_index: usize, last_log_term: usize, term: usize },
    VoteResponse { granted: bool, term: usize },
    // Log replication
    AppendEntries {
        entries: Vec<LogEntry>,
        prev_log_index: usize,
        prev_log_term: usize,
        leader_commit: usize,
        term: usize,
    },
    AppendResponse { success: bool, match_index: usize, term: usize },
    // Client actions
    ClientRequest(ClientCommand),
    ClientResponse(Result<ClientResponse, ClientResponseError>),
    // External action
    Repl(ReplAction),
}

/// A request of a client to the cluster.
#[derive(Debug, PartialEq, Eq, PartialOrd)]
pub enum ClientCommand {
    Load { filename: String },
    List,
    Delete { uid: String },
    Append { uid: String, text: String },
    Get { uid: String },
}

/// The mathematical value of a [`ClientCommand`].
pub enum ClientCommandView {
    Load { filename: Seq<char> },
    List,
    Delete { uid: Seq<char> },
    Append { uid: Seq<char>, text: Seq<char> },
    Get { uid: Seq<char> },
}

impl View for ClientCommand {
    type V = ClientCommandView;

    open spec fn view(&self) -> ClientCommandView {
        match self {
            ClientCommand::Load { filename } => ClientCommandView::Load { filename: filename@ },
            ClientCommand::List => ClientCommandView::List,
            ClientCommand::Delete { uid } => ClientCommandView::Delete { uid: uid@ },
            ClientCommand::Append { uid, text } => ClientCommandView::Append {
                uid: uid@,
                text: text@,
            },
            ClientCommand::Get { uid } => ClientCommandView::Get { uid: uid@ },
        }
    }
}

/// A successful answer of the cluster to a client.
#[derive(Debug, Eq, PartialEq, PartialOrd)]
pub enum ClientResponse {
    Done,
    Uid(String),
    List(Vec<String>),
    File(File),
}

/// A failed answer of the cluster to a client.
#[derive(Debug, PartialEq, Eq, PartialOrd, Clone, Copy, Structural)]
pub enum ClientResponseError {
    EntryOverridden,
    FileNotFound,
    WrongLeader(Option<NodeId>),
}

/// A command of the operator console to one node.
#[derive(Debug, PartialEq, Eq, Clone, Copy, Structural)]
pub enum ReplAction {
    Speed(Speed),
    Crash,
    Start,
    Recovery,
    // Personnal commands
    Shutdown,
    Timeout,
    Display,
}

/// How long a node waits before each turn of its event loop.
#[derive(Debug, Copy, PartialEq, Eq, Clone, Structural)]
pub enum Speed {
    Fast,
    Medium,
    Slow,
}

/// Clones each string of `v`.
pub fn clone_strings(v: &Vec<String>) -> (res: Vec<String>)
    ensures
        res@ == v@,
{
    let mut res: Vec<String> = Vec::new();
    let mut i: usize = 0;
    while i < v.len()
        invariant
            i <= v@.len(),
            res@ == v@.subrange(0, i as int),
        decreases v@.len() - i,
    {
        res.push(v[i].clone());
        i = i + 1;
    }
    res
}

impl Clone for ClientCommand {
    fn clone(&self) -> (res: Self)
        ensures
            res == *self,
    {
        match self {
            ClientCommand::Load { filename } => ClientCommand::Load { filename: filename.clone() },
            ClientCommand::List => ClientCommand::List,
            ClientCommand::Delete { uid } => ClientCommand::Delete { uid: uid.clone() },
            ClientCommand::Append { uid, text } => ClientCommand::Append {
                uid: uid.clone(),
                text: text.clone(),
            },
            ClientCommand::Get { uid } => ClientCommand::Get { uid: uid.clone() },
        }
    }
}

impl Clone for ClientResponse {
    fn clone(&self) -> (res: Self)
        ensures
            match (*self, res) {
                (ClientResponse::List(a), ClientResponse::List(b)) => b@ == a@,
                (ClientResponse::List(_), _) => false,
                _ => res == *self,
            },
    {
        match self {
            ClientResponse::Done => ClientResponse::Done,
            ClientResponse::Uid(uid) => ClientResponse::Uid(uid.clone()),
            ClientResponse::List(uids) => ClientResponse::List(clone_strings(uids)),
            ClientResponse::File(file) => ClientResponse::File(file.clone()),
        }
    }
}

/// The content holds no vector: a copy of it is equal to it.
pub open spec fn plain_content(content: MessageContent) -> bool {
    match content {
        MessageContent::AppendEntries { .. } => false,
        MessageContent::ClientResponse(Ok(ClientResponse::List(_))) => false,
        _ => true,
    }
}

/// `b` holds what `a` holds: the same values, and vectors with the same
/// elements.
pub open spec fn same_content(a: MessageContent, b: MessageContent) -> bool {
    match (a, b) {
        (
            MessageContent::AppendEntries {
                entries: e1,
                prev_log_index: p1,
                prev_log_term: t1,
                leader_commit: c1,
                term: r1,
            },
            MessageContent::AppendEntries {
                entries: e2,
                prev_log_index: p2,
                prev_log_term: t2,
                leader_commit: c2,
                term: r2,
            },
        ) => e1@ == e2@ && p1 == p2 && t1 == t2 && c1 == c2 && r1 == r2,
        (
            MessageContent::ClientResponse(Ok(ClientResponse::List(x))),
            MessageContent::ClientResponse(Ok(ClientResponse::List(y))),
        ) => x@ == y@,
        _ => plain_content(a) && b == a,
    }
}

impl Clone for MessageContent {
    fn clone(&self) -> (res: Self)
        ensures
            same_content(*self, res),
            plain_content(*self) ==> res == *self,
    {
        match self {
            MessageContent::VoteRequest { last_log_index, last_log_term, term } =>
                MessageContent::VoteRequest {
                last_log_index: *last_log_index,
                last_log_term: *last_log_term,
                term: *term,
            },
            MessageContent::VoteResponse { granted, term } => MessageContent::VoteResponse {
                granted: *granted,
                term: *term,
            },
            MessageContent::AppendEntries {
                entries,
                prev_log_index,
                prev_log_term,
                leader_commit,
                term,
            } => {
                let copy = clone_suffix(entries, 0);
                assert(copy@ =~= entries@);
                MessageContent::AppendEntries {
                    entries: copy,
                    prev_log_index: *prev_log_index,
                    prev_log_term: *prev_log_term,
                    leader_commit: *leader_commit,
                    term: *term,
                }
            },
            MessageContent::AppendResponse { success, match_index, term } =>
                MessageContent::AppendResponse {
                success: *success,
                match_index: *match_index,
                term: *term,
            },
            MessageContent::ClientRequest(command) => MessageContent::ClientRequest(
                command.clone(),
            ),
            MessageContent::ClientResponse(result) => match result {
                Ok(response) => {
                    let copy = response.clone();
                    let ghost r0 = *response;
                    let ghost c0 = copy;
                    proof {
                        match (r0, c0) {
                            (ClientResponse::List(x), ClientResponse::List(y)) => {
                                assert(same_content(
                                    MessageContent::ClientResponse(Ok(ClientResponse::List(x))),
                                    MessageContent::ClientResponse(Ok(ClientResponse::List(y))),
                                ));
                            },
                            _ => {},
                        }
                    }
                    MessageContent::ClientResponse(Ok(copy))
                },
                Err(error) => MessageContent::ClientResponse(Err(*error)),
            },
            MessageContent::Repl(action) => MessageContent::Repl(*action),
        }
    }
}

impl Clone for Message {
    fn clone(&self) -> (res: Self)
        ensures
            same_content(self.content, res.content),
            res.from == self.from,
    {
        Message { content: self.content.clone(), from: self.from }
    }
}

/// The delay of each speed, in nanoseconds.
pub open spec fn speed_nanos(speed: Speed) -> u128 {
    match speed {
        Speed::Fast => 0,
        Speed::Medium => 100_000_000,
        Speed::Slow => 1_000_000_000,
    }
}

/// The name of each speed.
pub open spec fn speed_name(speed: Speed) -> Seq<char> {
    match speed {
        Speed::Fast => "Fast"@,
        Speed::Medium => "Medium"@,
        Speed::Slow => "Slow"@,
    }
}

impl Speed {
    /// The delay before each turn of the event loop, in nanoseconds: none when
    /// fast, 100 ms at medium speed and one second when slow.
    pub fn to_duration(self) -> (res: u128)
        ensures
            res == speed_nanos(self),
    {
        match self {
            Speed::Fast => 0,
            Speed::Medium => 100_000_000,
            Speed::Slow => 1_000_000_000,
        }
    }

    /// The name of the speed, as it is displayed.
    pub fn to_string(&self) -> (res: String)
        ensures
            res@ == speed_name(*self),
    {
        match self {
            Speed::Fast => String::from_str("Fast"),
            Speed::Medium => String::from_str("Medium"),
            Speed::Slow => String::from_str("Slow"),
        }
    }
}

} // verus!
