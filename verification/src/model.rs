//! The values that wire messages carry.

use vstd::prelude::*;

verus! {

/// A process record as the daemon packs it into a LIST response:
/// only ever read by a client, never constructed or mutated by one.
#[derive(Debug, PartialEq, Eq)]
pub struct ManagedProcess {
    pub id: u32,
    pub name: String,
    pub pid: u32,
    pub running: bool,
}

impl View for ManagedProcess {
    type V = (u32, Seq<char>, u32, bool);

    open spec fn view(&self) -> (u32, Seq<char>, u32, bool) {
        (self.id, self.name@, self.pid, self.running)
    }
}

/// The fields of a sequence of records, in order.
pub open spec fn procs_view(s: Seq<ManagedProcess>) -> Seq<(u32, Seq<char>, u32, bool)> {
    s.map_values(|p: ManagedProcess| p@)
}

/// The texts of a sequence of environment entries, in order.
pub open spec fn env_view(env: Seq<(String, String)>) -> Seq<(Seq<char>, Seq<char>)> {
    env.map_values(|p: (String, String)| (p.0@, p.1@))
}

/// What a response to RUN, STOP, RESTART or DELETE says: the daemon
/// either accepted the request or refused it with a message.
#[derive(Debug, PartialEq, Eq)]
pub enum ControlReply {
    Success,
    Failure(String),
}

/// What a response to LIST says: the records the daemon holds, or a
/// refusal with a message.
#[derive(Debug, PartialEq, Eq)]
pub enum ListReply {
    Records(Vec<ManagedProcess>),
    Failure(String),
}

/// The mathematical shape of a decoded LIST response.
pub enum ListOutcome {
    Rows(Seq<(u32, Seq<char>, u32, bool)>),
    Refusal(Seq<char>),
}

/// A request as a daemon-side parse recovers it.
#[derive(Debug, PartialEq, Eq)]
pub enum Request {
    Run { command: String, id: Option<u32>, env: Vec<(String, String)>, cwd: String },
    Stop { ids: Vec<u32> },
    Restart { ids: Vec<u32> },
    Delete { ids: Vec<u32> },
    List,
}

/// The mathematical shape of a decoded request.
pub enum RequestShape {
    RunShape {
        command: Seq<char>,
        id: Option<u32>,
        env: Seq<(Seq<char>, Seq<char>)>,
        cwd: Seq<char>,
    },
    StopShape { ids: Seq<u32> },
    RestartShape { ids: Seq<u32> },
    DeleteShape { ids: Seq<u32> },
    ListShape,
}

/// The opcode byte of each operation, assigned by the protocol's
/// external table: the codec treats them as plain bytes.
pub struct OpcodeTable {
    pub run: u8,
    pub stop: u8,
    pub restart: u8,
    pub delete: u8,
    pub list: u8,
}

} // verus!
