//! The records that the engine hands to its callers.
use vstd::prelude::*;
use vstd::string::StringExecFns;
use crate::text::push_str;

verus! {

/// Identity of a process as the correlator caches it.
#[derive(Clone, Debug)]
pub struct ProcessInfo {
    pub name: String,
    pub command: String,
    /// When it was last seen, in milliseconds on the caller's clock.
    pub last_seen: u64,
}

/// One observed socket.
#[derive(Clone, Debug)]
pub struct Connection {
    pub protocol: String,
    pub state: String,
    pub local: String,
    pub remote: String,
    pub program: String,
    pub pid: String,
    pub command: String,
    pub rx_rate: u64,
    pub tx_rate: u64,
}

/// What a connection holds, as values.
pub struct ConnectionView {
    pub protocol: Seq<char>,
    pub state: Seq<char>,
    pub local: Seq<char>,
    pub remote: Seq<char>,
    pub program: Seq<char>,
    pub pid: Seq<char>,
    pub command: Seq<char>,
    pub rx_rate: u64,
    pub tx_rate: u64,
}

impl View for Connection {
    type V = ConnectionView;

    open spec fn view(&self) -> ConnectionView {
        ConnectionView {
            protocol: self.protocol@,
            state: self.state@,
            local: self.local@,
            remote: self.remote@,
            program: self.program@,
            pid: self.pid@,
            command: self.command@,
            rx_rate: self.rx_rate,
            tx_rate: self.tx_rate,
        }
    }
}

/// The text that stands for an unknown identity.
pub open spec fn not_available() -> Seq<char> {
    "N/A"@
}

/// How a connection names its process: `program(pid)`, or the program
/// alone when the pid is unknown.
pub open spec fn process_display(program: Seq<char>, pid: Seq<char>) -> Seq<char> {
    if pid != not_available() {
        program + "("@ + pid + ")"@
    } else {
        program
    }
}

impl Connection {
    /// A connection with both rates at zero.
    pub fn new(
        protocol: String,
        state: String,
        local: String,
        remote: String,
        program: String,
        pid: String,
        command: String,
    ) -> (r: Connection)
        ensures
            r@ == (ConnectionView {
                protocol: protocol@,
                state: state@,
                local: local@,
                remote: remote@,
                program: program@,
                pid: pid@,
                command: command@,
                rx_rate: 0,
                tx_rate: 0,
            }),
    {
        Connection { protocol, state, local, remote, program, pid, command, rx_rate: 0, tx_rate: 0 }
    }

    /// Whether any bytes moved in either direction.
    pub fn is_active(&self) -> (r: bool)
        ensures
            r == (self.rx_rate > 0 || self.tx_rate > 0),
    {
        self.rx_rate > 0 || self.tx_rate > 0
    }

    /// The process as shown to the user.
    pub fn get_process_display(&self) -> (r: String)
        ensures
            r@ == process_display(self.program@, self.pid@),
    {
        let na = String::from_str("N/A");
        if self.pid != na {
            let mut s = self.program.clone();
            push_str(&mut s, "(");
            push_str(&mut s, self.pid.as_str());
            push_str(&mut s, ")");
            s
        } else {
            self.program.clone()
        }
    }

    /// A copy of the connection.
    pub fn duplicate(&self) -> (r: Connection)
        ensures
            r@ == self@,
    {
        Connection {
            protocol: self.protocol.clone(),
            state: self.state.clone(),
            local: self.local.clone(),
            remote: self.remote.clone(),
            program: self.program.clone(),
            pid: self.pid.clone(),
            command: self.command.clone(),
            rx_rate: self.rx_rate,
            tx_rate: self.tx_rate,
        }
    }
}

/// Cumulative bytes that one process has read and written.
#[derive(PartialEq, Eq, Structural, Clone, Copy, Debug)]
pub struct ProcessIO {
    pub rx: u64,
    pub tx: u64,
}

impl ProcessIO {
    pub fn new(rx: u64, tx: u64) -> (r: ProcessIO)
        ensures
            r == (ProcessIO { rx, tx }),
    {
        ProcessIO { rx, tx }
    }

    /// The snapshot of a process whose counters cannot be read.
    pub fn zero() -> (r: ProcessIO)
        ensures
            r == (ProcessIO { rx: 0, tx: 0 }),
    {
        ProcessIO { rx: 0, tx: 0 }
    }
}

} // verus!
