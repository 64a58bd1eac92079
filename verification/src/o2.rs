//! The connection of the ControlMaster-based o2 bridge: where its SSH
//! socket lies, what it tells a user to run, and what its last check found.
use crate::rpc::types::ConnectionStatus;
use crate::ssh::ConnectionState;
use crate::text::{push_str, string_of};
use vstd::prelude::*;

verus! {

/// The socket of a user's SSH ControlMaster.
pub open spec fn control_socket(user: Seq<char>) -> Seq<char> {
    "/tmp/o2-bridge-ssh-"@ + user
}

/// What a user runs to open the ControlMaster.
pub open spec fn control_instructions(socket: Seq<char>, user: Seq<char>, host: Seq<char>) -> Seq<
    char,
> {
    "SSH connection required. Please run:\n\n  ssh -M -S "@ + socket + " -o ControlPersist=yes -fN "@
        + user + "@"@ + host + "\n\nThis will prompt for Duo authentication (one-time per session)."@
}

/// SSH connection manager using ControlMaster
pub struct SshConnection {
    user: String,
    host: String,
    socket_path: String,
    state: ConnectionState,
}

impl SshConnection {
    pub closed spec fn user_name(&self) -> Seq<char> {
        self.user@
    }

    pub closed spec fn host_name(&self) -> Seq<char> {
        self.host@
    }

    pub closed spec fn socket(&self) -> Seq<char> {
        self.socket_path@
    }

    pub closed spec fn last_state(&self) -> ConnectionState {
        self.state
    }

    /// A connection for the user and host, not yet checked. The bridge's own
    /// socket is not the SSH socket, which is the user's dedicated one.
    pub fn new(user: String, host: String, _bridge_socket: String) -> (res: Self)
        ensures
            res.user_name() == user@,
            res.host_name() == host@,
            res.socket() == control_socket(user@),
            res.last_state() == ConnectionState::Unknown,
    {
        let mut v: Vec<char> = Vec::new();
        push_str(&mut v, "/tmp/o2-bridge-ssh-");
        push_str(&mut v, user.as_str());
        let socket_path = string_of(&v);
        Self { user, host, socket_path, state: ConnectionState::Unknown }
    }

    /// Get the SSH socket path
    pub fn socket_path(&self) -> (res: &str)
        ensures
            res@ == self.socket(),
    {
        self.socket_path.as_str()
    }

    /// Records what a check of the connection found.
    pub fn record_check(&mut self, connected: bool)
        ensures
            final(self).last_state() == if connected {
                ConnectionState::Connected
            } else {
                ConnectionState::Disconnected
            },
            final(self).user_name() == old(self).user_name(),
            final(self).host_name() == old(self).host_name(),
            final(self).socket() == old(self).socket(),
    {
        self.state = if connected {
            ConnectionState::Connected
        } else {
            ConnectionState::Disconnected
        };
    }

    /// Get current connection state
    pub fn state(&self) -> (res: ConnectionState)
        ensures
            res == self.last_state(),
    {
        self.state
    }

    /// Get instructions for establishing connection
    pub fn connection_instructions(&self) -> (res: String)
        ensures
            res@ == control_instructions(self.socket(), self.user_name(), self.host_name()),
    {
        let mut v: Vec<char> = Vec::new();
        push_str(&mut v, "SSH connection required. Please run:\n\n  ssh -M -S ");
        push_str(&mut v, self.socket_path.as_str());
        push_str(&mut v, " -o ControlPersist=yes -fN ");
        push_str(&mut v, self.user.as_str());
        push_str(&mut v, "@");
        push_str(&mut v, self.host.as_str());
        push_str(&mut v, "\n\nThis will prompt for Duo authentication (one-time per session).");
        string_of(&v)
    }

    /// Connection status as the clients read it, after a check that found
    /// the connection up or down: where it is down, how to open it.
    pub fn connection_status(&self, connected: bool) -> (res: ConnectionStatus)
        ensures
            res.connected == connected,
            res.user@ == self.user_name(),
            res.host@ == self.host_name(),
            res.socket_path@ == self.socket(),
            res.instructions.deep_view() == if connected {
                None::<Seq<char>>
            } else {
                Some(control_instructions(self.socket(), self.user_name(), self.host_name()))
            },
    {
        ConnectionStatus {
            connected,
            user: self.user.clone(),
            host: self.host.clone(),
            socket_path: self.socket_path.clone(),
            instructions: if connected {
                None
            } else {
                Some(self.connection_instructions())
            },
        }
    }

    /// Get user
    pub fn user(&self) -> (res: &str)
        ensures
            res@ == self.user_name(),
    {
        self.user.as_str()
    }

    /// Get host
    pub fn host(&self) -> (res: &str)
        ensures
            res@ == self.host_name(),
    {
        self.host.as_str()
    }

    /// The arguments of `ssh` that check the ControlMaster.
    pub fn check_args(&self) -> (res: Vec<String>)
        ensures
            res.deep_view() == seq![
                "-S"@,
                self.socket(),
                "-O"@,
                "check"@,
                self.user_name() + "@"@ + self.host_name(),
            ],
    {
        let mut res: Vec<String> = Vec::new();
        res.push(String::from_str("-S"));
        res.push(self.socket_path.clone());
        res.push(String::from_str("-O"));
        res.push(String::from_str("check"));
        res.push(self.destination());
        assert(res.deep_view() =~= seq![
            "-S"@,
            self.socket(),
            "-O"@,
            "check"@,
            self.user_name() + "@"@ + self.host_name(),
        ]);
        res
    }

    /// The arguments of `ssh` that run a command through the ControlMaster.
    pub fn exec_args(&self, command: &str) -> (res: Vec<String>)
        ensures
            res.deep_view() == seq![
                "-S"@,
                self.socket(),
                self.user_name() + "@"@ + self.host_name(),
                command@,
            ],
    {
        let mut res: Vec<String> = Vec::new();
        res.push(String::from_str("-S"));
        res.push(self.socket_path.clone());
        res.push(self.destination());
        res.push(String::from_str(command));
        assert(res.deep_view() =~= seq![
            "-S"@,
            self.socket(),
            self.user_name() + "@"@ + self.host_name(),
            command@,
        ]);
        res
    }

    fn destination(&self) -> (res: String)
        ensures
            res@ == self.user_name() + "@"@ + self.host_name(),
    {
        let mut v: Vec<char> = Vec::new();
        push_str(&mut v, self.user.as_str());
        push_str(&mut v, "@");
        push_str(&mut v, self.host.as_str());
        string_of(&v)
    }
}

} // verus!
