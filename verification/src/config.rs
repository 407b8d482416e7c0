//! How the proxy is set up: the configuration file and the command line.

use vstd::prelude::*;
use vstd::string::*;
use crate::pipeline::{ProxyState, ProxyStateView};
use crate::records::{mode_of, Mode, RecordOptions};
use crate::text::{decimal, decimal_of, join};

verus! {

/// The configuration of the proxy.
#[derive(Debug, PartialEq, Eq)]
pub struct Config {
    /// Patterns of the hosts whose exchanges are recorded.
    pub hosts_to_record: Vec<String>,
    /// The address to listen on.
    pub listen_addr: String,
    /// The port to listen on.
    pub listen_port: u16,
    /// The directory of the snapshot files; empty to pass requests through.
    pub record_dir: String,
}

/// The configuration that is used where none is given: every host, the
/// address `localhost`, port 3333, and no snapshot directory.
pub fn get_default_config() -> (config: Config)
    ensures
        config.hosts_to_record.deep_view() == seq![".*"@],
        config.listen_addr@ == "localhost"@,
        config.listen_port == 3333,
        config.record_dir@.len() == 0,
        mode_of(true, config.record_dir@) == Mode::Passthrough,
{
    let mut hosts: Vec<String> = Vec::new();
    hosts.push(String::from_str(".*"));
    assert(hosts.deep_view() =~= seq![".*"@]);
    Config {
        hosts_to_record: hosts,
        listen_addr: String::from_str("localhost"),
        listen_port: 3333,
        record_dir: String::new(),
    }
}

/// The address of a socket: the host, a colon, and the port in decimal.
pub open spec fn socket_address_of(host: Seq<char>, port: u16) -> Seq<char> {
    host + ":"@ + decimal_of(port as nat)
}

/// The address of a socket.
pub fn socket_address(host: &str, port: u16) -> (address: String)
    ensures
        address@ == socket_address_of(host@, port),
{
    let mut address = join(host, ":");
    address.append(decimal(port as usize).as_str());
    address
}

impl Config {
    /// The address that the proxy listens on.
    pub fn listen_address(&self) -> (address: String)
        ensures
            address@ == socket_address_of(self.listen_addr@, self.listen_port),
    {
        socket_address(self.listen_addr.as_str(), self.listen_port)
    }

    /// The mode that the proxy runs in, given the record flag of the command
    /// line.
    pub fn mode(&self, need_recording: bool) -> (mode: Mode)
        ensures
            mode == mode_of(need_recording, self.record_dir@),
    {
        if self.record_dir.as_str().is_empty() {
            Mode::Passthrough
        } else if need_recording {
            Mode::Record
        } else {
            Mode::Replay
        }
    }

    /// The state in which the proxy starts: no session is open.
    pub fn launch(self, need_recording: bool, forward_to: String) -> (state: ProxyState)
        ensures
            state@ == (ProxyStateView {
                record: need_recording,
                record_dir: self.record_dir@,
                forward_to: forward_to@,
                sessions: Map::empty(),
            }),
    {
        ProxyState::new(
            RecordOptions { record: need_recording, record_dir: self.record_dir },
            forward_to,
        )
    }
}

} // verus!
