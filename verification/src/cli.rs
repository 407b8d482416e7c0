//! The arguments of the command line.

use vstd::prelude::*;
use crate::config::{get_default_config, Config};
use crate::pipeline::{ProxyState, ProxyStateView};

verus! {

/// The arguments of the command line.
#[derive(Debug, PartialEq, Eq)]
pub struct CliArguments {
    /// The address to listen on.
    pub listen_addr: String,
    /// The port to listen on.
    pub port: u16,
    /// The address of the upstream.
    pub forward_to: String,
    /// Whether exchanges are recorded rather than replayed.
    pub record: bool,
    /// The directory of the snapshot files; empty to pass requests through.
    pub record_dir: String,
}

impl CliArguments {
    /// The configuration that these arguments stand for.
    pub fn config(&self) -> (config: Config)
        ensures
            config.hosts_to_record.deep_view() == seq![".*"@],
            config.listen_addr@ == self.listen_addr@,
            config.listen_port == self.port,
            config.record_dir@ == self.record_dir@,
    {
        let mut config = get_default_config();
        config.listen_addr = self.listen_addr.clone();
        config.listen_port = self.port;
        config.record_dir = self.record_dir.clone();
        config
    }

    /// The state in which a proxy with these arguments starts.
    pub fn launch(&self) -> (state: ProxyState)
        ensures
            state@ == (ProxyStateView {
                record: self.record,
                record_dir: self.record_dir@,
                forward_to: self.forward_to@,
                sessions: Map::empty(),
            }),
    {
        self.config().launch(self.record, self.forward_to.clone())
    }
}

} // verus!
