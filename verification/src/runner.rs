//! The per-subsystem runners: a command path, an executor and a parser.
//!
//! A runner only assembles its parts here; invoking the command and
//! awaiting its output is the embedding program's business, which hands
//! the captured text to the parser.

use vstd::prelude::*;
use crate::config::{IpCommand, OpCommand, OpDdnsCommand, ViciPath, VtyshCommand};

verus! {

/// Runs the routing daemon's summary commands, one per address family.
pub struct BGPRunner<E, P> {
    pub command: VtyshCommand,
    pub executor: E,
    pub parser: P,
}

impl<E, P> BGPRunner<E, P> {
    pub fn new(command: VtyshCommand, executor: E, parser: P) -> (r: Self)
        ensures
            r.command == command,
            r.executor == executor,
            r.parser == parser,
    {
        BGPRunner { command, executor, parser }
    }
}

/// Runs the dynamic-DNS status command.
pub struct DdnsRunner<E, P> {
    pub command: OpDdnsCommand,
    pub executor: E,
    pub parser: P,
}

impl<E, P> DdnsRunner<E, P> {
    pub fn new(command: OpDdnsCommand, executor: E, parser: P) -> (r: Self)
        ensures
            r.command == command,
            r.executor == executor,
            r.parser == parser,
    {
        DdnsRunner { command, executor, parser }
    }
}

/// Talks to the key daemon over its control socket.
pub struct IPsecRunner {
    pub path: ViciPath,
}

impl IPsecRunner {
    pub fn new(path: ViciPath) -> (r: Self)
        ensures
            r.path == path,
    {
        IPsecRunner { path }
    }
}

/// Runs the load-balance status and watchdog commands.
pub struct LoadBalanceRunner<E, StatusParser, WatchdogParser> {
    pub command: OpCommand,
    pub executor: E,
    pub status_parser: StatusParser,
    pub watchdog_parser: WatchdogParser,
}

impl<E, StatusParser, WatchdogParser> LoadBalanceRunner<E, StatusParser, WatchdogParser> {
    pub fn new(
        command: OpCommand,
        executor: E,
        status_parser: StatusParser,
        watchdog_parser: WatchdogParser,
    ) -> (r: Self)
        ensures
            r.command == command,
            r.executor == executor,
            r.status_parser == status_parser,
            r.watchdog_parser == watchdog_parser,
    {
        LoadBalanceRunner { command, executor, status_parser, watchdog_parser }
    }
}

/// Runs the session command, after the address listing it depends on.
pub struct PPPoERunner<E, SessionParser, AddressParser> {
    pub op_command: OpCommand,
    pub ip_command: IpCommand,
    pub executor: E,
    pub pppoe_parser: SessionParser,
    pub interface_parser: AddressParser,
}

impl<E, SessionParser, AddressParser> PPPoERunner<E, SessionParser, AddressParser> {
    pub fn new(
        op_command: OpCommand,
        ip_command: IpCommand,
        executor: E,
        pppoe_parser: SessionParser,
        interface_parser: AddressParser,
    ) -> (r: Self)
        ensures
            r.op_command == op_command,
            r.ip_command == ip_command,
            r.executor == executor,
            r.pppoe_parser == pppoe_parser,
            r.interface_parser == interface_parser,
    {
        PPPoERunner { op_command, ip_command, executor, pppoe_parser, interface_parser }
    }
}

/// Runs the version command.
pub struct VersionRunner<E, P> {
    pub command: OpCommand,
    pub executor: E,
    pub parser: P,
}

impl<E, P> VersionRunner<E, P> {
    pub fn new(command: OpCommand, executor: E, parser: P) -> (r: Self)
        ensures
            r.command == command,
            r.executor == executor,
            r.parser == parser,
    {
        VersionRunner { command, executor, parser }
    }
}

/// The six runners behind the metrics page.
pub struct MetricsHandler<A, B, C, D, E, F> {
    pub bgp_runner: A,
    pub ddns_runner: B,
    pub ipsec_runner: C,
    pub load_balance_runner: D,
    pub pppoe_runner: E,
    pub version_runner: F,
}

impl<A, B, C, D, E, F> MetricsHandler<A, B, C, D, E, F> {
    pub fn new(
        bgp_runner: A,
        ddns_runner: B,
        ipsec_runner: C,
        load_balance_runner: D,
        pppoe_runner: E,
        version_runner: F,
    ) -> (r: Self)
        ensures
            r.bgp_runner == bgp_runner,
            r.ddns_runner == ddns_runner,
            r.ipsec_runner == ipsec_runner,
            r.load_balance_runner == load_balance_runner,
            r.pppoe_runner == pppoe_runner,
            r.version_runner == version_runner,
    {
        MetricsHandler {
            bgp_runner,
            ddns_runner,
            ipsec_runner,
            load_balance_runner,
            pppoe_runner,
            version_runner,
        }
    }
}

/// The serving engine: the port, the optional certificate pair, and the
/// metrics controller.
pub struct Engine<M> {
    pub port: u16,
    pub tls: Option<(String, String)>,
    pub metrics_controller: M,
}

impl<M> Engine<M> {
    /// Assembles the engine; serving is the embedding program's business.
    /// The certificate pair is kept only when both halves are given.
    pub fn new(port: u16, tls_cert: Option<String>, tls_key: Option<String>, metrics_controller: M) -> (r:
        Self)
        ensures
            r.port == port,
            r.metrics_controller == metrics_controller,
            match (tls_cert, tls_key) {
                (Some(c), Some(k)) => r.tls == Some((c, k)),
                _ => r.tls is None,
            },
    {
        let tls = match (tls_cert, tls_key) {
            (Some(c), Some(k)) => Some((c, k)),
            _ => None,
        };
        Engine { port, tls, metrics_controller }
    }
}

} // verus!
