//! The exporter's configuration: command paths and the listening port.

use vstd::prelude::*;

verus! {

/// The path of the key daemon's control socket.
#[derive(Clone, Debug, PartialEq, Eq)]
pub struct ViciPath(pub String);

/// The path of the address-listing command.
#[derive(Clone, Debug, PartialEq, Eq)]
pub struct IpCommand(pub String);

/// The path of the operational command wrapper.
#[derive(Clone, Debug, PartialEq, Eq)]
pub struct OpCommand(pub String);

/// The path of the dynamic-DNS status command.
#[derive(Clone, Debug, PartialEq, Eq)]
pub struct OpDdnsCommand(pub String);

/// The path of the routing daemon's shell.
#[derive(Clone, Debug, PartialEq, Eq)]
pub struct VtyshCommand(pub String);

/// Everything the exporter is configured with.
#[derive(Clone, Debug, PartialEq, Eq)]
pub struct Config {
    pub log_level: String,
    pub port: u16,
    pub tls_cert: Option<String>,
    pub tls_key: Option<String>,
    pub vici_path: ViciPath,
    pub ip_command: IpCommand,
    pub op_command: OpCommand,
    pub op_ddns_command: OpDdnsCommand,
    pub vtysh_command: VtyshCommand,
}

pub fn default_vici_path() -> (r: ViciPath)
    ensures
        r.0@ == "/run/charon.vici"@,
{
    ViciPath(String::from_str("/run/charon.vici"))
}

pub fn default_ip_command() -> (r: IpCommand)
    ensures
        r.0@ == "/bin/ip"@,
{
    IpCommand(String::from_str("/bin/ip"))
}

pub fn default_op_command() -> (r: OpCommand)
    ensures
        r.0@ == "/opt/vyatta/bin/vyatta-op-cmd-wrapper"@,
{
    OpCommand(String::from_str("/opt/vyatta/bin/vyatta-op-cmd-wrapper"))
}

pub fn default_op_ddns_command() -> (r: OpDdnsCommand)
    ensures
        r.0@ == "/opt/vyatta/bin/sudo-users/vyatta-op-dynamic-dns.pl"@,
{
    OpDdnsCommand(String::from_str("/opt/vyatta/bin/sudo-users/vyatta-op-dynamic-dns.pl"))
}

pub fn default_vtysh_command() -> (r: VtyshCommand)
    ensures
        r.0@ == "/opt/vyatta/sbin/ubnt_vtysh"@,
{
    VtyshCommand(String::from_str("/opt/vyatta/sbin/ubnt_vtysh"))
}

} // verus!
