//! Parsers for the text output of an edge router's management commands.
//!
//! The router's CLI tools print loosely structured, whitespace-delimited
//! status reports. This crate turns those reports into typed records:
//! routing (BGP) summaries, dynamic-DNS status blocks, load-balance group
//! and watchdog listings, PPPoE session tables, interface address
//! inventories and version blocks. Every parser is a pure function with a
//! verified contract.

use vstd::prelude::*;

pub mod addr;
pub mod bgp;
pub mod blocks;
pub mod config;
pub mod ddns;
pub mod duration;
pub mod fields;
pub mod interface;
pub mod ipsec;
pub mod load_balance;
pub mod metrics;
pub mod num;
pub mod pppoe;
pub mod quantity;
pub mod runner;
pub mod text;
pub mod timestamp;
pub mod version;

verus! {

/// Why a parse was rejected.
#[derive(Clone, Debug, PartialEq, Eq)]
pub enum ParseError {
    /// A header or block frame did not have the expected shape.
    MalformedHeader,
    /// A mandatory key line was absent from a block.
    MissingRequiredField,
    /// A duration literal matched none of the supported formats.
    UnrecognizedDurationFormat,
    /// A scaled quantity was beyond the supported magnitude range.
    QuantityOverflow,
    /// A merged column could not be split back into its fields.
    AmbiguousColumnUnresolved,
    /// A token was not a member of a closed enumeration.
    InvalidEnumerationToken,
}

} // verus!
