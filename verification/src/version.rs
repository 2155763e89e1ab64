//! The firmware version report: one block of seven mandatory key lines.

use vstd::prelude::*;
use crate::ParseError;
use crate::fields::{block_kv, block_kv_value};
use crate::text::{line_split, split_lines, str_chars};
use crate::timestamp::{datetime_of, parse_datetime_chars, Timestamp};

verus! {

/// The firmware version block.
#[derive(Clone, Debug, PartialEq, Eq)]
pub struct Version {
    pub version: String,
    pub build_id: String,
    pub build_on: Timestamp,
    pub copyright: String,
    pub hw_model: String,
    pub hw_serial_number: String,
    pub uptime: String,
}

/// The format string of the `Build on` timestamp.
pub open spec fn build_time_format() -> Seq<char> {
    "%m/%d/%y %H:%M"@
}

/// Each field is the value of the first line carrying its key; every key
/// is mandatory.
pub open spec fn version_line_values(s: Seq<char>) -> Option<
    (Seq<char>, Seq<char>, Seq<char>, Seq<char>, Seq<char>, Seq<char>, Seq<char>),
> {
    let lines = line_split(s);
    let n = lines.len() as int;
    let version = block_kv(lines, 0, n, "Version"@);
    let build_id = block_kv(lines, 0, n, "Build ID"@);
    let build_on = block_kv(lines, 0, n, "Build on"@);
    let copyright = block_kv(lines, 0, n, "Copyright"@);
    let hw_model = block_kv(lines, 0, n, "HW model"@);
    let hw_serial = block_kv(lines, 0, n, "HW S/N"@);
    let uptime = block_kv(lines, 0, n, "Uptime"@);
    if version is Some && build_id is Some && build_on is Some && copyright is Some && hw_model
        is Some && hw_serial is Some && uptime is Some {
        Some(
            (
                version.unwrap(),
                build_id.unwrap(),
                build_on.unwrap(),
                copyright.unwrap(),
                hw_model.unwrap(),
                hw_serial.unwrap(),
                uptime.unwrap(),
            ),
        )
    } else {
        None
    }
}

/// A parser for the version report.
#[derive(Clone, Copy, Debug, PartialEq, Eq, Structural)]
pub struct VersionParser;

impl VersionParser {
    /// Parses the version report. Succeeds exactly when every one of the
    /// seven keys stands on some line and the build timestamp matches its
    /// format; unrecognized lines are ignored.
    pub fn parse(&self, input: &str) -> (r: Result<Version, ParseError>)
        ensures
            match r {
                Ok(v) => match version_line_values(input@) {
                    Some(vals) => v.version@ == vals.0 && v.build_id@ == vals.1 && Some(v.build_on)
                        == datetime_of(build_time_format(), vals.2) && v.copyright@ == vals.3
                        && v.hw_model@ == vals.4 && v.hw_serial_number@ == vals.5 && v.uptime@
                        == vals.6,
                    None => false,
                },
                Err(e) => match version_line_values(input@) {
                    Some(vals) => e == ParseError::MalformedHeader && datetime_of(
                        build_time_format(),
                        vals.2,
                    ) is None,
                    None => e == ParseError::MissingRequiredField,
                },
            },
    {
        let chars = str_chars(input);
        let lines = split_lines(&chars);
        let n = lines.len();
        let version = block_kv_value(&lines, 0, n, "Version");
        let build_id = block_kv_value(&lines, 0, n, "Build ID");
        let build_on = block_kv_value(&lines, 0, n, "Build on");
        let copyright = block_kv_value(&lines, 0, n, "Copyright");
        let hw_model = block_kv_value(&lines, 0, n, "HW model");
        let hw_serial = block_kv_value(&lines, 0, n, "HW S/N");
        let uptime = block_kv_value(&lines, 0, n, "Uptime");
        match (version, build_id, build_on, copyright, hw_model, hw_serial, uptime) {
            (
                Some(version),
                Some(build_id),
                Some(build_on),
                Some(copyright),
                Some(hw_model),
                Some(hw_serial),
                Some(uptime),
            ) => {
                let build_on = match parse_datetime_chars(&build_on, "%m/%d/%y %H:%M") {
                    Some(ts) => ts,
                    None => {
                        return Err(ParseError::MalformedHeader);
                    },
                };
                Ok(
                    Version {
                        version: crate::text::chars_string(version.as_slice()),
                        build_id: crate::text::chars_string(build_id.as_slice()),
                        build_on,
                        copyright: crate::text::chars_string(copyright.as_slice()),
                        hw_model: crate::text::chars_string(hw_model.as_slice()),
                        hw_serial_number: crate::text::chars_string(hw_serial.as_slice()),
                        uptime: crate::text::chars_string(uptime.as_slice()),
                    },
                )
            },
            _ => Err(ParseError::MissingRequiredField),
        }
    }
}

} // verus!
