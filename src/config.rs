//! Startup options given as text: board sizes and the tick interval.
use vstd::prelude::*;
use vstd::string::StringSliceAdditionalSpecFns;

use crate::codec::{digit_run, digits_value, scan_digits};
use crate::geometry::Size;

verus! {

/// Rows of the terminal kept free for the status lines under the board.
pub const FOOTER_ROWS: u16 = 5;

/// Shortest tick interval of auto-run, in milliseconds.
pub const MIN_DURATION_MS: u64 = 15;

/// Why a startup option was refused.
#[derive(Debug, Clone, Copy, PartialEq, Eq, Structural)]
pub enum ConfigError {
    /// A size is not of the form `<width>:<height>`.
    InvalidFormat,
    /// A number does not parse, or does not fit its type.
    InvalidNumber,
    /// The terminal leaves no room for a board.
    TerminalTooSmall,
}

/// What `<width>:<height>`, read as bytes, denotes.
pub open spec fn point_result(b: Seq<u8>) -> Result<(u16, u16), ConfigError> {
    let a = digit_run(b, 0) as int;
    let c = digit_run(b, a + 1) as int;
    if a == 0 || a >= b.len() || b[a] != 58 || c == 0 || a + 1 + c != b.len() {
        Err(ConfigError::InvalidFormat)
    } else {
        let w = digits_value(b.subrange(0, a));
        let h = digits_value(b.subrange(a + 1, b.len() as int));
        if w > 65535 || h > 65535 {
            Err(ConfigError::InvalidNumber)
        } else {
            Ok((w as u16, h as u16))
        }
    }
}

/// What a decimal `u64`, with an optional leading `+`, denotes.
pub open spec fn u64_result(b: Seq<u8>) -> Result<u64, ConfigError> {
    let start: int = if b.len() > 0 && b[0] == 43 { 1 } else { 0 };
    if start >= b.len() || digit_run(b, start) != b.len() - start {
        Err(ConfigError::InvalidNumber)
    } else if digits_value(b.subrange(start, b.len() as int)) > u64::MAX {
        Err(ConfigError::InvalidNumber)
    } else {
        Ok(digits_value(b.subrange(start, b.len() as int)) as u64)
    }
}

/// Reads `<width>:<height>`.
pub fn point_from_str(s: &str) -> (r: Result<(u16, u16), ConfigError>)
    ensures
        r == point_result(s.spec_bytes()),
{
    let b = s.as_bytes();
    let (a, w) = scan_digits(b, 0, 65536);
    if a == 0 || a >= b.len() || b[a] != 58 {
        return Err(ConfigError::InvalidFormat);
    }
    let (e, h) = scan_digits(b, a + 1, 65536);
    if e == a + 1 || e != b.len() {
        return Err(ConfigError::InvalidFormat);
    }
    if w > 65535 || h > 65535 {
        return Err(ConfigError::InvalidNumber);
    }
    Ok((w as u16, h as u16))
}

/// Reads a tick interval in milliseconds, raised to at least [`MIN_DURATION_MS`].
pub fn min_15(v: &str) -> (r: Result<u64, ConfigError>)
    ensures
        r == match u64_result(v.spec_bytes()) {
            Ok(n) => Ok(if n < MIN_DURATION_MS { MIN_DURATION_MS } else { n }),
            Err(e) => Err(e),
        },
{
    let b = v.as_bytes();
    let start: usize = if b.len() > 0 && b[0] == 43 { 1 } else { 0 };
    if start >= b.len() {
        return Err(ConfigError::InvalidNumber);
    }
    let (e, n) = scan_digits(b, start, 0x1_0000_0000_0000_0000);
    if e != b.len() || n > u64::MAX as u128 {
        return Err(ConfigError::InvalidNumber);
    }
    let n = n as u64;
    if n < MIN_DURATION_MS {
        Ok(MIN_DURATION_MS)
    } else {
        Ok(n)
    }
}

impl Size {
    /// Reads a board size written `<width>:<height>`.
    pub fn parse(s: &str) -> (r: Result<Size, ConfigError>)
        ensures
            r == match point_result(s.spec_bytes()) {
                Ok(p) => Ok(Size { width: p.0, height: p.1 }),
                Err(e) => Err(e),
            },
    {
        match point_from_str(s) {
            Ok((width, height)) => Ok(Size { width, height }),
            Err(e) => Err(e),
        }
    }

    /// The largest board that a terminal of `cols` by `rows` shows with the
    /// status lines under it.
    pub fn from_terminal(cols: u16, rows: u16) -> (r: Result<Size, ConfigError>)
        ensures
            r is Err <==> cols == 0 || rows <= FOOTER_ROWS,
            r matches Err(e) ==> e == ConfigError::TerminalTooSmall,
            r matches Ok(s) ==> s.width == cols && s.height == rows - FOOTER_ROWS,
    {
        if cols == 0 || rows <= FOOTER_ROWS {
            Err(ConfigError::TerminalTooSmall)
        } else {
            Ok(Size { width: cols, height: rows - FOOTER_ROWS })
        }
    }
}

} // verus!
