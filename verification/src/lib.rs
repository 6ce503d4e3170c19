//! Per-process virtual-filesystem overlay: a controller injects a payload
//! module into a target process; the payload rewrites file paths according to
//! an ordered mapping table and reports back over a framed message protocol.
//!
//! This crate holds the verified core: the path model and resolution engine,
//! the wire protocol with its codec, and the decision logic of the detours,
//! the payload bootstrap and the controller supervisor. Platform plumbing
//! (pipes, injection, the actual detour patching) lives outside.
use vstd::prelude::*;

pub mod hooks;
pub mod path;
pub mod payload;
pub mod protocol;
pub mod supervisor;
pub mod util;
pub mod vfs;
pub mod wire;

verus! {

/// Which end of the controller<->payload pipe pair a name refers to,
/// from the controller's point of view: `Tx` is written by the controller,
/// `Rx` is read by it. The payload connects with the dual orientation.
#[derive(Clone, Copy, Debug, PartialEq, Eq, Structural)]
pub enum PipeEnd {
    Tx,
    Rx,
}

/// The character for one decimal digit.
pub open spec fn decimal_digit(d: int) -> char {
    if d == 0 {
        '0'
    } else if d == 1 {
        '1'
    } else if d == 2 {
        '2'
    } else if d == 3 {
        '3'
    } else if d == 4 {
        '4'
    } else if d == 5 {
        '5'
    } else if d == 6 {
        '6'
    } else if d == 7 {
        '7'
    } else if d == 8 {
        '8'
    } else {
        '9'
    }
}

/// The decimal digits of a number, most significant first, without leading
/// zeroes (a lone zero for zero).
pub open spec fn spec_decimal(n: nat) -> Seq<char>
    decreases n,
{
    if n < 10 {
        seq![decimal_digit(n as int)]
    } else {
        spec_decimal(n / 10).push(decimal_digit((n % 10) as int))
    }
}

/// The name of one end of the pipe pair serving one target process.
///
/// The product name and version are baked into the name: two sides whose
/// wire formats could differ must never reach each other. Keep the version
/// here in step with the crate's own.
pub open spec fn spec_pipe_name(pid: u32, end: PipeEnd) -> Seq<char> {
    r"\\.\pipe\asbestos-0.1.0-"@ + spec_decimal(pid as nat) + "-"@ + (match end {
        PipeEnd::Tx => "tx"@,
        PipeEnd::Rx => "rx"@,
    })
}

/// One decimal digit as a string.
fn digit_string(d: u32) -> (r: String)
    requires
        d < 10,
    ensures
        r@ == seq![decimal_digit(d as int)],
{
    let r = match d {
        0 => String::from_str("0"),
        1 => String::from_str("1"),
        2 => String::from_str("2"),
        3 => String::from_str("3"),
        4 => String::from_str("4"),
        5 => String::from_str("5"),
        6 => String::from_str("6"),
        7 => String::from_str("7"),
        8 => String::from_str("8"),
        _ => String::from_str("9"),
    };
    proof {
        reveal_strlit("0");
        reveal_strlit("1");
        reveal_strlit("2");
        reveal_strlit("3");
        reveal_strlit("4");
        reveal_strlit("5");
        reveal_strlit("6");
        reveal_strlit("7");
        reveal_strlit("8");
        reveal_strlit("9");
        assert(r@ =~= seq![decimal_digit(d as int)]);
    }
    r
}

/// A number in decimal.
fn decimal_string(n: u32) -> (r: String)
    ensures
        r@ == spec_decimal(n as nat),
    decreases n,
{
    if n < 10 {
        digit_string(n)
    } else {
        let mut r = decimal_string(n / 10);
        let d = digit_string(n % 10);
        r.append(d.as_str());
        assert(r@ =~= spec_decimal(n as nat));
        r
    }
}

/// The name under which the controller serves, and a payload connects to,
/// one end of the pipe pair for the given process.
pub fn named_pipe_name(pid: u32, end: PipeEnd) -> (r: String)
    ensures
        r@ == spec_pipe_name(pid, end),
{
    let mut r = String::from_str(r"\\.\pipe\asbestos-0.1.0-");
    let digits = decimal_string(pid);
    r.append(digits.as_str());
    r.append("-");
    match end {
        PipeEnd::Tx => r.append("tx"),
        PipeEnd::Rx => r.append("rx"),
    }
    assert(r@ =~= spec_pipe_name(pid, end));
    r
}

} // verus!
