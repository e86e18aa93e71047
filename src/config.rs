//! The benchmark's settings: sizes written with unit suffixes, and the
//! checks that make them a plan the planner accepts.
use vstd::prelude::*;
use crate::error::ErrorKind;

verus! {

/// The number of bytes that byte_unit reads from a size text such as
/// `"1MB"`, `"64KiB"` or `"65536B"`; `None` when it cannot read it.
pub uninterp spec fn byte_count_of(s: Seq<char>) -> Option<u64>;

/// Relies on byte_unit's `FromStr` for `Byte` (units case-sensitive, as
/// `Byte::parse_str(s, false)`) and `Byte::as_u64`: the bytes a size text
/// stands for, or an error.
#[verifier::external_body]
fn byte_count(s: &str) -> (r: Option<u64>)
    ensures
        r == byte_count_of(s@),
{
    match <byte_unit::Byte as std::str::FromStr>::from_str(s) {
        Ok(b) => Some(b.as_u64()),
        Err(_) => None,
    }
}

/// Reads a size written with an optional unit suffix.
pub fn parse_size(text: &str) -> (r: Result<u64, ErrorKind>)
    ensures
        byte_count_of(text@) matches Some(n) ==> r == Ok::<u64, ErrorKind>(n),
        byte_count_of(text@) is None ==> r == Err::<u64, ErrorKind>(ErrorKind::ConfigParse),
{
    match byte_count(text) {
        Some(n) => Ok(n),
        None => Err(ErrorKind::ConfigParse),
    }
}

/// What a benchmark run transfers.
#[derive(Clone, Copy, Debug, PartialEq, Eq, Structural)]
pub struct TransferConfig {
    /// Bytes per pass.
    pub volume: u64,
    /// Largest message, in bytes.
    pub msg_size: u64,
    /// Passes over the buffer.
    pub iterations: u64,
    /// Queue pairs.
    pub qps: u32,
    /// Start-up delay per queue-pair index, in milliseconds.
    pub delay: u64,
}

/// Settings the data plane can run: at least one queue pair, messages of
/// at least one byte that fit an SGE, and a total that fits in `u64`.
pub open spec fn config_ok(volume: u64, msg_size: u64, iterations: u64, qps: u32) -> bool {
    &&& qps >= 1
    &&& 1 <= msg_size <= u32::MAX
    &&& volume * iterations <= u64::MAX
}

/// Settings from checked values: `ConfigParse` unless `config_ok` holds.
pub fn checked_config(volume: u64, msg_size: u64, iterations: u64, qps: u32, delay: u64) -> (r:
    Result<TransferConfig, ErrorKind>)
    ensures
        config_ok(volume, msg_size, iterations, qps) ==> r == Ok::<TransferConfig, ErrorKind>(
            TransferConfig { volume, msg_size, iterations, qps, delay },
        ),
        !config_ok(volume, msg_size, iterations, qps) ==> r == Err::<TransferConfig, ErrorKind>(
            ErrorKind::ConfigParse,
        ),
{
    if qps == 0 || msg_size == 0 || msg_size > 0xffff_ffff {
        return Err(ErrorKind::ConfigParse);
    }
    if iterations != 0 && volume > u64::MAX / iterations {
        proof {
            assert(volume * iterations > u64::MAX) by (nonlinear_arith)
                requires
                    iterations >= 1,
                    volume > u64::MAX / iterations,
            ;
        }
        return Err(ErrorKind::ConfigParse);
    }
    proof {
        if iterations != 0 {
            assert(volume * iterations <= u64::MAX) by (nonlinear_arith)
                requires
                    iterations >= 1,
                    volume <= u64::MAX / iterations,
            ;
        }
    }
    Ok(TransferConfig { volume, msg_size, iterations, qps, delay })
}

impl TransferConfig {
    /// Settings from the command line: the sizes as texts with unit
    /// suffixes, the rest as numbers.
    pub fn parse(volume: &str, msg_size: &str, iterations: u64, qps: u32, delay: u64) -> (r: Result<
        TransferConfig,
        ErrorKind,
    >)
        ensures
            (byte_count_of(volume@) matches Some(v) && byte_count_of(msg_size@) matches Some(m)
                && config_ok(v, m, iterations, qps)) ==> r == Ok::<TransferConfig, ErrorKind>(
                TransferConfig {
                    volume: byte_count_of(volume@).unwrap(),
                    msg_size: byte_count_of(msg_size@).unwrap(),
                    iterations,
                    qps,
                    delay,
                },
            ),
            !(byte_count_of(volume@) matches Some(v) && byte_count_of(msg_size@) matches Some(m)
                && config_ok(v, m, iterations, qps)) ==> r == Err::<TransferConfig, ErrorKind>(
                ErrorKind::ConfigParse,
            ),
    {
        let v = parse_size(volume)?;
        let m = parse_size(msg_size)?;
        checked_config(v, m, iterations, qps, delay)
    }
}

} // verus!
