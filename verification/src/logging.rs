//! The log file.
use crate::text;
use vstd::prelude::*;

verus! {

/// A log larger than this is begun anew.
pub const MAX_LOG_BYTES: u64 = 5_242_880;

/// Whether a log of that size is begun anew when the bridge starts.
pub fn init(log_bytes: u64) -> (r: bool)
    ensures
        r == (log_bytes > MAX_LOG_BYTES),
{
    log_bytes > MAX_LOG_BYTES
}

/// The time as the log shows it.
pub open spec fn stamp(secs: u64) -> Seq<char> {
    "epoch+"@ + text::decimal(secs as nat)
}

/// What is written to the log for a message: the time in seconds since the epoch, the
/// message, and the end of the line.
pub fn log_line(secs: u64, msg: &str) -> (r: String)
    ensures
        r@ == "["@ + stamp(secs) + "] "@ + msg@ + "\n"@,
{
    let mut out = text::owned("[");
    out.append("epoch+");
    text::push_decimal(&mut out, secs);
    out.append("] ");
    out.append(msg);
    out.append("\n");
    assert(out@ =~= "["@ + stamp(secs) + "] "@ + msg@ + "\n"@);
    out
}

/// A line says when it was written, in seconds, and a log is begun anew above five megabytes.
pub proof fn lines_say_when_they_were_written(secs: u64)
    ensures
        stamp(secs).take("epoch+"@.len() as int) == "epoch+"@,
        text::digits_value(stamp(secs).skip("epoch+"@.len() as int)) == secs,
        MAX_LOG_BYTES == 5 * 1024 * 1024,
{
    text::numerals_read_back(secs as nat);
    assert(stamp(secs).take("epoch+"@.len() as int) =~= "epoch+"@);
    assert(stamp(secs).skip("epoch+"@.len() as int) =~= text::decimal(secs as nat));
}

} // verus!
