//! Running the program of a backend: its output and its time limit.

use crate::number;
use crate::text;
use vstd::prelude::*;
use vstd::string::*;

verus! {

/// How a program ended and what it wrote.
#[derive(Debug, PartialEq, Eq)]
pub struct ProcessOutput {
    pub success: bool,
    pub status: String,
    pub stdout: Vec<u8>,
}

/// What `String::from_utf8_lossy` reads in a sequence of bytes.
pub uninterp spec fn utf8_lossy(bytes: Seq<u8>) -> Seq<char>;

/// `String::from_utf8_lossy`: the text that the bytes encode in UTF-8, with replacement characters
/// where they are no UTF-8. Which replacement characters stand for which bytes is not stated.
#[verifier::external_body]
pub(crate) fn text_of_bytes(bytes: &Vec<u8>) -> (r: String)
    ensures
        r@ == utf8_lossy(bytes@),
        vstd::utf8::valid_utf8(bytes@) ==> r@ == vstd::utf8::decode_utf8(bytes@),
{
    String::from_utf8_lossy(bytes).into_owned()
}

/// How long to wait between two looks at a running process.
pub const POLL_INTERVAL_MS: u64 = 10;

/// What to do about a process that was started.
#[derive(Debug, Clone, Copy, PartialEq, Eq, Structural)]
pub enum PollStep {
    /// It has ended: collect its output.
    Collect,
    /// It has used up its time: stop it.
    Stop,
    /// Look again after that many milliseconds.
    Sleep(u64),
}

/// What to do about a process, `elapsed_nanos` after its start.
pub open spec fn poll_step(ended: bool, elapsed_nanos: int, timeout_ms: int) -> PollStep {
    if ended {
        PollStep::Collect
    } else if elapsed_nanos >= timeout_ms * 1_000_000 {
        PollStep::Stop
    } else {
        PollStep::Sleep(POLL_INTERVAL_MS)
    }
}

/// Whether the time limit has passed `elapsed_nanos` after the start.
pub fn is_timed_out(elapsed_nanos: u128, timeout_ms: u64) -> (timed_out: bool)
    ensures
        timed_out == (elapsed_nanos >= timeout_ms * 1_000_000),
{
    elapsed_nanos >= timeout_ms as u128 * 1_000_000
}

/// One look at a process that was started: whether to collect its output, to stop it or to wait
/// on.
pub fn wait_with_output_timeout(ended: bool, elapsed_nanos: u128, timeout_ms: u64) -> (step:
    PollStep)
    ensures
        step == poll_step(ended, elapsed_nanos as int, timeout_ms as int),
{
    if ended {
        PollStep::Collect
    } else if is_timed_out(elapsed_nanos, timeout_ms) {
        PollStep::Stop
    } else {
        PollStep::Sleep(POLL_INTERVAL_MS)
    }
}

/// A process is stopped only once its time limit has passed, and one that has ended never.
pub proof fn law_stopped_only_after_limit(ended: bool, elapsed_nanos: int, timeout_ms: int)
    ensures
        poll_step(ended, elapsed_nanos, timeout_ms) == PollStep::Stop <==> !ended && elapsed_nanos
            >= timeout_ms * 1_000_000,
{
}

/// The nanoseconds in a span of seconds and nanoseconds, and zero for a span that is not known.
pub open spec fn span_nanos(since_epoch: Option<(u64, u32)>) -> int {
    match since_epoch {
        Some((seconds, rest)) => seconds * 1_000_000_000 + rest,
        None => 0,
    }
}

/// The nanoseconds in a span of seconds and nanoseconds, and zero for a span that is not known.
pub fn unique_nanos(since_epoch: Option<(u64, u32)>) -> (nanos: u128)
    ensures
        nanos == span_nanos(since_epoch),
        nanos == match since_epoch {
            Some((seconds, rest)) => seconds * 1_000_000_000 + rest,
            None => 0int,
        },
{
    match since_epoch {
        Some((seconds, rest)) => seconds as u128 * 1_000_000_000 + rest as u128,
        None => 0,
    }
}

/// The name of the directory for the output of one run.
pub open spec fn dir_name(process_id: int, nanos: int) -> Seq<char> {
    ".ocr-"@ + number::decimal(process_id) + "-"@ + number::decimal(nanos)
}

/// The name of the directory for the output of one run.
pub fn temp_dir_name(process_id: u32, nanos: u128) -> (name: String)
    ensures
        name@ == dir_name(process_id as int, nanos as int),
{
    let first = text::concat3(".ocr-", number::decimal_u64(process_id as u64).as_str(), "-");
    text::concat(first.as_str(), number::decimal_u128(nanos).as_str())
}

/// Runs of different processes, or at different times, get different directories.
pub proof fn law_dir_names_differ(process_id: int, nanos: int, other_id: int, other_nanos: int)
    requires
        0 <= process_id,
        0 <= nanos,
        0 <= other_id,
        0 <= other_nanos,
        dir_name(process_id, nanos) == dir_name(other_id, other_nanos),
    ensures
        process_id == other_id,
        nanos == other_nanos,
{
    let name = dir_name(process_id, nanos);
    let start = ".ocr-"@.len() as int;
    let a = number::decimal(process_id);
    let b = number::decimal(other_id);
    let c = number::decimal(nanos);
    let d = number::decimal(other_nanos);
    reveal_strlit("-");
    number::law_decimal_is_digits(process_id);
    number::law_decimal_is_digits(other_id);
    if a.len() < b.len() {
        assert(name[start + a.len()] == '-');
        assert(name[start + a.len()] == b[a.len() as int]);
    }
    if b.len() < a.len() {
        assert(name[start + b.len()] == '-');
        assert(name[start + b.len()] == a[b.len() as int]);
    }
    assert(a =~= name.subrange(start, start + a.len()));
    assert(b =~= name.subrange(start, start + b.len()));
    assert(c =~= name.skip(start + a.len() + 1));
    assert(d =~= name.skip(start + a.len() + 1));
    number::law_decimal_read_back(process_id);
    number::law_decimal_read_back(other_id);
    number::law_decimal_read_back(nanos);
    number::law_decimal_read_back(other_nanos);
}

/// A process is looked at until it has ended or its time is up: its output is collected exactly once
/// it has ended, and as long as it runs within its limit it is looked at again, ten milliseconds
/// later. Once it is stopped, it would be stopped at any later time, too.
pub proof fn law_process_is_looked_at_until_it_ends(
    ended: bool,
    elapsed_nanos: int,
    later_nanos: int,
    timeout_ms: int,
)
    requires
        elapsed_nanos <= later_nanos,
    ensures
        poll_step(ended, elapsed_nanos, timeout_ms) == PollStep::Collect <==> ended,
        poll_step(ended, elapsed_nanos, timeout_ms) == PollStep::Sleep(10) <==> !ended
            && elapsed_nanos < timeout_ms * 1_000_000,
        poll_step(ended, elapsed_nanos, timeout_ms) == PollStep::Stop ==> poll_step(
            ended,
            later_nanos,
            timeout_ms,
        ) == PollStep::Stop,
{
}

/// The name of a directory starts with a dot, so that the directory is hidden, and then names, with
/// hyphens before them, the process and the time.
pub proof fn law_dir_name_is_hidden_and_names_both(process_id: int, nanos: int)
    ensures
        dir_name(process_id, nanos)[0] == '.',
        text::after_prefix(dir_name(process_id, nanos), ".ocr-"@) == Some(
            number::decimal(process_id) + seq!['-'] + number::decimal(nanos),
        ),
{
    reveal_strlit(".ocr-");
    reveal_strlit("-");
    assert("-"@ =~= seq!['-']);
    let rest = number::decimal(process_id) + seq!['-'] + number::decimal(nanos);
    assert(dir_name(process_id, nanos) =~= ".ocr-"@ + rest);
    text::law_prefix_is_taken_off(dir_name(process_id, nanos), ".ocr-"@, rest);
}

/// Seconds and the nanoseconds beyond them can be told from the nanoseconds of a span, so different
/// times give different numbers; a span that is not known counts as none.
pub proof fn law_spans_are_told_apart(seconds: u64, rest: u32)
    requires
        rest < 1_000_000_000,
    ensures
        span_nanos(Some((seconds, rest))) / 1_000_000_000 == seconds,
        span_nanos(Some((seconds, rest))) % 1_000_000_000 == rest,
        span_nanos(None) == span_nanos(Some((0, 0))),
{
}

} // verus!
