use vstd::prelude::*;
use crate::kernel::{nonce_window_start, window_width};
use crate::report::{status_line, spec_status_line};

verus! {

/// A device must have run this long since the last status line, in
/// nanoseconds, before it prints another.
pub const REPORT_INTERVAL_NANOS: u128 = 2_000_000_000;

/// What one launch of the kernel reported.
#[derive(Clone, Copy, Debug)]
pub struct BatchOutcome {
    /// The nonce that met the target, if one did.
    pub nonce: Option<u64>,
    /// The number of nonces that the launch tried.
    pub hashes: u32,
    /// The best difficulty that the launch reported.
    pub diff: u64,
}

/// Reads the kernel's output words after a launch of `grid_size` blocks of
/// `block_size` threads, each running `num_iterations` iterations: a nonzero
/// first word is a nonce that met the target.
pub fn read_mine_output(output: &Vec<u64>, grid_size: u32, block_size: u32, num_iterations: u32) -> (r: BatchOutcome)
    requires
        output.len() >= 1,
        grid_size as int * block_size as int <= u32::MAX,
        grid_size as int * block_size as int * num_iterations as int <= u32::MAX,
    ensures
        r.hashes == grid_size as int * block_size as int * num_iterations as int,
        r.diff == 0,
        r.nonce == (if output[0] > 0 { Some(output[0]) } else { None::<u64> }),
{
    let hashes = grid_size * block_size * num_iterations;
    if output[0] > 0 {
        BatchOutcome { nonce: Some(output[0]), hashes, diff: 0 }
    } else {
        BatchOutcome { nonce: None, hashes, diff: 0 }
    }
}

/// The search state of one device on one block template.
#[derive(Clone, Copy, Debug)]
pub struct SearchState {
    /// The next nonce to try.
    pub nonce_start: u64,
    /// The best difficulty seen on this template.
    pub max_diff: u64,
    /// The nonce reached per second, as last computed.
    pub last_hash_rate: u64,
}

/// The search state of device `thread_index` of `num_threads` when it starts
/// on a template: at the start of its nonce window, nothing seen yet.
pub fn start_search(num_threads: u64, thread_index: u64) -> (s: SearchState)
    requires
        num_threads > 0,
        window_width(num_threads) * thread_index <= u64::MAX,
    ensures
        s.nonce_start == window_width(num_threads) * thread_index,
        s.max_diff == 0,
        s.last_hash_rate == 0,
{
    SearchState { nonce_start: nonce_window_start(num_threads, thread_index), max_diff: 0, last_hash_rate: 0 }
}

/// Whether a device has searched a template long enough to fetch a new one.
pub fn refresh_due(elapsed_secs: u64, template_refresh_secs: u64) -> (due: bool)
    ensures due == (elapsed_secs > template_refresh_secs),
{
    elapsed_secs > template_refresh_secs
}

/// The search state after one launch, `elapsed_secs` seconds into the template.
pub open spec fn after_batch(s: SearchState, o: BatchOutcome, elapsed_secs: u64) -> SearchState {
    let nonce_start = (s.nonce_start + o.hashes) as u64;
    SearchState {
        nonce_start,
        max_diff: if o.diff > s.max_diff { o.diff } else { s.max_diff },
        last_hash_rate: if elapsed_secs > 1 { nonce_start / elapsed_secs } else { s.last_hash_rate },
    }
}

/// What a device does after a launch.
pub struct BatchDecision {
    /// The nonce to put in the header and submit; the device then fetches a
    /// new template.
    pub submit_nonce: Option<u64>,
    /// The status line to print, if one is due.
    pub report: Option<String>,
}

/// Records a launch in the search state and decides what follows: a found
/// nonce is submitted, and a status line is printed once more than a second
/// has passed on the template and more than two since the last line.
pub fn record_batch(
    state: &mut SearchState,
    outcome: &BatchOutcome,
    elapsed_secs: u64,
    since_report_nanos: u128,
    grid_size: u32,
    target_difficulty: u64,
) -> (d: BatchDecision)
    requires old(state).nonce_start + outcome.hashes <= u64::MAX,
    ensures
        *final(state) == after_batch(*old(state), *outcome, elapsed_secs),
        final(state).nonce_start == old(state).nonce_start + outcome.hashes,
        final(state).max_diff >= old(state).max_diff,
        final(state).max_diff >= outcome.diff,
        final(state).max_diff == old(state).max_diff || final(state).max_diff == outcome.diff,
        elapsed_secs > 1 ==> final(state).last_hash_rate == final(state).nonce_start / elapsed_secs,
        elapsed_secs <= 1 ==> final(state).last_hash_rate == old(state).last_hash_rate,
        d.submit_nonce == outcome.nonce,
        d.report is Some <==> (elapsed_secs > 1 && since_report_nanos > REPORT_INTERVAL_NANOS),
        d.report matches Some(line) ==> line@ == spec_status_line(
            final(state).nonce_start,
            grid_size,
            final(state).max_diff,
            target_difficulty,
            elapsed_secs,
        ),
{
    if outcome.diff > state.max_diff {
        state.max_diff = outcome.diff;
    }
    state.nonce_start = state.nonce_start + outcome.hashes as u64;
    let mut report: Option<String> = None;
    if elapsed_secs > 1 {
        if since_report_nanos > REPORT_INTERVAL_NANOS {
            report = Some(status_line(state.nonce_start, grid_size, state.max_diff, target_difficulty, elapsed_secs));
        }
        state.last_hash_rate = state.nonce_start / elapsed_secs;
    }
    BatchDecision { submit_nonce: outcome.nonce, report }
}

/// The search state after a run of launches, each with the seconds elapsed
/// when it ended.
pub open spec fn after_batches(s: SearchState, batches: Seq<(BatchOutcome, u64)>) -> SearchState
    decreases batches.len(),
{
    if batches.len() == 0 {
        s
    } else {
        let last = batches.last();
        after_batch(after_batches(s, batches.drop_last()), last.0, last.1)
    }
}

/// The nonces that a run of launches tried.
pub open spec fn total_hashes(batches: Seq<(BatchOutcome, u64)>) -> int
    decreases batches.len(),
{
    if batches.len() == 0 { 0 } else { total_hashes(batches.drop_last()) + batches.last().0.hashes }
}

/// Over a run of launches the next nonce advances by exactly the nonces
/// tried, and the best difficulty is the largest of the one it started with
/// and those reported.
pub proof fn lemma_search_progress(s: SearchState, batches: Seq<(BatchOutcome, u64)>)
    requires s.nonce_start + total_hashes(batches) <= u64::MAX,
    ensures
        after_batches(s, batches).nonce_start == s.nonce_start + total_hashes(batches),
        after_batches(s, batches).max_diff >= s.max_diff,
        forall|i: int| 0 <= i < batches.len() ==> after_batches(s, batches).max_diff >= #[trigger] batches[i].0.diff,
        after_batches(s, batches).max_diff == s.max_diff
            || exists|i: int| 0 <= i < batches.len() && after_batches(s, batches).max_diff == #[trigger] batches[i].0.diff,
    decreases batches.len(),
{
    if batches.len() > 0 {
        let prefix = batches.drop_last();
        assert(total_hashes(prefix) <= total_hashes(batches));
        lemma_search_progress(s, prefix);
        let before = after_batches(s, prefix);
        let after = after_batches(s, batches);
        assert forall|i: int| 0 <= i < batches.len() implies after.max_diff >= #[trigger] batches[i].0.diff by {
            if i < batches.len() - 1 {
                assert(batches[i] == prefix[i]);
            }
        }
        if after.max_diff != s.max_diff {
            if after.max_diff == batches.last().0.diff {
                assert(batches[batches.len() - 1] == batches.last());
            } else {
                let i = choose|i: int| 0 <= i < prefix.len() && before.max_diff == #[trigger] prefix[i].0.diff;
                assert(batches[i] == prefix[i]);
            }
        }
    }
}

} // verus!
