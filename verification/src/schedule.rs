use vstd::prelude::*;

verus! {

/// The highest value of the round counter; one more round wraps it to zero.
pub const LAST_ROUND: u32 = 101;

/// Every round whose number is a multiple of this pays the development fee.
pub const DEV_FEE_PERIOD: u32 = 99;

/// The round counter after one more template.
pub open spec fn round_step(rounds: int) -> int {
    if rounds + 1 > LAST_ROUND { 0 } else { rounds + 1 }
}

/// The round counter after `k` templates, starting from zero.
pub open spec fn round_after(k: nat) -> int
    decreases k,
{
    if k == 0 { 0 } else { round_step(round_after((k - 1) as nat)) }
}

/// Advances the round counter for the next block template.
pub fn next_round(rounds: u32) -> (next: u32)
    requires rounds < u32::MAX,
    ensures next == round_step(rounds as int),
{
    let next = rounds + 1;
    if next > LAST_ROUND { 0 } else { next }
}

/// Whether the template of a round pays the development fee address.
pub fn pays_dev_fee(round: u32) -> (dev: bool)
    ensures dev == (round % DEV_FEE_PERIOD == 0),
{
    round % DEV_FEE_PERIOD == 0
}

/// The round counter runs through `0 ..= 101` and repeats: after `k` templates
/// it is `k mod 102`.
pub proof fn lemma_round_cycle(k: nat)
    ensures
        round_after(k) == k % 102,
        0 <= round_after(k) <= LAST_ROUND,
    decreases k,
{
    if k > 0 {
        lemma_round_cycle((k - 1) as nat);
    }
}

/// Of every 102 templates in a row, exactly two pay the development fee:
/// template `k` does exactly when `k mod 102` is `0` or `99`.
pub proof fn lemma_dev_fee_share(k: nat)
    ensures (round_after(k) % DEV_FEE_PERIOD as int == 0) <==> (k % 102 == 0 || k % 102 == 99),
{
    lemma_round_cycle(k);
    let r = round_after(k);
    assert(r % 99 == 0 <==> (r == 0 || r == 99)) by {
        if r >= 99 { assert(r - 99 < 99); }
    }
}

} // verus!
