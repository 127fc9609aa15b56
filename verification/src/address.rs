use vstd::prelude::*;
use tari_common_types::tari_address::{TariAddress, TariAddressError};
use crate::schedule::{pays_dev_fee, round_after, lemma_round_cycle, lemma_dev_fee_share, DEV_FEE_PERIOD};

verus! {

#[verifier::external_type_specification]
#[verifier::external_body]
pub struct ExTariAddress(tari_common_types::tari_address::TariAddress);

#[verifier::external_type_specification]
#[verifier::external_body]
pub struct ExTariAddressError(tari_common_types::tari_address::TariAddressError);

/// Errors of the miner's own logic.
pub enum MinerError {
    /// The payout address of a template is not a valid Tari address in hex.
    InvalidAddress(TariAddressError),
}

/// What `TariAddress::from_hex` returns for a string: it decodes the hex and
/// builds the address from the bytes, checking their size, checksum, network,
/// features and public key, which depends on the string alone.
pub uninterp spec fn tari_address_parsed(hex: Seq<char>) -> Result<TariAddress, TariAddressError>;

/// `TariAddress::from_hex` (tari_common_types). Claimed: its result, address or
/// error, is `tari_address_parsed` of the string.
#[verifier::external_body]
fn tari_address_from_hex(hex: &str) -> (r: Result<TariAddress, TariAddressError>)
    ensures r == tari_address_parsed(hex@),
{
    TariAddress::from_hex(hex)
}

/// The address that receives the development fee, in hex.
pub fn dev_fee_address_hex() -> (hex: &'static str)
    ensures hex@ == spec_dev_fee_address_hex(),
{
    "8c98d40f216589d8b385015222b95fb5327fee334352c7c30370101b0c6d124fd6"
}

/// The development fee address, in hex.
pub open spec fn spec_dev_fee_address_hex() -> Seq<char> {
    "8c98d40f216589d8b385015222b95fb5327fee334352c7c30370101b0c6d124fd6"@
}

/// The hex address that the coinbase of a round pays: the development fee
/// address on the rounds that pay the fee, the configured address otherwise.
pub open spec fn spec_payout_address_hex(round: u32, configured: Seq<char>) -> Seq<char> {
    if round % DEV_FEE_PERIOD == 0 { spec_dev_fee_address_hex() } else { configured }
}

/// Picks the hex address that the coinbase of a round pays.
pub fn payout_address_hex<'a>(round: u32, configured: &'a str) -> (hex: &'a str)
    ensures
        hex@ == spec_payout_address_hex(round, configured@),
        round % 99 != 0 ==> hex@ == configured@,
        round % 99 == 0 ==> hex@ == "8c98d40f216589d8b385015222b95fb5327fee334352c7c30370101b0c6d124fd6"@,
{
    if pays_dev_fee(round) { dev_fee_address_hex() } else { configured }
}

/// The coinbase of a round pays the configured address unless the round
/// number is a multiple of 99, and then pays the development fee address.
pub proof fn lemma_payout_follows_fee_schedule(round: u32, configured: Seq<char>)
    ensures
        round % 99 != 0 ==> spec_payout_address_hex(round, configured) == configured,
        round % 99 == 0 ==> spec_payout_address_hex(round, configured)
            == "8c98d40f216589d8b385015222b95fb5327fee334352c7c30370101b0c6d124fd6"@,
{
}

/// Of every 102 templates in a row, the configured address is paid by all but
/// two: template `k` pays it exactly when `k mod 102` is neither `0` nor `99`.
pub proof fn lemma_payout_share(k: nat, configured: Seq<char>)
    requires configured != spec_dev_fee_address_hex(),
    ensures
        (spec_payout_address_hex(round_after(k) as u32, configured) == configured)
            <==> !(k % 102 == 0 || k % 102 == 99),
{
    lemma_round_cycle(k);
    lemma_dev_fee_share(k);
}

/// The miner's own result for the outcome of parsing an address.
pub open spec fn spec_address_or_error(parsed: Result<TariAddress, TariAddressError>) -> Result<TariAddress, MinerError> {
    match parsed {
        Ok(a) => Ok(a),
        Err(e) => Err(MinerError::InvalidAddress(e)),
    }
}

/// Turns the outcome of parsing an address into the miner's own result: the
/// address itself, or the parse error as `InvalidAddress`.
pub fn address_or_error(parsed: Result<TariAddress, TariAddressError>) -> (r: Result<TariAddress, MinerError>)
    ensures
        r == spec_address_or_error(parsed),
        parsed matches Ok(a) ==> r == Ok::<TariAddress, MinerError>(a),
        parsed matches Err(e) ==> r == Err::<TariAddress, MinerError>(MinerError::InvalidAddress(e)),
{
    match parsed {
        Ok(address) => Ok(address),
        Err(e) => Err(MinerError::InvalidAddress(e)),
    }
}

/// Parses the address that the coinbase of a round pays: the address parsed
/// from the chosen hex, or that parse's error as `InvalidAddress`.
pub fn payout_address(round: u32, configured_hex: &str) -> (r: Result<TariAddress, MinerError>)
    ensures
        r == spec_address_or_error(tari_address_parsed(spec_payout_address_hex(round, configured_hex@))),
        r is Ok <==> tari_address_parsed(spec_payout_address_hex(round, configured_hex@)) is Ok,
{
    let hex = payout_address_hex(round, configured_hex);
    address_or_error(tari_address_from_hex(hex))
}

} // verus!
