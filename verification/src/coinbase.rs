use vstd::prelude::*;

verus! {

/// The script that locks a coinbase output.
#[derive(Clone, Copy, Debug, PartialEq, Eq, Structural)]
pub enum PaymentScript {
    /// A stealth payment script, under a one-time key derived from a fresh nonce.
    Stealth,
    /// A one-sided payment script, under the address's own spend key.
    OneSided,
}

/// The script a coinbase output is locked with.
pub fn payment_script(stealth_payment: bool) -> (s: PaymentScript)
    ensures s == (if stealth_payment { PaymentScript::Stealth } else { PaymentScript::OneSided }),
{
    if stealth_payment { PaymentScript::Stealth } else { PaymentScript::OneSided }
}

/// A part that a built coinbase transaction must hold.
#[derive(Clone, Copy, Debug, PartialEq, Eq, Structural)]
pub enum CoinbasePart {
    Output,
    Kernel,
}

/// The first part that a built coinbase transaction lacks, if any: the
/// output is looked for before the kernel.
pub fn missing_coinbase_part(num_outputs: usize, num_kernels: usize) -> (m: Option<CoinbasePart>)
    ensures
        m == (if num_outputs == 0 {
            Some(CoinbasePart::Output)
        } else if num_kernels == 0 {
            Some(CoinbasePart::Kernel)
        } else {
            None::<CoinbasePart>
        }),
{
    if num_outputs == 0 {
        Some(CoinbasePart::Output)
    } else if num_kernels == 0 {
        Some(CoinbasePart::Kernel)
    } else {
        None
    }
}

/// The message of the build error for a missing part.
pub open spec fn spec_missing_part_message(part: CoinbasePart) -> Seq<char> {
    match part {
        CoinbasePart::Output => "No output found"@,
        CoinbasePart::Kernel => "No kernel found"@,
    }
}

/// The message of the build error for a missing part.
pub fn missing_part_message(part: CoinbasePart) -> (msg: &'static str)
    ensures msg@ == spec_missing_part_message(part),
{
    match part {
        CoinbasePart::Output => "No output found",
        CoinbasePart::Kernel => "No kernel found",
    }
}

} // verus!
