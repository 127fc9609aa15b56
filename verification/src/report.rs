use vstd::prelude::*;
use num_format::{Locale, ToFormattedString};

verus! {

/// The character of a decimal digit.
pub open spec fn digit_char(d: nat) -> char {
    (48 + d) as char
}

/// The decimal digits of `n`, most significant first, without leading zeros.
pub open spec fn decimal_digits(n: nat) -> Seq<char>
    decreases n,
{
    if n < 10 { seq![digit_char(n)] } else { decimal_digits(n / 10).push(digit_char(n % 10)) }
}

/// The three decimal digits of `n < 1000`, with leading zeros.
pub open spec fn three_digits(n: nat) -> Seq<char> {
    seq![digit_char(n / 100), digit_char((n / 10) % 10), digit_char(n % 10)]
}

/// The decimal digits of `n` with a ',' before each group of three digits
/// counted from the right, as in English: `1234567` is `"1,234,567"`.
pub open spec fn grouped_decimal(n: nat) -> Seq<char>
    decreases n,
{
    if n < 1000 {
        decimal_digits(n)
    } else {
        grouped_decimal(n / 1000) + seq![','] + three_digits(n % 1000)
    }
}

/// The number that a run of decimal digits denotes, with ',' separators
/// skipped.
pub open spec fn digits_value(s: Seq<char>) -> int
    decreases s.len(),
{
    if s.len() == 0 {
        0
    } else if s.last() == ',' {
        digits_value(s.drop_last())
    } else {
        digits_value(s.drop_last()) * 10 + (s.last() as int - 48)
    }
}

/// A non-empty run of decimal digits and ',' separators.
pub open spec fn is_number_text(s: Seq<char>) -> bool {
    &&& s.len() > 0
    &&& forall|i: int| 0 <= i < s.len() ==> #[trigger] s[i] == ',' || (48 <= s[i] as int && s[i] as int <= 57)
}

proof fn lemma_digit_char(d: nat)
    requires d < 10,
    ensures
        digit_char(d) as int == 48 + d,
        digit_char(d) != ',',
{
}

/// The decimal digits of `n` denote `n`.
pub proof fn lemma_decimal_digits_value(n: nat)
    ensures
        digits_value(decimal_digits(n)) == n,
        is_number_text(decimal_digits(n)),
    decreases n,
{
    if n < 10 {
        lemma_digit_char(n);
        let s = decimal_digits(n);
        assert(s.drop_last() =~= Seq::<char>::empty());
        assert(s.last() == digit_char(n));
        assert(digits_value(s) == digits_value(s.drop_last()) * 10 + (s.last() as int - 48));
    } else {
        lemma_decimal_digits_value(n / 10);
        lemma_digit_char(n % 10);
        let s = decimal_digits(n);
        assert(s.drop_last() =~= decimal_digits(n / 10));
        assert(s.last() == digit_char(n % 10));
        assert(digits_value(s) == digits_value(s.drop_last()) * 10 + (s.last() as int - 48));
        assert forall|i: int| 0 <= i < s.len() implies #[trigger] s[i] == ',' || (48 <= s[i] as int && s[i] as int <= 57) by {
            if i < s.len() - 1 {
                assert(s[i] == decimal_digits(n / 10)[i]);
            }
        }
    }
}

/// Grouped decimal digits of `n`, read with the separators skipped, denote `n`:
/// the ',' only groups digits and drops none.
pub proof fn lemma_grouped_decimal_value(n: nat)
    ensures
        digits_value(grouped_decimal(n)) == n,
        is_number_text(grouped_decimal(n)),
    decreases n,
{
    if n < 1000 {
        lemma_decimal_digits_value(n);
    } else {
        let r = n % 1000;
        let g = grouped_decimal(n / 1000);
        lemma_grouped_decimal_value(n / 1000);
        let a = r / 100;
        let b = (r / 10) % 10;
        let c = r % 10;
        lemma_digit_char(a);
        lemma_digit_char(b);
        lemma_digit_char(c);
        let s = grouped_decimal(n);
        assert(s == g + seq![','] + seq![digit_char(a), digit_char(b), digit_char(c)]);
        let s2 = s.drop_last();
        let s1 = s2.drop_last();
        let s0 = s1.drop_last();
        assert(s2 =~= g + seq![','] + seq![digit_char(a), digit_char(b)]);
        assert(s1 =~= g + seq![','] + seq![digit_char(a)]);
        assert(s0 =~= g.push(','));
        assert(s0.drop_last() =~= g);
        assert(s.last() == digit_char(c));
        assert(s2.last() == digit_char(b));
        assert(s1.last() == digit_char(a));
        assert(s0.last() == ',');
        assert(digits_value(s0) == digits_value(g));
        assert(digits_value(s1) == digits_value(s0) * 10 + a);
        assert(digits_value(s2) == digits_value(s1) * 10 + b);
        assert(digits_value(s) == digits_value(s2) * 10 + c);
        assert(100 * a + 10 * b + c == r);
        assert(n == 1000 * (n / 1000) + r);
        assert forall|i: int| 0 <= i < s.len() implies #[trigger] s[i] == ',' || (48 <= s[i] as int && s[i] as int <= 57) by {
            if i < g.len() {
                assert(s[i] == g[i]);
            }
        }
    }
}

/// `ToFormattedString::to_formatted_string` (num_format) on a `u64` with
/// `Locale::en`, whose separator is "," and whose grouping is by three digits.
/// Claimed: the result is `grouped_decimal` of the number.
#[verifier::external_body]
fn format_grouped(n: u64) -> (s: String)
    ensures s@ == grouped_decimal(n as nat),
{
    n.to_formatted_string(&Locale::en)
}

/// `ToString::to_string` of a `u32`, which writes it through `Display`.
/// Claimed: the result is the decimal digits of the number.
#[verifier::external_body]
fn format_decimal(n: u32) -> (s: String)
    ensures s@ == decimal_digits(n as nat),
{
    n.to_string()
}

/// The status line that a device prints while it searches a template.
pub open spec fn spec_status_line(
    nonce_start: u64,
    grid_size: u32,
    max_diff: u64,
    target_difficulty: u64,
    elapsed_secs: u64,
) -> Seq<char> {
    "total "@ + grouped_decimal(nonce_start as nat) + " grid: "@ + decimal_digits(grid_size as nat)
        + " max_diff: "@ + grouped_decimal(max_diff as nat) + ", target: "@
        + grouped_decimal(target_difficulty as nat) + " hashes/sec: "@
        + grouped_decimal((nonce_start / elapsed_secs) as nat)
}

/// What the status line says: after "total " the nonce reached, after
/// " grid: " the grid size, after " max_diff: " the best difficulty, after
/// ", target: " the target difficulty and after " hashes/sec: " the whole
/// quotient of the 64-bit nonce by the elapsed seconds, each written as a
/// number.
pub open spec fn line_reports(
    line: Seq<char>,
    total: Seq<char>,
    grid: Seq<char>,
    best: Seq<char>,
    target: Seq<char>,
    rate: Seq<char>,
    nonce_start: u64,
    grid_size: u32,
    max_diff: u64,
    target_difficulty: u64,
    elapsed_secs: u64,
) -> bool {
    &&& line == "total "@ + total + " grid: "@ + grid + " max_diff: "@ + best + ", target: "@ + target
        + " hashes/sec: "@ + rate
    &&& is_number_text(total) && digits_value(total) == nonce_start as int
    &&& is_number_text(grid) && digits_value(grid) == grid_size as int
    &&& is_number_text(best) && digits_value(best) == max_diff as int
    &&& is_number_text(target) && digits_value(target) == target_difficulty as int
    &&& is_number_text(rate) && digits_value(rate) == nonce_start as int / elapsed_secs as int
}

/// The status line reports each of its five numbers in full.
pub proof fn lemma_status_line_fields(
    nonce_start: u64,
    grid_size: u32,
    max_diff: u64,
    target_difficulty: u64,
    elapsed_secs: u64,
)
    requires elapsed_secs > 0,
    ensures
        exists|total: Seq<char>, grid: Seq<char>, best: Seq<char>, target: Seq<char>, rate: Seq<char>|
            #[trigger] line_reports(
                spec_status_line(nonce_start, grid_size, max_diff, target_difficulty, elapsed_secs),
                total, grid, best, target, rate,
                nonce_start, grid_size, max_diff, target_difficulty, elapsed_secs,
            ),
{
    let total = grouped_decimal(nonce_start as nat);
    let grid = decimal_digits(grid_size as nat);
    let best = grouped_decimal(max_diff as nat);
    let target = grouped_decimal(target_difficulty as nat);
    let rate = grouped_decimal((nonce_start / elapsed_secs) as nat);
    lemma_grouped_decimal_value(nonce_start as nat);
    lemma_decimal_digits_value(grid_size as nat);
    lemma_grouped_decimal_value(max_diff as nat);
    lemma_grouped_decimal_value(target_difficulty as nat);
    lemma_grouped_decimal_value((nonce_start / elapsed_secs) as nat);
    assert(line_reports(
        spec_status_line(nonce_start, grid_size, max_diff, target_difficulty, elapsed_secs),
        total, grid, best, target, rate,
        nonce_start, grid_size, max_diff, target_difficulty, elapsed_secs,
    ));
}

/// Builds the status line: the nonce reached, the grid size, the best
/// difficulty seen, the target difficulty and the nonce reached per elapsed
/// second.
pub fn status_line(
    nonce_start: u64,
    grid_size: u32,
    max_diff: u64,
    target_difficulty: u64,
    elapsed_secs: u64,
) -> (line: String)
    requires elapsed_secs > 0,
    ensures
        line@ == spec_status_line(nonce_start, grid_size, max_diff, target_difficulty, elapsed_secs),
        exists|total: Seq<char>, grid: Seq<char>, best: Seq<char>, target: Seq<char>, rate: Seq<char>|
            #[trigger] line_reports(
                line@, total, grid, best, target, rate,
                nonce_start, grid_size, max_diff, target_difficulty, elapsed_secs,
            ),
{
    let mut line = String::from_str("total ");
    line.append(format_grouped(nonce_start).as_str());
    line.append(" grid: ");
    line.append(format_decimal(grid_size).as_str());
    line.append(" max_diff: ");
    line.append(format_grouped(max_diff).as_str());
    line.append(", target: ");
    line.append(format_grouped(target_difficulty).as_str());
    line.append(" hashes/sec: ");
    line.append(format_grouped(nonce_start / elapsed_secs).as_str());
    proof { lemma_status_line_fields(nonce_start, grid_size, max_diff, target_difficulty, elapsed_secs); }
    line
}

} // verus!
