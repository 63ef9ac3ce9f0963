use vstd::prelude::*;
use num_format::ToFormattedString;

use crate::layout::LayoutError;

verus! {

/// The decimal digit `d`, for `d < 10`.
pub open spec fn digit_char(d: nat) -> char {
    seq!['0', '1', '2', '3', '4', '5', '6', '7', '8', '9'][d as int]
}

/// `n` in decimal, without leading zeros.
pub open spec fn decimal(n: nat) -> Seq<char>
    decreases n,
{
    if n < 10 {
        seq![digit_char(n)]
    } else {
        decimal(n / 10) + seq![digit_char(n % 10)]
    }
}

/// `n < 1000` as exactly three digits.
pub open spec fn three_digits(n: nat) -> Seq<char> {
    seq![digit_char(n / 100), digit_char((n / 10) % 10), digit_char(n % 10)]
}

/// `n` in decimal with a comma between each group of three digits, counted
/// from the right.
pub open spec fn grouped_decimal(n: nat) -> Seq<char>
    decreases n,
{
    if n < 1000 {
        decimal(n)
    } else {
        grouped_decimal(n / 1000) + seq![','] + three_digits(n % 1000)
    }
}

/// Relies on num_format's `ToFormattedString::to_formatted_string` with
/// `Locale::en`, whose separator is "," and whose grouping is by threes.
#[verifier::external_body]
fn format_grouped(n: u64) -> (r: String)
    ensures
        r@ == grouped_decimal(n as nat),
{
    n.to_formatted_string(&num_format::Locale::en)
}

/// Bytes taken by `records` records stored `value` to a page of `page_size`
/// bytes, as the exact fraction `total_space_numer / total_space_denom`.
pub open spec fn total_space_numer(page_size: nat, records: nat) -> nat {
    records * page_size
}

pub open spec fn total_space_denom(value: nat) -> nat {
    value
}

/// The share `1 - page_size / optimum_page_size` of the total space, as the
/// exact fraction `wasted_space_numer / wasted_space_denom`; zero when the page
/// is at least as large as the optimum.
pub open spec fn wasted_space_numer(page_size: nat, optimum_page_size: nat, records: nat) -> nat {
    if page_size >= optimum_page_size {
        0
    } else {
        ((optimum_page_size - page_size) * records * page_size) as nat
    }
}

pub open spec fn wasted_space_denom(optimum_page_size: nat, value: nat) -> nat {
    optimum_page_size * value
}

/// The sizes are the divisors or the scale of the estimate, so each must be
/// positive.
pub open spec fn efficiency_params_valid(page_size: nat, optimum_page_size: nat, value: nat) -> bool {
    page_size > 0 && optimum_page_size > 0 && value > 0
}

/// Projected storage for a workload, in bytes, each amount as an exact
/// fraction with a positive denominator.
pub struct Efficiency {
    pub page_size: u32,
    pub optimum_page_size: u32,
    /// The record count with its digits grouped by commas.
    pub records_label: String,
    pub total_space_numer: u128,
    pub total_space_denom: u128,
    pub wasted_space_numer: u128,
    pub wasted_space_denom: u128,
}

/// Estimates the space that `records` records take in pages of `page_size`
/// bytes, `value` records to a page, and how much of it a page of
/// `optimum_page_size` bytes would have saved. The fill ratio is
/// `page_size / optimum_page_size`.
pub fn calculate_efficiency(page_size: u32, optimum_page_size: u32, value: u32, records: u64) -> (r: Result<Efficiency, LayoutError>)
    ensures
        !efficiency_params_valid(page_size as nat, optimum_page_size as nat, value as nat)
            <==> r is Err,
        r is Err ==> r == Err::<Efficiency, LayoutError>(LayoutError::InvalidParameters),
        r matches Ok(e) ==> {
            &&& e.page_size == page_size
            &&& e.optimum_page_size == optimum_page_size
            &&& e.records_label@ == grouped_decimal(records as nat)
            &&& e.total_space_numer == total_space_numer(page_size as nat, records as nat)
            &&& e.total_space_denom == total_space_denom(value as nat)
            &&& e.wasted_space_numer == wasted_space_numer(page_size as nat, optimum_page_size as nat, records as nat)
            &&& e.wasted_space_denom == wasted_space_denom(optimum_page_size as nat, value as nat)
            &&& e.total_space_denom > 0 && e.wasted_space_denom > 0
            &&& e.wasted_space_numer > 0 <==> (page_size < optimum_page_size && records > 0)
            &&& page_size == optimum_page_size ==> e.wasted_space_numer == 0
        },
{
    if page_size == 0 || optimum_page_size == 0 || value == 0 {
        return Err(LayoutError::InvalidParameters);
    }
    let (p, q, v, n) = (page_size as u128, optimum_page_size as u128, value as u128, records as u128);
    assert(0 <= n * p < 0x1_0000_0000_0000_0000_0000_0000) by (nonlinear_arith)
        requires 0 <= n < 0x1_0000_0000_0000_0000, 0 <= p < 0x1_0000_0000;
    assert(0 < q * v < 0x1_0000_0000_0000_0000) by (nonlinear_arith)
        requires 0 < q < 0x1_0000_0000, 0 < v < 0x1_0000_0000;
    let wasted = if p >= q {
        0
    } else {
        assert(0 <= (q - p) * n < 0x1_0000_0000_0000_0000_0000_0000) by (nonlinear_arith)
            requires 0 <= n < 0x1_0000_0000_0000_0000, 0 <= q - p < 0x1_0000_0000;
        assert(0 <= (q - p) * n * p < 0x1_0000_0000_0000_0000_0000_0000_0000_0000) by (nonlinear_arith)
            requires 0 <= n < 0x1_0000_0000_0000_0000, 0 <= p < 0x1_0000_0000, 0 <= q - p < 0x1_0000_0000;
        assert(n > 0 ==> (q - p) * n * p > 0) by (nonlinear_arith)
            requires q - p > 0, p > 0, n >= 0;
        assert(n == 0 ==> (q - p) * n * p == 0) by (nonlinear_arith);
        (q - p) * n * p
    };
    Ok(Efficiency {
        page_size,
        optimum_page_size,
        records_label: format_grouped(records),
        total_space_numer: n * p,
        total_space_denom: v,
        wasted_space_numer: wasted,
        wasted_space_denom: q * v,
    })
}

} // verus!
