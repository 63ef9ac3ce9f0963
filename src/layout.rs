use vstd::prelude::*;

verus! {

/// Why a page layout could not be sized.
#[derive(Debug, Clone, Copy, PartialEq, Eq, Structural)]
pub enum LayoutError {
    /// The key and pointer sizes add up to zero, or the header leaves no room
    /// in the page.
    InvalidParameters,
    /// The maximal order does not fit in a `u32`.
    OrderTooLarge,
}

/// Bytes taken by keys and pointers in a page of order `d`: one key fewer than
/// pointers of each kind.
pub open spec fn used_space(key_size: int, file_offset_size: int, page_offset_size: int, d: int) -> int {
    key_size * (d - 1) + file_offset_size * d + page_offset_size * d
}

/// Page size needed for order `d`: the entries plus the header.
pub open spec fn page_size_for(d: int, header_size: int, key_size: int, file_offset_size: int, page_offset_size: int) -> int {
    used_space(key_size, file_offset_size, page_offset_size, d) + header_size
}

/// Order `d` fits in the space that the header leaves.
pub open spec fn fits(page_size: int, header_size: int, key_size: int, file_offset_size: int, page_offset_size: int, d: int) -> bool {
    used_space(key_size, file_offset_size, page_offset_size, d) <= page_size - header_size
}

/// The parameters for which the maximal order is defined.
pub open spec fn valid_params(page_size: int, header_size: int, key_size: int, file_offset_size: int, page_offset_size: int) -> bool {
    &&& key_size >= 0 && file_offset_size >= 0 && page_offset_size >= 0
    &&& key_size + file_offset_size + page_offset_size > 0
    &&& 0 <= header_size < page_size
}

/// The largest order that fits.
pub open spec fn max_order(page_size: int, header_size: int, key_size: int, file_offset_size: int, page_offset_size: int) -> int {
    (page_size - header_size + key_size) / (key_size + file_offset_size + page_offset_size)
}

/// Order `d` fits exactly when it is at most `max_order`.
pub proof fn lemma_fits_iff(p: int, h: int, k: int, f: int, o: int, d: int)
    requires
        valid_params(p, h, k, f, o),
        d >= 0,
    ensures
        fits(p, h, k, f, o, d) <==> d <= max_order(p, h, k, f, o),
{
    let s = k + f + o;
    let n = p - h + k;
    let q = n / s;
    let r = n % s;
    vstd::arithmetic::div_mod::lemma_fundamental_div_mod(n, s);
    assert(used_space(k, f, o, d) == s * d - k) by (nonlinear_arith)
        requires s == k + f + o;
    if d <= q {
        assert(s * d <= s * q) by (nonlinear_arith)
            requires d <= q, s > 0;
    } else {
        assert(s * d >= s * q + s) by (nonlinear_arith)
            requires d >= q + 1, s > 0;
    }
}

/// The order returned by the search is the largest that fits: it fits, the
/// next one does not, and no order that fits is larger.
pub proof fn lemma_max_order_is_maximal(p: int, h: int, k: int, f: int, o: int)
    requires
        valid_params(p, h, k, f, o),
    ensures
        max_order(p, h, k, f, o) >= 0,
        fits(p, h, k, f, o, max_order(p, h, k, f, o)),
        !fits(p, h, k, f, o, max_order(p, h, k, f, o) + 1),
        forall|d: int| d >= 0 && #[trigger] fits(p, h, k, f, o, d) ==> d <= max_order(p, h, k, f, o),
{
    let m = max_order(p, h, k, f, o);
    vstd::arithmetic::div_mod::lemma_div_pos_is_pos(p - h + k, k + f + o);
    lemma_fits_iff(p, h, k, f, o, m);
    lemma_fits_iff(p, h, k, f, o, m + 1);
    assert forall|d: int| d >= 0 && #[trigger] fits(p, h, k, f, o, d) implies d <= m by {
        lemma_fits_iff(p, h, k, f, o, d);
    }
}

/// Sizing a page for the maximal order never asks for more than the page
/// that order was computed from.
pub proof fn lemma_page_size_round_trip(p: int, h: int, k: int, f: int, o: int)
    requires
        valid_params(p, h, k, f, o),
    ensures
        page_size_for(max_order(p, h, k, f, o), h, k, f, o) <= p,
{
    lemma_max_order_is_maximal(p, h, k, f, o);
}

/// The maximal order does not shrink when the page grows, and does not grow
/// when the header, the key or either pointer grows.
pub proof fn lemma_max_order_monotonic(
    pa: int, ha: int, ka: int, fa: int, oa: int,
    pb: int, hb: int, kb: int, fb: int, ob: int,
)
    requires
        valid_params(pa, ha, ka, fa, oa),
        valid_params(pb, hb, kb, fb, ob),
        pa <= pb,
        ha >= hb,
        ka >= kb,
        fa >= fb,
        oa >= ob,
    ensures
        max_order(pa, ha, ka, fa, oa) <= max_order(pb, hb, kb, fb, ob),
{
    let ma = max_order(pa, ha, ka, fa, oa);
    lemma_max_order_is_maximal(pa, ha, ka, fa, oa);
    lemma_max_order_is_maximal(pb, hb, kb, fb, ob);
    if ma >= 1 {
        assert(used_space(kb, fb, ob, ma) <= used_space(ka, fa, oa, ma)) by (nonlinear_arith)
            requires ma >= 1, ka >= kb, fa >= fb, oa >= ob, fb >= 0, ob >= 0;
    }
    assert(used_space(kb, fb, ob, 0) == -kb) by (nonlinear_arith);
    assert(fits(pb, hb, kb, fb, ob, ma));
}

/// The page size that holds `max_order` entries.
///
/// The order is at least one, and the result must fit in a `u32`.
pub fn calculate_page_size(
    max_order: u32,
    header_size: u32,
    key_size: u32,
    file_offset_size: u32,
    page_offset_size: u32,
) -> (r: u32)
    requires
        max_order >= 1,
        page_size_for(max_order as int, header_size as int, key_size as int, file_offset_size as int, page_offset_size as int) <= u32::MAX,
    ensures
        r == page_size_for(max_order as int, header_size as int, key_size as int, file_offset_size as int, page_offset_size as int),
{
    let d = max_order as u64;
    let (k, f, o, h) = (key_size as u64, file_offset_size as u64, page_offset_size as u64, header_size as u64);
    assert(k * (d - 1) <= u32::MAX as int * u32::MAX as int) by (nonlinear_arith)
        requires k <= u32::MAX, 0 <= d - 1 <= u32::MAX;
    assert(f * d <= u32::MAX as int * u32::MAX as int) by (nonlinear_arith)
        requires f <= u32::MAX, d <= u32::MAX;
    assert(o * d <= u32::MAX as int * u32::MAX as int) by (nonlinear_arith)
        requires o <= u32::MAX, d <= u32::MAX;
    assert(k * (d - 1) >= 0 && f * d >= 0 && o * d >= 0) by (nonlinear_arith)
        requires k >= 0, d >= 1, f >= 0, o >= 0;
    let page_size = k * (d - 1) + f * d + o * d + h;
    page_size as u32
}

/// Whether order `d` fits; exact for every `d`, computed without overflow.
fn order_fits(usable: u64, key_size: u32, file_offset_size: u32, page_offset_size: u32, d: u64) -> (r: bool)
    ensures
        r == (used_space(key_size as int, file_offset_size as int, page_offset_size as int, d as int) <= usable),
{
    let (k, f, o) = (key_size as u128, file_offset_size as u128, page_offset_size as u128);
    let n = d as u128;
    if n == 0 {
        assert(used_space(k as int, f as int, o as int, 0) == -k) by (nonlinear_arith);
        return true;
    }
    assert(0 <= k * (n - 1) <= 0x1_0000_0000_0000_0000_0000_0000) by (nonlinear_arith)
        requires k < 0x1_0000_0000, 0 <= n - 1 < 0x1_0000_0000_0000_0000;
    assert(0 <= f * n <= 0x1_0000_0000_0000_0000_0000_0000) by (nonlinear_arith)
        requires f < 0x1_0000_0000, 0 <= n < 0x1_0000_0000_0000_0000;
    assert(0 <= o * n <= 0x1_0000_0000_0000_0000_0000_0000) by (nonlinear_arith)
        requires o < 0x1_0000_0000, 0 <= n < 0x1_0000_0000_0000_0000;
    let used = k * (n - 1) + f * n + o * n;
    used <= usable as u128
}

/// The largest order whose keys and pointers fit in a page after its header.
///
/// The search starts from a cheap estimate below the answer, steps down while
/// the estimate does not fit, then steps up while the next order fits.
pub fn calculate_max_order(
    page_size: u32,
    header_size: u32,
    key_size: u32,
    file_offset_size: u32,
    page_offset_size: u32,
) -> (r: Result<u32, LayoutError>)
    ensures
        !valid_params(page_size as int, header_size as int, key_size as int, file_offset_size as int, page_offset_size as int)
            <==> r == Err::<u32, LayoutError>(LayoutError::InvalidParameters),
        valid_params(page_size as int, header_size as int, key_size as int, file_offset_size as int, page_offset_size as int) ==> {
            let m = max_order(page_size as int, header_size as int, key_size as int, file_offset_size as int, page_offset_size as int);
            &&& m <= u32::MAX ==> r == Ok::<u32, LayoutError>(m as u32)
            &&& m > u32::MAX ==> r == Err::<u32, LayoutError>(LayoutError::OrderTooLarge)
        },
        r matches Ok(d) ==> {
            &&& fits(page_size as int, header_size as int, key_size as int, file_offset_size as int, page_offset_size as int, d as int)
            &&& !fits(page_size as int, header_size as int, key_size as int, file_offset_size as int, page_offset_size as int, d + 1)
        },
{
    let ghost (p, h, k, f, o) = (page_size as int, header_size as int, key_size as int, file_offset_size as int, page_offset_size as int);
    let total = key_size as u64 + file_offset_size as u64 + page_offset_size as u64;
    if total == 0 || header_size >= page_size {
        return Err(LayoutError::InvalidParameters);
    }
    let usable = (page_size - header_size) as u64;
    let ghost m = max_order(p, h, k, f, o);
    proof {
        lemma_max_order_is_maximal(p, h, k, f, o);
        vstd::arithmetic::div_mod::lemma_div_is_ordered_by_denominator(p - h + k, 1, total as int);
        assert(m <= u32::MAX as int * 2);
    }
    let mut d: u64 = ((page_size as u64 / total) / 4) * 3;
    proof {
        vstd::arithmetic::div_mod::lemma_div_is_ordered_by_denominator(p, 1, total as int);
        assert(used_space(k, f, o, 0) == -k) by (nonlinear_arith);
    }
    while !order_fits(usable, key_size, file_offset_size, page_offset_size, d)
        invariant
            d <= u32::MAX,
            usable == p - h,
            p == page_size as int && h == header_size as int && k == key_size as int,
            f == file_offset_size as int && o == page_offset_size as int,
            valid_params(p, h, k, f, o),
            m == max_order(p, h, k, f, o),
            fits(p, h, k, f, o, 0),
        decreases d,
    {
        if d == 0 {
            assert(false);
        }
        d = d - 1;
    }
    proof {
        lemma_fits_iff(p, h, k, f, o, d as int);
    }
    while order_fits(usable, key_size, file_offset_size, page_offset_size, d + 1)
        invariant
            d <= m,
            m <= u32::MAX as int * 2,
            usable == p - h,
            p == page_size as int && h == header_size as int && k == key_size as int,
            f == file_offset_size as int && o == page_offset_size as int,
            valid_params(p, h, k, f, o),
            m == max_order(p, h, k, f, o),
        decreases m - d,
    {
        proof {
            lemma_fits_iff(p, h, k, f, o, d + 1);
        }
        d = d + 1;
    }
    proof {
        lemma_fits_iff(p, h, k, f, o, d + 1);
    }
    if d > u32::MAX as u64 {
        return Err(LayoutError::OrderTooLarge);
    }
    Ok(d as u32)
}

} // verus!
