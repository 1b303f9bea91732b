//! Percentage shares, in exact integer arithmetic.
//!
//! A share is the percentage of one entry's cumulative byte size within the
//! total over all entries.  Shares are computed in hundredths of a percent
//! (so `10000` stands for `100.00`), rounding half up, and rendered with the
//! presentation policy: a share strictly below `0.01` percent renders as the
//! literal `"< 0.01"`, every other share with exactly two decimal places.

use vstd::prelude::*;

use crate::text::push_dec;
use crate::text::spec_dec;
use crate::text::u64_to_dec;

verus! {

/// The share of `part` within `total`, in hundredths of a percent,
/// rounded half up.
pub open spec fn spec_share_hundredths(part: int, total: int) -> int {
    (part * 10000 + total / 2) / total
}

/// Whether the exact share of `part` within `total` lies strictly below
/// `0.01` percent.  An empty total (only possible when every recorded
/// document had size zero) counts as below the threshold: the share is
/// defined as zero there.
pub open spec fn spec_share_below_threshold(part: int, total: int) -> bool {
    total == 0 || part * 10000 < total
}

/// The rendering of a share given in hundredths of a percent: the integer
/// percent part, a dot, and the remaining hundredths zero-padded to two
/// digits.
pub open spec fn spec_share_string(h: int) -> Seq<char> {
    spec_dec(h / 100) + "."@ + (if h % 100 < 10 {
        "0"@
    } else {
        Seq::<char>::empty()
    }) + spec_dec(h % 100)
}

/// The rendered share of `part` within `total` under the presentation
/// policy: `"< 0.01"` below the threshold, two decimal places otherwise.
pub open spec fn spec_share_text(part: int, total: int) -> Seq<char> {
    if spec_share_below_threshold(part, total) {
        "< 0.01"@
    } else {
        spec_share_string(spec_share_hundredths(part, total))
    }
}

/// A share always lies between `0` and `100` percent: in hundredths of a
/// percent, between `0` and `10000`.
pub proof fn lemma_share_bounds(part: int, total: int)
    requires
        0 <= part <= total,
        total > 0,
    ensures
        0 <= spec_share_hundredths(part, total) <= 10000,
{
    let num = part * 10000 + total / 2;
    assert(num >= 0) by (nonlinear_arith)
        requires
            part >= 0,
            total > 0,
            num == part * 10000 + total / 2,
    ;
    assert(num < 10001 * total) by (nonlinear_arith)
        requires
            part <= total,
            total > 0,
            num == part * 10000 + total / 2,
    ;
    assert(num / total >= 0) by (nonlinear_arith)
        requires
            num >= 0,
            total > 0,
    ;
    assert(num / total <= 10000) by (nonlinear_arith)
        requires
            num < 10001 * total,
            total > 0,
    ;
}

/// The share of `part` within `total`, in hundredths of a percent,
/// rounded half up.
pub fn share_hundredths(part: u64, total: u64) -> (r: u64)
    requires
        part <= total,
        total > 0,
    ensures
        r == spec_share_hundredths(part as int, total as int),
        r <= 10000,
{
    proof {
        lemma_share_bounds(part as int, total as int);
    }
    let p = part as u128;
    let t = total as u128;
    assert(p * 10000 <= 0xffff_ffff_ffff_ffffu128 * 10000) by (nonlinear_arith)
        requires
            p <= 0xffff_ffff_ffff_ffffu128,
    ;
    let num = p * 10000 + t / 2;
    let h = num / t;
    assert(h == spec_share_hundredths(part as int, total as int));
    h as u64
}

/// Renders a share given in hundredths of a percent with exactly two
/// decimal places.
fn format_share_hundredths(h: u64) -> (r: String)
    ensures
        r@ == spec_share_string(h as int),
{
    let mut out = u64_to_dec(h / 100);
    out.append(".");
    let frac = h % 100;
    if frac < 10 {
        out.append("0");
    }
    push_dec(frac, &mut out);
    proof {
        assert(out@ =~= spec_share_string(h as int));
    }
    out
}

/// Renders the share of `part` within `total` under the presentation
/// policy: `"< 0.01"` for shares strictly below `0.01` percent (including
/// a zero total), two decimal places otherwise.
pub fn format_share_value(part: u64, total: u64) -> (r: String)
    requires
        part <= total,
    ensures
        r@ == spec_share_text(part as int, total as int),
{
    if total == 0 {
        return "< 0.01".to_owned();
    }
    let p = part as u128;
    assert(p * 10000 <= 0xffff_ffff_ffff_ffffu128 * 10000) by (nonlinear_arith)
        requires
            p <= 0xffff_ffff_ffff_ffffu128,
    ;
    if p * 10000 < total as u128 {
        "< 0.01".to_owned()
    } else {
        format_share_hundredths(share_hundredths(part, total))
    }
}

} // verus!
