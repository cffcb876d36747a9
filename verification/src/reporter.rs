//! What the preflight report says about skipped sources. (Writing the
//! report and the output files is I/O and stays with the program.)
use vstd::prelude::*;
use crate::types::{BookSource, SkipReason};

verus! {

pub open spec fn count_reason(reasons: Seq<SkipReason>, r: SkipReason) -> nat
    decreases reasons.len(),
{
    if reasons.len() == 0 {
        0
    } else {
        count_reason(reasons.drop_last(), r) + if reasons.last() == r {
            1nat
        } else {
            0nat
        }
    }
}

/// Every reason, in declaration order.
pub open spec fn all_reasons() -> Seq<SkipReason> {
    seq![
        SkipReason::Excluded,
        SkipReason::BadUrl,
        SkipReason::NoCapability,
        SkipReason::NoSearchRule,
        SkipReason::NoContentRule,
        SkipReason::LoginRequired,
        SkipReason::JsApi,
    ]
}

/// `(reason, count)` for each reason that occurs, in declaration order.
pub open spec fn skip_counts_from(reasons: Seq<SkipReason>, order: Seq<SkipReason>) -> Seq<
    (SkipReason, usize),
>
    decreases order.len(),
{
    if order.len() == 0 {
        seq![]
    } else {
        let r = order[0];
        let n = count_reason(reasons, r);
        (if n > 0 {
            seq![(r, n as usize)]
        } else {
            seq![]
        }) + skip_counts_from(reasons, order.drop_first())
    }
}

pub open spec fn reasons_of(skipped: Seq<(BookSource, SkipReason)>) -> Seq<SkipReason> {
    Seq::new(skipped.len(), |i: int| skipped[i].1)
}

fn count_of(skipped: &Vec<(BookSource, SkipReason)>, r: SkipReason) -> (n: usize)
    ensures
        n == count_reason(reasons_of(skipped@), r),
{
    let ghost rv = reasons_of(skipped@);
    let mut n: usize = 0;
    let mut i: usize = 0;
    while i < skipped.len()
        invariant
            i <= skipped@.len(),
            rv == reasons_of(skipped@),
            n == count_reason(rv.take(i as int), r),
            n <= i,
        decreases skipped.len() - i,
    {
        assert(rv.take(i + 1).drop_last() =~= rv.take(i as int));
        assert(rv.take(i + 1).last() == skipped@[i as int].1);
        if skipped[i].1 == r {
            n += 1;
        }
        i += 1;
    }
    assert(rv.take(skipped@.len() as int) =~= rv);
    n
}

/// How many sources were skipped for each reason (reasons that occur only).
pub fn skip_counts(skipped: &Vec<(BookSource, SkipReason)>) -> (r: Vec<(SkipReason, usize)>)
    ensures
        r@ == skip_counts_from(reasons_of(skipped@), all_reasons()),
{
    let order = [
        SkipReason::Excluded,
        SkipReason::BadUrl,
        SkipReason::NoCapability,
        SkipReason::NoSearchRule,
        SkipReason::NoContentRule,
        SkipReason::LoginRequired,
        SkipReason::JsApi,
    ];
    let ghost ov = all_reasons();
    assert(order@ =~= ov);
    let mut r: Vec<(SkipReason, usize)> = Vec::new();
    let mut k: usize = 0;
    assert(ov.skip(0) =~= ov);
    while k < 7
        invariant
            k <= 7,
            order@ == ov,
            ov == all_reasons(),
            skip_counts_from(reasons_of(skipped@), ov) == r@ + skip_counts_from(
                reasons_of(skipped@),
                ov.skip(k as int),
            ),
        decreases 7 - k,
    {
        let reason = order[k];
        assert(ov.skip(k as int)[0] == reason);
        assert(ov.skip(k as int).drop_first() =~= ov.skip(k + 1));
        let n = count_of(skipped, reason);
        let ghost before = r@;
        if n > 0 {
            r.push((reason, n));
        }
        assert(before + skip_counts_from(reasons_of(skipped@), ov.skip(k as int)) =~= r@
            + skip_counts_from(reasons_of(skipped@), ov.skip(k + 1)));
        k += 1;
    }
    assert(ov.skip(7) =~= Seq::<SkipReason>::empty());
    assert(r@ + Seq::<(SkipReason, usize)>::empty() =~= r@);
    r
}

} // verus!
