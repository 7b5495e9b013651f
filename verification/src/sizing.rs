//! One-dimensional size negotiation along a container's main axis.
//!
//! A container measures its children per axis: each child is either `Fix`
//! (intrinsic extent) or `Flexible` (shares leftover space). One spacing
//! unit is reserved between each adjacent pair of children.
//!
//! * Measure: with no flexible child the container takes the fixed extents
//!   plus spacing, clamped to the available extent; with at least one
//!   flexible child it fills the available extent.
//! * Arrange: children are placed in order along a cursor. A `Fix` child
//!   receives its measured extent as far as the remaining budget allows
//!   (a child past the budget is allotted a zero extent); `Flexible`
//!   children share the leftover — total minus fixed extents minus
//!   reserved spacing — equally, each share clamped to `cap`.

use vstd::prelude::*;
use crate::geometry::{COORD_MAX, extent_ok};
use crate::widget::SizeType;

verus! {

/// One child on the negotiated axis: its sizing policy and, for `Fix`
/// children, its measured extent.
#[derive(Clone, Copy, PartialEq, Eq, Structural, Debug)]
pub struct AxisItem {
    pub policy: SizeType,
    pub extent: i64,
}

pub open spec fn imin(a: int, b: int) -> int {
    if a <= b {
        a
    } else {
        b
    }
}

pub open spec fn imax0(a: int) -> int {
    if a >= 0 {
        a
    } else {
        0
    }
}

pub open spec fn axis_wf(items: Seq<AxisItem>) -> bool {
    forall|i: int| 0 <= i < items.len() ==> extent_ok(#[trigger] items[i].extent as int)
}

/// How many children are flexible on this axis.
pub open spec fn flex_count(items: Seq<AxisItem>) -> int
    decreases items.len(),
{
    if items.len() == 0 {
        0
    } else {
        flex_count(items.drop_last()) + if items.last().policy == SizeType::Flexible {
            1int
        } else {
            0int
        }
    }
}

/// The space the fixed children and the inter-child gaps claim: the sum of
/// `Fix` extents plus one spacing unit between each adjacent pair.
pub open spec fn reserved(items: Seq<AxisItem>, space: int) -> int
    decreases items.len(),
{
    if items.len() == 0 {
        0
    } else {
        reserved(items.drop_last(), space) + (if items.len() > 1 {
            space
        } else {
            0int
        }) + (if items.last().policy == SizeType::Fix {
            items.last().extent as int
        } else {
            0int
        })
    }
}

/// The container's measured main-axis extent.
pub open spec fn measure_spec(items: Seq<AxisItem>, space: int, avail: int) -> int {
    if flex_count(items) > 0 {
        avail
    } else {
        imin(reserved(items, space), avail)
    }
}

/// What is left for the flexible children once fixed extents and spacing
/// are reserved.
pub open spec fn leftover_spec(items: Seq<AxisItem>, space: int, total: int) -> int {
    imax0(total - reserved(items, space))
}

/// The extent each flexible child receives: an equal share of the
/// leftover, clamped to `cap`.
pub open spec fn flex_share_spec(items: Seq<AxisItem>, space: int, total: int, cap: int) -> int {
    if flex_count(items) > 0 {
        imin(leftover_spec(items, space, total) / flex_count(items), cap)
    } else {
        0
    }
}

/// The main-axis offset of child `i` (cursor position), clamped to `total`.
pub open spec fn offset_at(items: Seq<AxisItem>, space: int, total: int, cap: int, i: int) -> int
    decreases i, 1int,
{
    if i <= 0 {
        0
    } else {
        imin(
            offset_at(items, space, total, cap, i - 1) + extent_at(items, space, total, cap, i - 1)
                + space,
            total,
        )
    }
}

/// The main-axis extent allotted to child `i`.
pub open spec fn extent_at(items: Seq<AxisItem>, space: int, total: int, cap: int, i: int) -> int
    decreases i, 2int,
{
    if items[i].policy == SizeType::Flexible {
        flex_share_spec(items, space, total, cap)
    } else {
        imin(items[i].extent as int, total - offset_at(items, space, total, cap, i))
    }
}

/// Well-formedness restricts to any subrange.
pub proof fn lemma_axis_wf_subrange(items: Seq<AxisItem>, a: int, b: int)
    requires
        axis_wf(items),
        0 <= a <= b <= items.len(),
    ensures
        axis_wf(items.subrange(a, b)),
{
    assert forall|j: int| 0 <= j < b - a implies extent_ok(
        #[trigger] items.subrange(a, b)[j].extent as int,
    ) by {
        assert(items.subrange(a, b)[j] == items[a + j]);
        assert(extent_ok(items[a + j].extent as int));
    }
}

pub proof fn lemma_reserved_nonneg(items: Seq<AxisItem>, space: int)
    requires
        axis_wf(items),
        space >= 0,
    ensures
        reserved(items, space) >= 0,
    decreases items.len(),
{
    if items.len() > 0 {
        assert(axis_wf(items.drop_last())) by {
            assert(forall|i: int|
                0 <= i < items.len() - 1 ==> #[trigger] items.drop_last()[i] == items[i]);
        }
        lemma_reserved_nonneg(items.drop_last(), space);
    }
}

pub proof fn lemma_flex_count_nonneg(items: Seq<AxisItem>)
    ensures
        flex_count(items) >= 0,
    decreases items.len(),
{
    if items.len() > 0 {
        lemma_flex_count_nonneg(items.drop_last());
    }
}

/// Offsets stay inside `[0, total]`.
pub proof fn lemma_offset_bounds(
    items: Seq<AxisItem>,
    space: int,
    total: int,
    cap: int,
    i: int,
)
    requires
        axis_wf(items),
        space >= 0,
        total >= 0,
        cap >= 0,
        i <= items.len(),
    ensures
        0 <= offset_at(items, space, total, cap, i) <= total,
    decreases i, 0int,
{
    if i > 0 {
        lemma_offset_bounds(items, space, total, cap, i - 1);
        lemma_extent_nonneg(items, space, total, cap, i - 1);
    }
}

/// Allotted extents are never negative.
pub proof fn lemma_extent_nonneg(items: Seq<AxisItem>, space: int, total: int, cap: int, i: int)
    requires
        axis_wf(items),
        space >= 0,
        total >= 0,
        cap >= 0,
        0 <= i < items.len(),
    ensures
        extent_at(items, space, total, cap, i) >= 0,
    decreases i, 1int,
{
    if items[i].policy == SizeType::Flexible {
        lemma_flex_count_nonneg(items);
        if flex_count(items) > 0 {
            assert(leftover_spec(items, space, total) >= 0);
            assert(leftover_spec(items, space, total) / flex_count(items) >= 0) by (nonlinear_arith)
                requires
                    leftover_spec(items, space, total) >= 0,
                    flex_count(items) > 0,
            ;
        }
    } else {
        lemma_offset_bounds(items, space, total, cap, i);
    }
}

/// `reserved` unfolds from the front as well: the first child's fixed
/// extent, one gap if more children follow, and the rest.
pub proof fn lemma_reserved_front(items: Seq<AxisItem>, space: int)
    requires
        items.len() > 0,
    ensures
        reserved(items, space) == (if items.first().policy == SizeType::Fix {
            items.first().extent as int
        } else {
            0int
        }) + (if items.len() > 1 {
            space
        } else {
            0int
        }) + reserved(items.drop_first(), space),
    decreases items.len(),
{
    if items.len() > 1 {
        lemma_reserved_front(items.drop_last(), space);
        assert(reserved(items, space) == reserved(items.drop_last(), space) + space + (
        if items.last().policy == SizeType::Fix {
            items.last().extent as int
        } else {
            0int
        }));
        assert(items.drop_last().drop_first() =~= items.drop_first().drop_last());
        assert(items.drop_last().first() == items.first());
        assert(items.drop_first().last() == items.last());
        assert(items.drop_first().len() > 0);
        assert(reserved(items.drop_first(), space) == reserved(
            items.drop_first().drop_last(),
            space,
        ) + (if items.drop_first().len() > 1 {
            space
        } else {
            0int
        }) + (if items.drop_first().last().policy == SizeType::Fix {
            items.drop_first().last().extent as int
        } else {
            0int
        }));
    } else {
        assert(items.drop_first() =~= Seq::<AxisItem>::empty());
        assert(items.drop_last() =~= Seq::<AxisItem>::empty());
        assert(items.last() == items.first());
        assert(reserved(items.drop_first(), space) == 0);
        assert(reserved(items, space) == reserved(items.drop_last(), space) + (
        if items.last().policy == SizeType::Fix {
            items.last().extent as int
        } else {
            0int
        }));
    }
}

/// `flex_count` unfolds from the front too.
pub proof fn lemma_flex_count_front(items: Seq<AxisItem>)
    requires
        items.len() > 0,
    ensures
        flex_count(items) == (if items.first().policy == SizeType::Flexible {
            1int
        } else {
            0int
        }) + flex_count(items.drop_first()),
    decreases items.len(),
{
    if items.len() > 1 {
        lemma_flex_count_front(items.drop_last());
        assert(flex_count(items) == flex_count(items.drop_last()) + (
        if items.last().policy == SizeType::Flexible {
            1int
        } else {
            0int
        }));
        assert(items.drop_last().drop_first() =~= items.drop_first().drop_last());
        assert(items.drop_last().first() == items.first());
        assert(items.drop_first().last() == items.last());
        assert(items.drop_first().len() > 0);
        assert(flex_count(items.drop_first()) == flex_count(items.drop_first().drop_last()) + (
        if items.drop_first().last().policy == SizeType::Flexible {
            1int
        } else {
            0int
        }));
    } else {
        assert(items.drop_first() =~= Seq::<AxisItem>::empty());
        assert(items.drop_last() =~= Seq::<AxisItem>::empty());
        assert(items.last() == items.first());
        assert(flex_count(items.drop_first()) == 0);
        assert(flex_count(items) == flex_count(items.drop_last()) + (
        if items.last().policy == SizeType::Flexible {
            1int
        } else {
            0int
        }));
    }
}

/// The flexible share is non-negative and never exceeds its cap.
pub proof fn lemma_flex_share_bounds(items: Seq<AxisItem>, space: int, total: int, cap: int)
    requires
        axis_wf(items),
        space >= 0,
        cap >= 0,
    ensures
        0 <= flex_share_spec(items, space, total, cap) <= cap,
{
    lemma_flex_count_nonneg(items);
    if flex_count(items) > 0 {
        assert(leftover_spec(items, space, total) >= 0);
        assert(leftover_spec(items, space, total) / flex_count(items) >= 0) by (nonlinear_arith)
            requires
                leftover_spec(items, space, total) >= 0,
                flex_count(items) > 0,
        ;
    }
}

/// The budget invariant behind the arrangement: at every position, what is
/// already consumed plus everything the remaining children will claim —
/// fixed extents, remaining gaps, and the flexible shares — still fits in
/// `total`.
pub proof fn lemma_budget_suffix(items: Seq<AxisItem>, space: int, total: int, cap: int, i: int)
    requires
        axis_wf(items),
        space >= 0,
        cap >= 0,
        reserved(items, space) <= total,
        0 <= i <= items.len(),
    ensures
        offset_at(items, space, total, cap, i) + reserved(items.subrange(i, items.len() as int), space)
            + flex_count(items.subrange(i, items.len() as int)) * flex_share_spec(
            items,
            space,
            total,
            cap,
        ) <= total,
    decreases i,
{
    let n = items.len() as int;
    let share = flex_share_spec(items, space, total, cap);
    lemma_reserved_nonneg(items, space);
    lemma_flex_share_bounds(items, space, total, cap);
    if i == 0 {
        assert(items.subrange(0, n) =~= items);
        let count = flex_count(items);
        lemma_flex_count_nonneg(items);
        if count > 0 {
            let leftover = leftover_spec(items, space, total);
            assert(leftover == total - reserved(items, space));
            assert(count * share <= leftover) by (nonlinear_arith)
                requires
                    count > 0,
                    leftover >= 0,
                    0 <= share <= leftover / count,
            ;
        } else {
            assert(count * share == 0) by (nonlinear_arith)
                requires
                    count == 0,
            ;
        }
    } else if i == n {
        assert(items.subrange(n, n) =~= Seq::<AxisItem>::empty());
        lemma_offset_bounds(items, space, total, cap, i);
        assert(flex_count(Seq::<AxisItem>::empty()) * share == 0) by (nonlinear_arith)
            requires
                flex_count(Seq::<AxisItem>::empty()) == 0,
        ;
    } else {
        lemma_budget_suffix(items, space, total, cap, i - 1);
        let suffix_prev = items.subrange(i - 1, n);
        let suffix = items.subrange(i, n);
        assert(suffix_prev.first() == items[i - 1]);
        assert(suffix_prev.drop_first() =~= suffix);
        lemma_reserved_front(suffix_prev, space);
        lemma_flex_count_front(suffix_prev);
        lemma_axis_wf_subrange(items, i - 1, n);
        lemma_reserved_nonneg(suffix, space);
        lemma_flex_count_nonneg(suffix);
        let off_prev = offset_at(items, space, total, cap, i - 1);
        let ext_prev = extent_at(items, space, total, cap, i - 1);
        let count_suffix = flex_count(suffix);
        if items[i - 1].policy == SizeType::Fix {
            // the remaining budget covers this fixed child in full
            assert(reserved(suffix_prev, space) >= items[i - 1].extent as int);
            assert(total - off_prev >= items[i - 1].extent as int) by {
                assert(flex_count(suffix_prev) * share >= 0) by (nonlinear_arith)
                    requires
                        flex_count(suffix_prev) >= 0,
                        share >= 0,
                ;
            }
            assert(ext_prev == items[i - 1].extent as int);
        } else {
            assert(ext_prev == share);
            assert(flex_count(suffix_prev) * share == share + count_suffix * share)
                by (nonlinear_arith)
                requires
                    flex_count(suffix_prev) == 1 + count_suffix,
            ;
        }
        assert(offset_at(items, space, total, cap, i) <= off_prev + ext_prev + space);
    }
}

/// The resize-invariance guarantee of the sizing protocol: as long as the
/// budget covers the fixed extents and the reserved spacing, a `Fix` child
/// is allotted exactly its measured extent — for any such total. Changing
/// the container's extent therefore changes only the flexible children's
/// allotments.
pub proof fn lemma_fix_extent_resize_invariant(
    items: Seq<AxisItem>,
    space: int,
    cap: int,
    i: int,
    total1: int,
    total2: int,
)
    requires
        axis_wf(items),
        space >= 0,
        cap >= 0,
        0 <= i < items.len(),
        items[i].policy == SizeType::Fix,
        reserved(items, space) <= total1,
        reserved(items, space) <= total2,
    ensures
        extent_at(items, space, total1, cap, i) == items[i].extent as int,
        extent_at(items, space, total2, cap, i) == items[i].extent as int,
        extent_at(items, space, total1, cap, i) == extent_at(items, space, total2, cap, i),
{
    lemma_fix_extent_covered(items, space, cap, i, total1);
    lemma_fix_extent_covered(items, space, cap, i, total2);
}

proof fn lemma_fix_extent_covered(items: Seq<AxisItem>, space: int, cap: int, i: int, total: int)
    requires
        axis_wf(items),
        space >= 0,
        cap >= 0,
        0 <= i < items.len(),
        items[i].policy == SizeType::Fix,
        reserved(items, space) <= total,
    ensures
        extent_at(items, space, total, cap, i) == items[i].extent as int,
{
    let n = items.len() as int;
    lemma_budget_suffix(items, space, total, cap, i);
    let suffix = items.subrange(i, n);
    assert(suffix.first() == items[i]);
    lemma_reserved_front(suffix, space);
    lemma_axis_wf_subrange(items, i, n);
    lemma_reserved_nonneg(suffix.drop_first(), space);
    lemma_flex_share_bounds(items, space, total, cap);
    lemma_flex_count_nonneg(suffix);
    assert(flex_count(suffix) * flex_share_spec(items, space, total, cap) >= 0)
        by (nonlinear_arith)
        requires
            flex_count(suffix) >= 0,
            flex_share_spec(items, space, total, cap) >= 0,
    ;
    assert(total - offset_at(items, space, total, cap, i) >= items[i].extent as int);
}

/// Counts the flexible children.
#[verifier::loop_isolation(false)]
pub fn flex_count_exec(items: &Vec<AxisItem>) -> (r: usize)
    ensures
        r as int == flex_count(items@),
{
    let n = items.len();
    let mut count: usize = 0;
    let mut i: usize = 0;
    while i < n
        invariant
            i <= n,
            n == items@.len(),
            count as int == flex_count(items@.subrange(0, i as int)),
            count <= i,
        decreases n - i,
    {
        proof {
            assert(items@.subrange(0, i + 1).drop_last() =~= items@.subrange(0, i as int));
        }
        if matches!(items[i].policy, SizeType::Flexible) {
            count = count + 1;
        }
        i = i + 1;
    }
    proof {
        assert(items@.subrange(0, n as int) =~= items@);
    }
    count
}

/// The reserved extent, clamped at `bound` — enough to compute leftovers,
/// and safe from overflow whatever the child count.
#[verifier::loop_isolation(false)]
pub fn reserved_clamped(items: &Vec<AxisItem>, space: i64, bound: i64) -> (r: i64)
    requires
        axis_wf(items@),
        0 <= space <= COORD_MAX,
        0 <= bound <= 2 * COORD_MAX,
    ensures
        r == imin(reserved(items@, space as int), bound as int),
        0 <= r <= bound,
    decreases items@.len(),
{
    let n = items.len();
    let mut acc: i64 = 0;
    let mut i: usize = 0;
    while i < n
        invariant
            i <= n,
            n == items@.len(),
            acc == imin(reserved(items@.subrange(0, i as int), space as int), bound as int),
            0 <= acc <= bound,
        decreases n - i,
    {
        let ghost prefix = items@.subrange(0, i as int);
        let ghost next = items@.subrange(0, i + 1);
        proof {
            assert(next.drop_last() =~= prefix);
            assert(next.last() == items@[i as int]);
            lemma_axis_wf_subrange(items@, 0, i as int);
            lemma_axis_wf_subrange(items@, 0, i + 1);
            lemma_reserved_nonneg(prefix, space as int);
            lemma_reserved_nonneg(next, space as int);
        }
        let mut inc: i64 = if i > 0 {
            space
        } else {
            0
        };
        if matches!(items[i].policy, SizeType::Fix) {
            inc = inc + items[i].extent;
        }
        if acc > bound - inc {
            acc = bound;
        } else {
            acc = acc + inc;
        }
        i = i + 1;
    }
    proof {
        assert(items@.subrange(0, n as int) =~= items@);
    }
    acc
}

/// The flexible children's equal share of the leftover, clamped to `cap`.
#[verifier::loop_isolation(false)]
pub fn flex_share(items: &Vec<AxisItem>, space: i64, total: i64, cap: i64) -> (r: i64)
    requires
        axis_wf(items@),
        0 <= space <= COORD_MAX,
        0 <= total <= 2 * COORD_MAX,
        0 <= cap <= COORD_MAX,
    ensures
        r == flex_share_spec(items@, space as int, total as int, cap as int),
        0 <= r <= cap,
    decreases items@.len(),
{
    let count = flex_count_exec(items);
    proof {
        lemma_flex_count_nonneg(items@);
    }
    if count == 0 {
        return 0;
    }
    let res = reserved_clamped(items, space, total);
    let left = total - res;
    proof {
        lemma_reserved_nonneg(items@, space as int);
        assert(left == leftover_spec(items@, space as int, total as int));
    }
    let share_wide = (left as u64) / (count as u64);
    proof {
        assert(share_wide as int == left as int / count as int) by (nonlinear_arith)
            requires
                left >= 0,
                count > 0,
                share_wide as int == (left as u64) as int / (count as u64) as int,
                (left as u64) as int == left as int,
                (count as u64) as int == count as int,
        ;
        assert(share_wide as int <= left as int) by (nonlinear_arith)
            requires
                left >= 0,
                count >= 1,
                share_wide as int == left as int / count as int,
        ;
    }
    let share = share_wide as i64;
    if share > cap {
        cap
    } else {
        share
    }
}

/// Measures the main axis.
#[verifier::loop_isolation(false)]
pub fn measure_axis(items: &Vec<AxisItem>, space: i64, avail: i64) -> (r: i64)
    requires
        axis_wf(items@),
        0 <= space <= COORD_MAX,
        0 <= avail <= COORD_MAX,
    ensures
        r == measure_spec(items@, space as int, avail as int),
        0 <= r <= avail,
    decreases items@.len(),
{
    let n = items.len();
    let mut flexible = false;
    let mut i: usize = 0;
    while i < n
        invariant
            i <= n,
            n == items@.len(),
            flexible == (flex_count(items@.subrange(0, i as int)) > 0),
        decreases n - i,
    {
        proof {
            assert(items@.subrange(0, i + 1).drop_last() =~= items@.subrange(0, i as int));
            lemma_flex_count_nonneg(items@.subrange(0, i as int));
        }
        if items[i].policy == SizeType::Flexible {
            flexible = true;
        }
        i = i + 1;
    }
    proof {
        assert(items@.subrange(0, n as int) =~= items@);
    }
    if flexible {
        return avail;
    }
    // accumulate fixed extents and gaps, clamping each step at `avail`:
    // since every increment is non-negative, the running clamp equals one
    // final clamp of the whole sum
    let mut acc: i64 = 0;
    let mut i: usize = 0;
    while i < n
        invariant
            i <= n,
            n == items@.len(),
            !(flex_count(items@) > 0),
            acc == imin(reserved(items@.subrange(0, i as int), space as int), avail as int),
            0 <= acc <= avail,
        decreases n - i,
    {
        let ghost prefix = items@.subrange(0, i as int);
        let ghost next = items@.subrange(0, i + 1);
        proof {
            assert(next.drop_last() =~= prefix);
            assert(next.last() == items@[i as int]);
            lemma_axis_wf_subrange(items@, 0, i as int);
            lemma_axis_wf_subrange(items@, 0, i + 1);
            lemma_reserved_nonneg(prefix, space as int);
            lemma_reserved_nonneg(next, space as int);
        }
        // one gap is reserved before each child but the first: that is
        // exactly one spacing unit per adjacent pair
        let mut inc: i64 = if i > 0 {
            space
        } else {
            0
        };
        if items[i].policy == SizeType::Fix {
            inc = inc + items[i].extent;
        }
        if acc > avail - inc {
            acc = avail;
        } else {
            acc = acc + inc;
        }
        i = i + 1;
        proof {
            assert(acc == imin(reserved(items@.subrange(0, i as int), space as int), avail as int));
        }
    }
    proof {
        assert(items@.subrange(0, n as int) =~= items@);
    }
    acc
}

} // verus!
