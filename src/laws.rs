use vstd::prelude::*;

use crate::arena::{alloc_outcome, coalescing_of, release_outcome, ArenaView};
use crate::error::Error;
use crate::rect::{disjoint, within, Rectangle};
use crate::tiling::{lemma_sum_area_push, sum_area};

verus! {

/// In a well-formed arena the free and the allocated rectangles together
/// cover exactly the area of the arena.
pub proof fn area_conservation(a: ArenaView)
    requires
        a.wf(),
    ensures
        sum_area(a.free) + sum_area(a.allocated) == a.width * a.height,
{
}

/// No two distinct rectangles of a well-formed arena overlap.
pub proof fn non_overlap(a: ArenaView, i: int, j: int)
    requires
        a.wf(),
        0 <= i < a.all_rects().len(),
        0 <= j < a.all_rects().len(),
        i != j,
    ensures
        disjoint(a.all_rects()[i], a.all_rects()[j]),
{
}

/// Every rectangle of a well-formed arena ends inside its bounds.
pub proof fn bounds_containment(a: ArenaView, i: int)
    requires
        a.wf(),
        0 <= i < a.all_rects().len(),
    ensures
        a.all_rects()[i].end_x_spec() <= a.width,
        a.all_rects()[i].end_y_spec() <= a.height,
{
    assert(within(a.all_rects()[i], a.width as int, a.height as int));
}

/// No two rectangles of a well-formed arena share a top-left corner.
pub proof fn unique_ids(a: ArenaView, i: int, j: int)
    requires
        a.wf(),
        0 <= i < a.all_rects().len(),
        0 <= j < a.all_rects().len(),
        i != j,
    ensures
        a.all_rects()[i].x != a.all_rects()[j].x || a.all_rects()[i].y != a.all_rects()[j].y,
{
    assert(within(a.all_rects()[i], a.width as int, a.height as int));
    assert(within(a.all_rects()[j], a.width as int, a.height as int));
}

/// No two allocated rectangles of a well-formed arena share a top-left corner.
pub proof fn unique_allocated_ids(a: ArenaView, i: int, j: int)
    requires
        a.wf(),
        0 <= i < a.allocated.len(),
        0 <= j < a.allocated.len(),
        i != j,
    ensures
        a.allocated[i].x != a.allocated[j].x || a.allocated[i].y != a.allocated[j].y,
{
    let k = a.free.len();
    assert(a.all_rects()[k + i] == a.allocated[i]);
    assert(a.all_rects()[k + j] == a.allocated[j]);
    unique_ids(a, k + i, k + j);
}

/// Coalescing a second time right after a first pass leaves the free
/// rectangles as the first pass left them.
pub proof fn coalescing_idempotent(s0: Seq<Rectangle>, s1: Seq<Rectangle>, s2: Seq<Rectangle>)
    requires
        coalescing_of(s0, s1),
        coalescing_of(s1, s2),
    ensures
        s2 == s1,
{
}

/// Allocating a rectangle and releasing it right away succeeds, and gives
/// back the free area there was before.
pub proof fn round_trip(
    pre: ArenaView,
    width: u32,
    height: u32,
    r: Rectangle,
    mid: ArenaView,
    res: Result<(), Error>,
    post: ArenaView,
)
    requires
        pre.wf(),
        mid.wf(),
        alloc_outcome(pre, width, height, mid, Ok(r)),
        release_outcome(mid, r, post, res),
    ensures
        res is Ok,
        sum_area(post.free) == sum_area(pre.free),
        post.allocated == pre.allocated,
{
    let last = pre.allocated.len() as int;
    assert(mid.holds_id(last, r.x, r.y));
    let i = choose|i: int|
        mid.holds_id(i, r.x, r.y) && post.allocated == mid.allocated.remove(i) && post.free
            == mid.free.push(mid.allocated[i]);
    if i != last {
        unique_allocated_ids(mid, i, last);
    }
    lemma_sum_area_push(mid.free, r);
    assert(post.allocated =~= pre.allocated);
}

/// Releasing the same rectangle twice fails the second time.
pub proof fn double_release(
    pre: ArenaView,
    r: Rectangle,
    mid: ArenaView,
    post: ArenaView,
    res: Result<(), Error>,
)
    requires
        pre.wf(),
        release_outcome(pre, r, mid, Ok(())),
        release_outcome(mid, r, post, res),
    ensures
        res == Err::<(), Error>(Error::RectangleNotFound),
{
    let i = choose|i: int|
        pre.holds_id(i, r.x, r.y) && mid.allocated == pre.allocated.remove(i) && mid.free
            == pre.free.push(pre.allocated[i]);
    pre.allocated.remove_ensures(i);
    if exists|j: int| mid.holds_id(j, r.x, r.y) {
        let j = choose|j: int| mid.holds_id(j, r.x, r.y);
        let oj = if j < i { j } else { j + 1 };
        assert(mid.allocated[j] == pre.allocated[oj]);
        unique_allocated_ids(pre, i, oj);
    }
}

} // verus!
