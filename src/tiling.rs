use vstd::prelude::*;

use crate::rect::{area, beside, contains, disjoint, fits_u32, merge_of, stacked, within, Rectangle};

verus! {

/// No two entries at distinct positions of `s` overlap.
pub open spec fn pairwise_disjoint(s: Seq<Rectangle>) -> bool {
    forall|i: int, j: int|
        0 <= i < s.len() && 0 <= j < s.len() && i != j ==> disjoint(#[trigger] s[i], #[trigger] s[j])
}

/// `r` overlaps no entry of `s`.
pub open spec fn disjoint_from_all(s: Seq<Rectangle>, r: Rectangle) -> bool {
    forall|i: int| 0 <= i < s.len() ==> disjoint(#[trigger] s[i], r)
}

/// Every entry of `s` lies inside `[0, w) x [0, h)` with no zero extent.
pub open spec fn all_within(s: Seq<Rectangle>, w: int, h: int) -> bool {
    forall|i: int| 0 <= i < s.len() ==> within(#[trigger] s[i], w, h)
}

/// Both extents are positive and both far edges fit in `u32`.
pub open spec fn sound(r: Rectangle) -> bool {
    r.width > 0 && r.height > 0 && fits_u32(r)
}

pub open spec fn all_sound(s: Seq<Rectangle>) -> bool {
    forall|i: int| 0 <= i < s.len() ==> sound(#[trigger] s[i])
}

/// The summed area of the entries of `s`.
pub open spec fn sum_area(s: Seq<Rectangle>) -> int
    decreases s.len(),
{
    if s.len() == 0 {
        0
    } else {
        sum_area(s.drop_last()) + area(s.last())
    }
}

/// `r` lies inside some entry of `big`.
pub open spec fn inside_some(big: Seq<Rectangle>, r: Rectangle) -> bool {
    exists|m: int| 0 <= m < big.len() && #[trigger] contains(big[m], r)
}

/// Every entry of `small` lies inside some entry of `big`.
pub open spec fn covers(big: Seq<Rectangle>, small: Seq<Rectangle>) -> bool {
    forall|k: int| 0 <= k < small.len() ==> inside_some(big, #[trigger] small[k])
}

pub proof fn lemma_covers_refl(s: Seq<Rectangle>)
    ensures
        covers(s, s),
{
    assert forall|k: int| 0 <= k < s.len() implies inside_some(s, #[trigger] s[k]) by {
        assert(contains(s[k], s[k]));
    }
}

pub proof fn lemma_covers_trans(a: Seq<Rectangle>, b: Seq<Rectangle>, c: Seq<Rectangle>)
    requires
        covers(a, b),
        covers(b, c),
    ensures
        covers(a, c),
{
    assert forall|k: int| 0 <= k < c.len() implies inside_some(a, #[trigger] c[k]) by {
        assert(inside_some(b, c[k]));
        let mb = choose|m: int| 0 <= m < b.len() && #[trigger] contains(b[m], c[k]);
        assert(inside_some(a, b[mb]));
        let ma = choose|m: int| 0 <= m < a.len() && #[trigger] contains(a[m], b[mb]);
        assert(contains(a[ma], c[k]));
    }
}

/// No two entries of `s` can be merged into one rectangle.
pub open spec fn maximal(s: Seq<Rectangle>) -> bool {
    forall|i: int, j: int| 0 <= i < j < s.len() ==> merge_of(#[trigger] s[i], #[trigger] s[j]).is_none()
}

pub proof fn lemma_sum_area_push(s: Seq<Rectangle>, r: Rectangle)
    ensures
        sum_area(s.push(r)) == sum_area(s) + area(r),
{
    assert(s.push(r).drop_last() =~= s);
}

pub proof fn lemma_sum_area_append(s: Seq<Rectangle>, t: Seq<Rectangle>)
    ensures
        sum_area(s + t) == sum_area(s) + sum_area(t),
    decreases t.len(),
{
    if t.len() == 0 {
        assert(s + t =~= s);
    } else {
        assert((s + t).drop_last() =~= s + t.drop_last());
        lemma_sum_area_append(s, t.drop_last());
    }
}

pub proof fn lemma_sum_area_remove(s: Seq<Rectangle>, k: int)
    requires
        0 <= k < s.len(),
    ensures
        sum_area(s.remove(k)) == sum_area(s) - area(s[k]),
    decreases s.len(),
{
    if k == s.len() - 1 {
        assert(s.remove(k) =~= s.drop_last());
    } else {
        assert(s.remove(k).drop_last() =~= s.drop_last().remove(k));
        assert(s.remove(k).last() == s.last());
        lemma_sum_area_remove(s.drop_last(), k);
    }
}

/// Taking an entry out keeps the rest pairwise disjoint, and disjoint from it.
pub proof fn lemma_disjoint_remove(s: Seq<Rectangle>, k: int)
    requires
        0 <= k < s.len(),
        pairwise_disjoint(s),
    ensures
        pairwise_disjoint(s.remove(k)),
        disjoint_from_all(s.remove(k), s[k]),
        forall|r: Rectangle| disjoint_from_all(s, r) ==> #[trigger] disjoint_from_all(s.remove(k), r),
{
    s.remove_ensures(k);
    let t = s.remove(k);
    assert forall|i: int, j: int|
        0 <= i < t.len() && 0 <= j < t.len() && i != j implies disjoint(#[trigger] t[i], #[trigger] t[j]) by {
        let oi = if i < k { i } else { i + 1 };
        let oj = if j < k { j } else { j + 1 };
        assert(t[i] == s[oi] && t[j] == s[oj]);
    }
    assert forall|i: int| 0 <= i < t.len() implies disjoint(#[trigger] t[i], s[k]) by {
        let oi = if i < k { i } else { i + 1 };
        assert(t[i] == s[oi]);
    }
    assert forall|r: Rectangle| disjoint_from_all(s, r) implies #[trigger] disjoint_from_all(t, r) by {
        assert forall|i: int| 0 <= i < t.len() implies disjoint(#[trigger] t[i], r) by {
            let oi = if i < k { i } else { i + 1 };
            assert(t[i] == s[oi]);
        }
    }
}

/// Putting in a rectangle that overlaps nothing keeps the entries pairwise disjoint.
pub proof fn lemma_disjoint_insert(s: Seq<Rectangle>, k: int, r: Rectangle)
    requires
        0 <= k <= s.len(),
        pairwise_disjoint(s),
        disjoint_from_all(s, r),
    ensures
        pairwise_disjoint(s.insert(k, r)),
{
    s.insert_ensures(k, r);
    let t = s.insert(k, r);
    assert forall|i: int, j: int|
        0 <= i < t.len() && 0 <= j < t.len() && i != j implies disjoint(#[trigger] t[i], #[trigger] t[j]) by {
        if i != k && j != k {
            let oi = if i < k { i } else { i - 1 };
            let oj = if j < k { j } else { j - 1 };
            assert(t[i] == s[oi] && t[j] == s[oj]);
        } else if i == k {
            let oj = if j < k { j } else { j - 1 };
            assert(t[j] == s[oj]);
        } else {
            let oi = if i < k { i } else { i - 1 };
            assert(t[i] == s[oi]);
        }
    }
}

/// Two sequences are disjoint together exactly when each is, and no entry of
/// the second meets the first.
pub proof fn lemma_disjoint_append(s: Seq<Rectangle>, t: Seq<Rectangle>)
    ensures
        pairwise_disjoint(s + t) <==> (pairwise_disjoint(s) && pairwise_disjoint(t) && forall|j: int|
            0 <= j < t.len() ==> disjoint_from_all(s, #[trigger] t[j])),
{
    let u = s + t;
    if pairwise_disjoint(u) {
        assert forall|i: int, j: int|
            0 <= i < s.len() && 0 <= j < s.len() && i != j implies disjoint(#[trigger] s[i], #[trigger] s[j]) by {
            assert(u[i] == s[i] && u[j] == s[j]);
        }
        assert forall|i: int, j: int|
            0 <= i < t.len() && 0 <= j < t.len() && i != j implies disjoint(#[trigger] t[i], #[trigger] t[j]) by {
            assert(u[s.len() + i] == t[i] && u[s.len() + j] == t[j]);
        }
        assert forall|j: int| 0 <= j < t.len() implies disjoint_from_all(s, #[trigger] t[j]) by {
            assert forall|i: int| 0 <= i < s.len() implies disjoint(#[trigger] s[i], t[j]) by {
                assert(u[i] == s[i] && u[s.len() + j] == t[j]);
            }
        }
    }
    if pairwise_disjoint(s) && pairwise_disjoint(t) && forall|j: int|
        0 <= j < t.len() ==> disjoint_from_all(s, #[trigger] t[j]) {
        assert forall|i: int, j: int|
            0 <= i < u.len() && 0 <= j < u.len() && i != j implies disjoint(#[trigger] u[i], #[trigger] u[j]) by {
            if i < s.len() && j < s.len() {
                assert(u[i] == s[i] && u[j] == s[j]);
            } else if i >= s.len() && j >= s.len() {
                assert(u[i] == t[i - s.len()] && u[j] == t[j - s.len()]);
            } else if i < s.len() {
                assert(u[i] == s[i] && u[j] == t[j - s.len()]);
                assert(disjoint_from_all(s, t[j - s.len()]));
            } else {
                assert(u[j] == s[j] && u[i] == t[i - s.len()]);
                assert(disjoint_from_all(s, t[i - s.len()]));
            }
        }
    }
}

pub proof fn lemma_all_within_remove(s: Seq<Rectangle>, k: int, w: int, h: int)
    requires
        0 <= k < s.len(),
        all_within(s, w, h),
    ensures
        all_within(s.remove(k), w, h),
{
    s.remove_ensures(k);
    assert forall|i: int| 0 <= i < s.remove(k).len() implies within(#[trigger] s.remove(k)[i], w, h) by {
        if i >= k {
            assert(s.remove(k)[i] == s[i + 1]);
        }
    }
}

/// What merging two adjacent rectangles gives: their two areas, covering
/// both, and overlapping nothing that neither of them overlapped.
pub proof fn lemma_merge(a: Rectangle, b: Rectangle)
    requires
        sound(a),
        sound(b),
        merge_of(a, b).is_some(),
    ensures
        ({
            let m = merge_of(a, b).unwrap();
            &&& sound(m)
            &&& area(m) == area(a) + area(b)
            &&& contains(m, a)
            &&& contains(m, b)
            &&& forall|w: int, h: int| within(a, w, h) && within(b, w, h) ==> #[trigger] within(m, w, h)
            &&& forall|r: Rectangle|
                r.width > 0 && r.height > 0 && disjoint(a, r) && disjoint(b, r) ==> #[trigger] disjoint(m, r)
        }),
{
    let m = merge_of(a, b).unwrap();
    if stacked(a, b) || stacked(b, a) {
        assert(area(m) == area(a) + area(b)) by (nonlinear_arith)
            requires
                m.width == a.width,
                a.width == b.width,
                m.height == a.height + b.height,
        ;
    } else {
        assert(beside(a, b) || beside(b, a));
        assert(area(m) == area(a) + area(b)) by (nonlinear_arith)
            requires
                m.height == a.height,
                a.height == b.height,
                m.width == a.width + b.width,
        ;
    }
}

pub proof fn lemma_all_sound_remove(s: Seq<Rectangle>, k: int)
    requires
        0 <= k < s.len(),
        all_sound(s),
    ensures
        all_sound(s.remove(k)),
{
    s.remove_ensures(k);
    assert forall|i: int| 0 <= i < s.remove(k).len() implies sound(#[trigger] s.remove(k)[i]) by {
        if i >= k {
            assert(s.remove(k)[i] == s[i + 1]);
        }
    }
}

/// Replacing the entries at `i < j` by their merge keeps every property that
/// the coalescing pass maintains.
pub proof fn lemma_merge_step(s: Seq<Rectangle>, i: int, j: int)
    requires
        0 <= i < j < s.len(),
        all_sound(s),
        pairwise_disjoint(s),
        merge_of(s[i], s[j]).is_some(),
    ensures
        ({
            let n = s.remove(j).remove(i).push(merge_of(s[i], s[j]).unwrap());
            &&& n.len() == s.len() - 1
            &&& all_sound(n)
            &&& pairwise_disjoint(n)
            &&& sum_area(n) == sum_area(s)
            &&& covers(n, s)
            &&& forall|w: int, h: int| all_within(s, w, h) ==> #[trigger] all_within(n, w, h)
            &&& forall|r: Rectangle|
                r.width > 0 && r.height > 0 && disjoint_from_all(s, r) ==> #[trigger] disjoint_from_all(n, r)
        }),
{
    let a = s[i];
    let b = s[j];
    let m = merge_of(a, b).unwrap();
    lemma_merge(a, b);
    let s1 = s.remove(j);
    let t = s1.remove(i);
    let n = t.push(m);
    s.remove_ensures(j);
    assert(s1[i] == a);
    lemma_disjoint_remove(s, j);
    lemma_disjoint_remove(s1, i);
    assert(disjoint_from_all(t, b));
    assert(disjoint_from_all(t, a));
    lemma_all_sound_remove(s, j);
    lemma_all_sound_remove(s1, i);
    assert forall|k: int| 0 <= k < t.len() implies disjoint(#[trigger] t[k], m) by {
        assert(sound(t[k]));
        assert(disjoint(a, t[k]) && disjoint(b, t[k]));
        assert(disjoint(m, t[k]));
    }
    assert(t.insert(t.len() as int, m) =~= n);
    lemma_disjoint_insert(t, t.len() as int, m);
    lemma_sum_area_remove(s, j);
    lemma_sum_area_remove(s1, i);
    lemma_sum_area_push(t, m);
    assert forall|k: int| 0 <= k < s.len() implies inside_some(n, #[trigger] s[k]) by {
        if k == i || k == j {
            assert(contains(n[n.len() - 1], s[k]));
        } else {
            let q = if k < i { k } else if k < j { k - 1 } else { k - 2 };
            assert(n[q] == s[k]);
            assert(contains(n[q], s[k]));
        }
    }
    assert forall|w: int, h: int| all_within(s, w, h) implies #[trigger] all_within(n, w, h) by {
        lemma_all_within_remove(s, j, w, h);
        lemma_all_within_remove(s1, i, w, h);
        assert(within(m, w, h));
    }
    assert forall|r: Rectangle|
        r.width > 0 && r.height > 0 && disjoint_from_all(s, r) implies #[trigger] disjoint_from_all(n, r) by {
        assert(disjoint_from_all(s1, r));
        assert(disjoint_from_all(t, r));
        assert(disjoint(a, r) && disjoint(b, r));
        assert(disjoint(m, r));
    }
}

pub proof fn lemma_within_append(s: Seq<Rectangle>, t: Seq<Rectangle>, w: int, h: int)
    ensures
        all_within(s + t, w, h) <==> (all_within(s, w, h) && all_within(t, w, h)),
{
    if all_within(s + t, w, h) {
        assert forall|i: int| 0 <= i < s.len() implies within(#[trigger] s[i], w, h) by {
            assert((s + t)[i] == s[i]);
        }
        assert forall|i: int| 0 <= i < t.len() implies within(#[trigger] t[i], w, h) by {
            assert((s + t)[s.len() + i] == t[i]);
        }
    }
}

/// Rectangles inside bounds that fit in `u32` are sound.
pub proof fn lemma_within_sound(s: Seq<Rectangle>, w: int, h: int)
    requires
        all_within(s, w, h),
        w <= u32::MAX,
        h <= u32::MAX,
    ensures
        all_sound(s),
{
    assert forall|i: int| 0 <= i < s.len() implies sound(#[trigger] s[i]) by {
        assert(within(s[i], w, h));
    }
}

/// Replacing the entry `c[i]` by pieces of it, and handing out one more piece
/// `r` into `a`, keeps the whole partitioned and moves `r`'s area from `c` to `a`.
pub proof fn lemma_place(
    c: Seq<Rectangle>,
    a: Seq<Rectangle>,
    i: int,
    pieces: Seq<Rectangle>,
    r: Rectangle,
    w: int,
    h: int,
)
    requires
        0 <= i < c.len(),
        pairwise_disjoint(c + a),
        all_within(c + a, w, h),
        forall|k: int|
            0 <= k < pieces.len() ==> contains(c[i], #[trigger] pieces[k]) && pieces[k].width > 0
                && pieces[k].height > 0,
        contains(c[i], r),
        r.width > 0,
        r.height > 0,
        pairwise_disjoint(pieces.push(r)),
        area(c[i]) == sum_area(pieces) + area(r),
    ensures
        pairwise_disjoint((c.remove(i) + pieces) + a.push(r)),
        all_within((c.remove(i) + pieces) + a.push(r), w, h),
        sum_area(c.remove(i) + pieces) == sum_area(c) - area(r),
        sum_area(a.push(r)) == sum_area(a) + area(r),
{
    let f = c[i];
    let s = c + a;
    let cr = c.remove(i);
    c.remove_ensures(i);
    assert(s.remove(i) =~= cr + a);
    lemma_disjoint_remove(s, i);
    assert(s[i] == f);
    lemma_disjoint_append(cr, a);
    assert forall|k: int| 0 <= k < cr.len() implies disjoint(#[trigger] cr[k], f) by {
        assert((cr + a)[k] == cr[k]);
    }
    assert forall|j: int| 0 <= j < a.len() implies disjoint(#[trigger] a[j], f) by {
        assert((cr + a)[cr.len() + j] == a[j]);
    }
    let pr = seq![r];
    assert(pieces.push(r) =~= pieces + pr);
    lemma_disjoint_append(pieces, pr);
    assert(pr[0] == r);
    assert(disjoint_from_all(pieces, r));
    let x = cr + pieces;
    let y = a.push(r);
    assert forall|k: int| 0 <= k < pieces.len() implies disjoint_from_all(cr, #[trigger] pieces[k]) by {
        assert(contains(f, pieces[k]));
    }
    lemma_disjoint_append(cr, pieces);
    assert(y =~= a + pr);
    assert(pairwise_disjoint(pr));
    assert forall|j: int| 0 <= j < pr.len() implies disjoint_from_all(a, #[trigger] pr[j]) by {
        assert(pr[j] == r);
    }
    lemma_disjoint_append(a, pr);
    assert forall|j: int| 0 <= j < y.len() implies disjoint_from_all(x, #[trigger] y[j]) by {
        assert forall|k: int| 0 <= k < x.len() implies disjoint(#[trigger] x[k], y[j]) by {
            if k < cr.len() {
                assert(x[k] == cr[k]);
                if j < a.len() {
                    assert(y[j] == a[j]);
                    assert(disjoint_from_all(cr, a[j]));
                } else {
                    assert(y[j] == r);
                    assert(disjoint(cr[k], f));
                }
            } else {
                let m = k - cr.len();
                assert(x[k] == pieces[m]);
                assert(contains(f, pieces[m]));
                if j < a.len() {
                    assert(y[j] == a[j]);
                    assert(disjoint(a[j], f));
                } else {
                    assert(y[j] == r);
                }
            }
        }
    }
    lemma_disjoint_append(x, y);
    lemma_within_append(c, a, w, h);
    lemma_all_within_remove(c, i, w, h);
    assert(within(f, w, h));
    assert forall|k: int| 0 <= k < (x + y).len() implies within(#[trigger] (x + y)[k], w, h) by {
        if k < cr.len() {
            assert((x + y)[k] == cr[k]);
        } else if k < x.len() {
            assert((x + y)[k] == pieces[k - cr.len()]);
            assert(contains(f, pieces[k - cr.len()]));
        } else if k < x.len() + a.len() {
            assert((x + y)[k] == a[k - x.len()]);
        } else {
            assert((x + y)[k] == r);
        }
    }
    lemma_sum_area_append(cr, pieces);
    lemma_sum_area_remove(c, i);
    lemma_sum_area_push(a, r);
}

} // verus!
