use vstd::prelude::*;

use crate::error::Error;
use crate::rect::{area, contains, disjoint, merge_of, within, Rectangle};
use crate::tiling::{
    all_sound, all_within, covers, disjoint_from_all, inside_some, lemma_covers_refl,
    lemma_covers_trans, lemma_disjoint_append, lemma_disjoint_insert, lemma_disjoint_remove,
    lemma_merge_step, lemma_place, lemma_sum_area_push, lemma_sum_area_remove, lemma_within_append,
    lemma_within_sound, maximal, pairwise_disjoint, sound, sum_area,
};

verus! {

/// Abstract state of an arena: its bounds and its two collections.
pub struct ArenaView {
    pub width: u32,
    pub height: u32,
    pub free: Seq<Rectangle>,
    pub allocated: Seq<Rectangle>,
}

impl ArenaView {
    /// Every rectangle the arena keeps account of, free ones first.
    pub open spec fn all_rects(self) -> Seq<Rectangle> {
        self.free + self.allocated
    }

    /// The arena is partitioned: its rectangles lie inside the bounds,
    /// have no zero extent, do not overlap, and their areas add up to the
    /// area of the arena.
    pub open spec fn wf(self) -> bool {
        &&& self.width > 0
        &&& self.height > 0
        &&& all_within(self.all_rects(), self.width as int, self.height as int)
        &&& pairwise_disjoint(self.all_rects())
        &&& sum_area(self.free) + sum_area(self.allocated) == self.width * self.height
    }

    /// Index of an allocated rectangle whose corner is `(x, y)`.
    pub open spec fn holds_id(self, i: int, x: u32, y: u32) -> bool {
        0 <= i < self.allocated.len() && self.allocated[i].x == x && self.allocated[i].y == y
    }

    /// A request that is rejected before any search.
    pub open spec fn invalid_request(self, width: u32, height: u32) -> bool {
        width == 0 || height == 0 || width > self.width || height > self.height
    }
}

/// Some free rectangle of `s` is large enough for a `width` by `height` request.
pub open spec fn some_fit(s: Seq<Rectangle>, width: u32, height: u32) -> bool {
    exists|i: int| 0 <= i < s.len() && s[i].width >= width && #[trigger] s[i].height >= height
}

/// What `allocate` does to an arena `pre`, leaving `post` and answering `res`.
pub open spec fn alloc_outcome(
    pre: ArenaView,
    width: u32,
    height: u32,
    post: ArenaView,
    res: Result<Rectangle, Error>,
) -> bool {
    &&& post.width == pre.width
    &&& post.height == pre.height
    &&& (res == Err::<Rectangle, Error>(Error::InvalidSize) <==> pre.invalid_request(width, height))
    &&& res != Err::<Rectangle, Error>(Error::RectangleNotFound)
    &&& (!pre.invalid_request(width, height) && some_fit(pre.free, width, height) ==> res.is_ok())
    &&& (res.is_err() ==> post == pre)
    &&& (res == Err::<Rectangle, Error>(Error::OutOfSpace) ==> exists|c: Seq<Rectangle>|
        #[trigger] coalescing_of(pre.free, c) && no_fit(c, width, height, Fit::Any))
    &&& (res.is_ok() ==> {
        let r = res.unwrap();
        &&& r.width == width
        &&& r.height == height
        &&& post.allocated == pre.allocated.push(r)
        &&& sum_area(post.free) == sum_area(pre.free) - width * height
        &&& exists|c: Seq<Rectangle>, i: int|
            #![trigger coalescing_of(pre.free, c), chosen(c, width, height, i)]
            coalescing_of(pre.free, c) && chosen(c, width, height, i) && r.x == c[i].x && r.y == c[i].y
                && post.free == c.remove(i) + rest_of(c[i], width, height)
    })
}

/// What `free` does to an arena `pre` given `rect`, leaving `post` and answering `res`.
pub open spec fn release_outcome(
    pre: ArenaView,
    rect: Rectangle,
    post: ArenaView,
    res: Result<(), Error>,
) -> bool {
    &&& post.width == pre.width
    &&& post.height == pre.height
    &&& (res.is_ok() <==> exists|i: int| pre.holds_id(i, rect.x, rect.y))
    &&& (res.is_err() ==> res == Err::<(), Error>(Error::RectangleNotFound) && post == pre)
    &&& (res.is_ok() ==> exists|i: int|
        pre.holds_id(i, rect.x, rect.y) && post.allocated == pre.allocated.remove(i) && post.free
            == pre.free.push(pre.allocated[i]))
}

/// What is left of a free rectangle `f` once a `width` by `height` piece is
/// cut from its top-left corner: nothing for an exact fit, the part below for
/// a full-width piece, the part to the right for a full-height piece, and
/// otherwise the part to the right (full height) and the part below the piece.
pub open spec fn rest_of(f: Rectangle, width: u32, height: u32) -> Seq<Rectangle> {
    if f.width == width && f.height == height {
        seq![]
    } else if f.width == width {
        seq![Rectangle { y: (f.y + height) as u32, height: (f.height - height) as u32, ..f }]
    } else if f.height == height {
        seq![Rectangle { x: (f.x + width) as u32, width: (f.width - width) as u32, ..f }]
    } else {
        seq![
            Rectangle { x: (f.x + width) as u32, width: (f.width - width) as u32, ..f },
            Rectangle { x: f.x, y: (f.y + height) as u32, width, height: (f.height - height) as u32 },
        ]
    }
}

/// The placement strategies, tried in this order.
pub enum Fit {
    /// Same width and height as the request.
    Exact,
    /// Same width, at least as tall.
    Width,
    /// Same height, at least as wide.
    Height,
    /// At least as wide and as tall.
    Any,
}

/// The free rectangle `r` is one that the strategy accepts for the request.
pub open spec fn fit_holds(fit: Fit, r: Rectangle, width: u32, height: u32) -> bool {
    match fit {
        Fit::Exact => r.width == width && r.height == height,
        Fit::Width => r.width == width && r.height >= height,
        Fit::Height => r.height == height && r.width >= width,
        Fit::Any => r.width >= width && r.height >= height,
    }
}

/// `s[i]` is the first entry of `s` that the strategy accepts.
pub open spec fn first_fit(s: Seq<Rectangle>, width: u32, height: u32, fit: Fit, i: int) -> bool {
    &&& 0 <= i < s.len()
    &&& fit_holds(fit, s[i], width, height)
    &&& forall|k: int| 0 <= k < i ==> !fit_holds(fit, #[trigger] s[k], width, height)
}

/// The strategy accepts no entry of `s`.
pub open spec fn no_fit(s: Seq<Rectangle>, width: u32, height: u32, fit: Fit) -> bool {
    forall|k: int| 0 <= k < s.len() ==> !fit_holds(fit, #[trigger] s[k], width, height)
}

/// `s[i]` is the free rectangle that the strategies pick for the request:
/// the first that the first accepting strategy accepts.
pub open spec fn chosen(s: Seq<Rectangle>, width: u32, height: u32, i: int) -> bool {
    let no_exact = no_fit(s, width, height, Fit::Exact);
    let no_width = no_fit(s, width, height, Fit::Width);
    let no_height = no_fit(s, width, height, Fit::Height);
    ||| first_fit(s, width, height, Fit::Exact, i)
    ||| no_exact && first_fit(s, width, height, Fit::Width, i)
    ||| no_exact && no_width && first_fit(s, width, height, Fit::Height, i)
    ||| no_exact && no_width && no_height && first_fit(s, width, height, Fit::Any, i)
}

fn fit_test(fit: &Fit, r: &Rectangle, width: u32, height: u32) -> (b: bool)
    ensures
        b == fit_holds(*fit, *r, width, height),
{
    match fit {
        Fit::Exact => r.width == width && r.height == height,
        Fit::Width => r.width == width && r.height >= height,
        Fit::Height => r.height == height && r.width >= width,
        Fit::Any => r.width >= width && r.height >= height,
    }
}

/// The first rectangle that the strategy accepts.
fn find_fit(rects: &Vec<Rectangle>, width: u32, height: u32, fit: Fit) -> (r: Option<usize>)
    ensures
        r matches Some(i) ==> i < rects@.len() && fit_holds(fit, rects@[i as int], width, height),
        r matches Some(i) ==> forall|k: int| 0 <= k < i ==> !fit_holds(fit, #[trigger] rects@[k], width, height),
        r.is_none() ==> forall|k: int| 0 <= k < rects@.len() ==> !fit_holds(fit, #[trigger] rects@[k], width, height),
{
    let mut i: usize = 0;
    while i < rects.len()
        invariant
            forall|k: int| 0 <= k < i ==> !fit_holds(fit, #[trigger] rects@[k], width, height),
        decreases rects.len() - i,
    {
        if fit_test(&fit, &rects[i], width, height) {
            return Some(i);
        }
        i += 1;
    }
    None
}

/// The free rectangle to place a request in: the first exact fit, else the
/// first of the same width, else the first of the same height, else the first
/// large enough.
fn place_in(rects: &Vec<Rectangle>, width: u32, height: u32) -> (r: Option<usize>)
    ensures
        r matches Some(i) ==> i < rects@.len() && fit_holds(Fit::Any, rects@[i as int], width, height)
            && chosen(rects@, width, height, i as int),
        r.is_none() ==> no_fit(rects@, width, height, Fit::Any),
{
    match find_fit(rects, width, height, Fit::Exact) {
        Some(i) => Some(i),
        None => match find_fit(rects, width, height, Fit::Width) {
            Some(i) => Some(i),
            None => match find_fit(rects, width, height, Fit::Height) {
                Some(i) => Some(i),
                None => find_fit(rects, width, height, Fit::Any),
            },
        },
    }
}

/// Cuts a `width` by `height` piece from the top-left corner of `f`; returns
/// the piece and what is left of `f`.
fn cut(f: Rectangle, width: u32, height: u32) -> (r: (Rectangle, Vec<Rectangle>))
    requires
        sound(f),
        0 < width <= f.width,
        0 < height <= f.height,
    ensures
        r.0 == (Rectangle { x: f.x, y: f.y, width, height }),
        r.1@ == rest_of(f, width, height),
        forall|k: int|
            0 <= k < r.1@.len() ==> contains(f, #[trigger] r.1@[k]) && r.1@[k].width > 0 && r.1@[k].height > 0,
        contains(f, r.0),
        pairwise_disjoint(r.1@.push(r.0)),
        area(f) == sum_area(r.1@) + area(r.0),
{
    let ghost e = Seq::<Rectangle>::empty();
    let mut rest: Vec<Rectangle> = Vec::new();
    let piece;
    if f.width == width && f.height == height {
        piece = f;
        proof {
            assert(rest@.push(piece) =~= seq![piece]);
        }
    } else if f.width == width {
        let (top, below) = f.split_v(height);
        append_rect(&mut rest, below);
        piece = top;
        proof {
            lemma_sum_area_push(e, below);
            assert(rest@ =~= e.push(below));
            assert(area(f) == area(below) + area(top)) by (nonlinear_arith)
                requires
                    f.width == below.width,
                    f.width == top.width,
                    f.height == below.height + top.height,
            ;
            assert(disjoint(below, top));
            assert(rest@.push(piece) =~= seq![below, top]);
        }
    } else if f.height == height {
        let (left, right) = f.split_h(width);
        append_rect(&mut rest, right);
        piece = left;
        proof {
            lemma_sum_area_push(e, right);
            assert(rest@ =~= e.push(right));
            assert(area(f) == area(right) + area(left)) by (nonlinear_arith)
                requires
                    f.height == right.height,
                    f.height == left.height,
                    f.width == right.width + left.width,
            ;
            assert(disjoint(right, left));
            assert(rest@.push(piece) =~= seq![right, left]);
        }
    } else {
        let (column, right) = f.split_h(width);
        append_rect(&mut rest, right);
        let (top, below) = column.split_v(height);
        append_rect(&mut rest, below);
        piece = top;
        proof {
            lemma_sum_area_push(e, right);
            lemma_sum_area_push(e.push(right), below);
            assert(rest@ =~= e.push(right).push(below));
            assert(area(f) == area(right) + area(below) + area(top)) by (nonlinear_arith)
                requires
                    f.height == right.height,
                    column.height == f.height,
                    f.width == right.width + column.width,
                    column.width == below.width,
                    column.width == top.width,
                    column.height == below.height + top.height,
            ;
            assert(disjoint(right, below) && disjoint(right, top) && disjoint(below, top));
            assert(rest@.push(piece) =~= seq![right, below, top]);
        }
    }
    (piece, rest)
}

/// A 2D arena for allocating rectangles.
pub struct Arena {
    width: u32,
    height: u32,
    allocated: Vec<Rectangle>,
    free: Vec<Rectangle>,
}

impl View for Arena {
    type V = ArenaView;

    closed spec fn view(&self) -> ArenaView {
        ArenaView {
            width: self.width,
            height: self.height,
            free: self.free@,
            allocated: self.allocated@,
        }
    }
}

/// Adds `rect` to the collection.
pub fn append_rect(rects: &mut Vec<Rectangle>, rect: Rectangle)
    ensures
        final(rects)@ == old(rects)@.push(rect),
{
    rects.push(rect);
}

/// The first pair `i < j` of mergeable rectangles, with their merge.
fn find_mergeable(rects: &Vec<Rectangle>) -> (r: Option<(usize, usize, Rectangle)>)
    requires
        all_sound(rects@),
    ensures
        r.is_none() ==> maximal(rects@),
        r matches Some((i, j, m)) ==> i < j < rects@.len() && merge_of(rects@[i as int], rects@[j as int])
            == Some(m),
{
    let mut i: usize = 0;
    while i < rects.len()
        invariant
            all_sound(rects@),
            forall|a: int, b: int|
                0 <= a < i && a < b < rects@.len() ==> merge_of(#[trigger] rects@[a], #[trigger] rects@[b]).is_none(),
        decreases rects.len() - i,
    {
        let mut j: usize = i + 1;
        while j < rects.len()
            invariant
                i < rects.len(),
                i < j,
                all_sound(rects@),
                forall|a: int, b: int|
                    0 <= a < i && a < b < rects@.len() ==> merge_of(#[trigger] rects@[a], #[trigger] rects@[b]).is_none(),
                forall|b: int| i < b < j ==> merge_of(rects@[i as int], #[trigger] rects@[b]).is_none(),
            decreases rects.len() - j,
        {
            if let Some(m) = rects[i].coalesce(&rects[j]) {
                return Some((i, j, m));
            }
            j += 1;
        }
        i += 1;
    }
    None
}

/// `after` is a result of coalescing `before`: no two of its rectangles can
/// be merged, it is `before` itself when nothing could be merged there, and it
/// covers the same rectangles with the same total area.
pub open spec fn coalescing_of(before: Seq<Rectangle>, after: Seq<Rectangle>) -> bool {
    &&& maximal(after)
    &&& (maximal(before) ==> after == before)
    &&& all_sound(after)
    &&& pairwise_disjoint(after)
    &&& sum_area(after) == sum_area(before)
    &&& covers(after, before)
}

/// Merges adjacent rectangles until no two of them can be merged, and
/// returns how many merges were made. A collection in which no merge is
/// possible is left as it is, so a second pass right after a first changes
/// nothing.
pub fn coalesce_all(rects: &mut Vec<Rectangle>) -> (n: usize)
    requires
        all_sound(old(rects)@),
        pairwise_disjoint(old(rects)@),
    ensures
        coalescing_of(old(rects)@, final(rects)@),
        n + final(rects)@.len() == old(rects)@.len(),
        forall|w: int, h: int| all_within(old(rects)@, w, h) ==> #[trigger] all_within(final(rects)@, w, h),
        forall|r: Rectangle|
            r.width > 0 && r.height > 0 && disjoint_from_all(old(rects)@, r)
                ==> #[trigger] disjoint_from_all(final(rects)@, r),
{
    let ghost start = rects@;
    proof {
        lemma_covers_refl(start);
    }
    let total = rects.len();
    let mut n: usize = 0;
    loop
        invariant
            start == old(rects)@,
            start.len() == total,
            all_sound(rects@),
            pairwise_disjoint(rects@),
            n + rects@.len() == start.len(),
            n == 0 ==> rects@ == start,
            maximal(start) ==> n == 0,
            sum_area(rects@) == sum_area(start),
            covers(rects@, start),
            forall|w: int, h: int| all_within(start, w, h) ==> #[trigger] all_within(rects@, w, h),
            forall|r: Rectangle|
                r.width > 0 && r.height > 0 && disjoint_from_all(start, r)
                    ==> #[trigger] disjoint_from_all(rects@, r),
        decreases rects@.len(),
    {
        match find_mergeable(rects) {
            None => {
                return n;
            },
            Some((i, j, m)) => {
                let ghost s = rects@;
                proof {
                    lemma_merge_step(s, i as int, j as int);
                    lemma_covers_trans(s.remove(j as int).remove(i as int).push(m), s, start);
                }
                rects.remove(j);
                rects.remove(i);
                append_rect(rects, m);
                n += 1;
            },
        }
    }
}

/// The coalesced free list `c` still partitions the arena together with the
/// allocated rectangles, and still holds a large enough rectangle where the
/// free list did.
proof fn lemma_after_coalescing(pre: ArenaView, c: Seq<Rectangle>, width: u32, height: u32)
    requires
        pre.wf(),
        pairwise_disjoint(c),
        sum_area(c) == sum_area(pre.free),
        covers(c, pre.free),
        forall|w: int, h: int| all_within(pre.free, w, h) ==> #[trigger] all_within(c, w, h),
        forall|r: Rectangle|
            r.width > 0 && r.height > 0 && disjoint_from_all(pre.free, r)
                ==> #[trigger] disjoint_from_all(c, r),
    ensures
        pairwise_disjoint(c + pre.allocated),
        all_within(c + pre.allocated, pre.width as int, pre.height as int),
        all_within(c, pre.width as int, pre.height as int),
        all_sound(c),
        some_fit(pre.free, width, height) ==> exists|m: int|
            0 <= m < c.len() && #[trigger] fit_holds(Fit::Any, c[m], width, height),
{
    let w = pre.width as int;
    let h = pre.height as int;
    lemma_disjoint_append(pre.free, pre.allocated);
    lemma_within_append(pre.free, pre.allocated, w, h);
    assert forall|j: int| 0 <= j < pre.allocated.len() implies disjoint_from_all(
        c,
        #[trigger] pre.allocated[j],
    ) by {
        assert(within(pre.allocated[j], w, h));
        assert(disjoint_from_all(pre.free, pre.allocated[j]));
    }
    lemma_disjoint_append(c, pre.allocated);
    assert(all_within(c, w, h));
    lemma_within_append(c, pre.allocated, w, h);
    lemma_within_sound(c, w, h);
    if some_fit(pre.free, width, height) {
        let k = choose|k: int|
            0 <= k < pre.free.len() && pre.free[k].width >= width && #[trigger] pre.free[k].height >= height;
        assert(inside_some(c, pre.free[k]));
        let m = choose|m: int| 0 <= m < c.len() && #[trigger] contains(c[m], pre.free[k]);
        assert(fit_holds(Fit::Any, c[m], width, height));
    }
}

/// Placing `piece` from `c[i]`, with the pieces left over going back to the
/// free list, gives a well-formed arena `post`.
proof fn lemma_after_placing(
    pre: ArenaView,
    c: Seq<Rectangle>,
    i: int,
    pieces: Seq<Rectangle>,
    piece: Rectangle,
    post: ArenaView,
)
    requires
        pre.wf(),
        0 <= i < c.len(),
        pairwise_disjoint(c + pre.allocated),
        all_within(c + pre.allocated, pre.width as int, pre.height as int),
        sum_area(c) == sum_area(pre.free),
        forall|k: int|
            0 <= k < pieces.len() ==> contains(c[i], #[trigger] pieces[k]) && pieces[k].width > 0
                && pieces[k].height > 0,
        contains(c[i], piece),
        piece.width > 0,
        piece.height > 0,
        pairwise_disjoint(pieces.push(piece)),
        area(c[i]) == sum_area(pieces) + area(piece),
        post.width == pre.width,
        post.height == pre.height,
        post.free == c.remove(i) + pieces,
        post.allocated == pre.allocated.push(piece),
    ensures
        post.wf(),
        sum_area(post.free) == sum_area(pre.free) - area(piece),
{
    lemma_place(c, pre.allocated, i, pieces, piece, pre.width as int, pre.height as int);
}

impl Arena {
    /// Create a new arena with the given width and height; all of it is free.
    pub fn new(width: u32, height: u32) -> (r: Self)
        requires
            width > 0,
            height > 0,
        ensures
            r@.wf(),
            r@.width == width,
            r@.height == height,
            r@.free == seq![Rectangle { x: 0, y: 0, width, height }],
            r@.allocated == Seq::<Rectangle>::empty(),
    {
        let mut free: Vec<Rectangle> = Vec::new();
        let whole = Rectangle { x: 0, y: 0, width, height };
        append_rect(&mut free, whole);
        let r = Arena { width, height, allocated: Vec::new(), free };
        proof {
            assert(r@.all_rects() =~= seq![whole]);
            lemma_sum_area_push(Seq::<Rectangle>::empty(), whole);
            assert(seq![whole] =~= Seq::<Rectangle>::empty().push(whole));
        }
        r
    }

    /// The bounds of the arena.
    pub fn dimensions(&self) -> (r: (u32, u32))
        ensures
            r == (self@.width, self@.height),
    {
        (self.width, self.height)
    }

    /// The rectangles currently allocated, in no particular order.
    pub fn allocated(&self) -> (r: Vec<Rectangle>)
        ensures
            r@ == self@.allocated,
    {
        let r = self.allocated.clone();
        assert(r@ =~= self.allocated@);
        r
    }

    /// Allocate a rectangle of the given width and height.
    ///
    /// Free space is first coalesced, then the first free rectangle found by
    /// the strategies exact fit, same width, same height and any fit (in that
    /// order) gives up its top-left corner. Fails when the size is invalid or
    /// no free rectangle is large enough; a failed call changes nothing.
    pub fn allocate(&mut self, width: u32, height: u32) -> (r: Result<Rectangle, Error>)
        requires
            old(self)@.wf(),
        ensures
            final(self)@.wf(),
            alloc_outcome(old(self)@, width, height, final(self)@, r),
    {
        if width == 0 || height == 0 || width > self.width || height > self.height {
            return Err(Error::InvalidSize);
        }
        let ghost pre = self@;
        let mut free = self.free.clone();
        assert(free@ =~= pre.free);
        proof {
            lemma_disjoint_append(pre.free, pre.allocated);
            lemma_within_append(pre.free, pre.allocated, pre.width as int, pre.height as int);
            lemma_within_sound(pre.free, pre.width as int, pre.height as int);
        }
        coalesce_all(&mut free);
        let ghost c = free@;
        proof {
            lemma_after_coalescing(pre, c, width, height);
        }
        let i = match place_in(&free, width, height) {
            Some(i) => i,
            None => {
                assert(coalescing_of(pre.free, c));
                return Err(Error::OutOfSpace);
            },
        };
        let f = free.remove(i);
        let (piece, mut rest) = cut(f, width, height);
        let ghost pieces = rest@;
        free.append(&mut rest);
        self.free = free;
        self.allocated.push(piece);
        proof {
            lemma_after_placing(pre, c, i as int, pieces, piece, self@);
            assert(coalescing_of(pre.free, c) && chosen(c, width, height, i as int));
        }
        Ok(piece)
    }

    /// Deallocate the given rectangle and free the area to be allocated again.
    /// The rectangle is found by its corner; it fails when none allocated has it.
    pub fn free(&mut self, rect: Rectangle) -> (r: Result<(), Error>)
        requires
            old(self)@.wf(),
        ensures
            final(self)@.wf(),
            release_outcome(old(self)@, rect, final(self)@, r),
    {
        let ghost pre = self@;
        let mut i: usize = 0;
        while i < self.allocated.len() && !(self.allocated[i].x == rect.x
            && self.allocated[i].y == rect.y)
            invariant
                self@ == pre,
                i <= self.allocated@.len(),
                forall|k: int| 0 <= k < i ==> !(#[trigger] pre.holds_id(k, rect.x, rect.y)),
            decreases self.allocated.len() - i,
        {
            i += 1;
        }
        if i == self.allocated.len() {
            return Err(Error::RectangleNotFound);
        }
        assert(pre.holds_id(i as int, rect.x, rect.y));
        let found = self.allocated.remove(i);
        append_rect(&mut self.free, found);
        proof {
            let s = pre.all_rects();
            let k = pre.free.len() + i;
            assert(s[k] == found);
            assert(s.remove(k) =~= pre.free + pre.allocated.remove(i as int));
            lemma_disjoint_remove(s, k);
            assert(s.remove(k).insert(pre.free.len() as int, found) =~= self@.all_rects());
            lemma_disjoint_insert(s.remove(k), pre.free.len() as int, found);
            lemma_sum_area_remove(pre.allocated, i as int);
            lemma_sum_area_push(pre.free, found);
            assert forall|j: int| 0 <= j < self@.all_rects().len() implies
                #[trigger] crate::rect::within(self@.all_rects()[j], pre.width as int, pre.height as int) by {
                if j < pre.free.len() {
                    assert(self@.all_rects()[j] == s[j]);
                } else if j == pre.free.len() {
                    assert(self@.all_rects()[j] == s[k]);
                } else {
                    let a = j - pre.free.len() - 1;
                    if a < i {
                        assert(self@.all_rects()[j] == s[j - 1]);
                    } else {
                        assert(self@.all_rects()[j] == s[j]);
                    }
                }
            }
        }
        Ok(())
    }
}

} // verus!
