//! The free-list sub-allocator's theory: a block's capacity is segmented into
//! a list of extents (used regions and coalesced free regions) ordered by
//! offset. Placement and release are defined as functions on extent
//! sequences, and the executable block operations promise to compute exactly
//! them. The partition law and the allocate-then-free round-trip law are
//! proved here.

use vstd::prelude::*;
use vstd::arithmetic::div_mod::lemma_fundamental_div_mod;
use vstd::arithmetic::div_mod::lemma_mod_multiples_basic;

verus! {

/// One segment of a block: either a region handed out to an allocation
/// (`used`) or a free region. Used extents carry the geometry of the user
/// region they contain: `user_off`/`user_size` (the span handed to the
/// caller), the alignment it was placed with, and the identity of the
/// allocation record that owns it.
#[derive(Debug, Clone, Copy, PartialEq, Eq, Structural)]
pub struct Extent {
    pub offset: usize,
    pub size: usize,
    pub used: bool,
    pub id: usize,
    pub user_off: usize,
    pub user_size: usize,
    pub align: usize,
}

/// How a free region is chosen among those that fit.
#[derive(Debug, Clone, Copy, PartialEq, Eq, Structural)]
pub enum Strategy {
    FirstFit,
    BestFit,
    WorstFit,
}

/// The least multiple of `a` that is at least `x`.
pub open spec fn align_up(x: int, a: int) -> int
    recommends
        a >= 1,
{
    ((x + a - 1) / a) * a
}

/// A used extent contains its user region with `margin` guard bytes on each
/// side, the user region is aligned, and nothing sticks out of the extent.
pub open spec fn used_geom_ok(e: Extent, margin: usize) -> bool {
    &&& e.offset + margin <= e.user_off
    &&& e.user_off + e.user_size + margin <= e.offset + e.size
    &&& e.user_size >= 1
    &&& e.align >= 1
    &&& e.user_off as int % e.align as int == 0
}

/// Free extents are normalized so that equal free structure means equal
/// sequences.
pub open spec fn ext_ok(e: Extent, margin: usize) -> bool {
    &&& e.size > 0
    &&& if e.used {
        used_geom_ok(e, margin)
    } else {
        e.id == 0 && e.user_off == 0 && e.user_size == 0 && e.align == 1
    }
}

/// Segmentation of a block of capacity `cap`: extents tile `[0, cap)` in
/// order, with no gap and no overlap, free regions are coalesced (no two
/// adjacent), and used extents have pairwise distinct owners.
pub open spec fn exts_wf(s: Seq<Extent>, cap: usize, margin: usize) -> bool {
    &&& (s.len() == 0 ==> cap == 0)
    &&& (s.len() > 0 ==> s[0].offset == 0 && s[s.len() - 1].offset + s[s.len() - 1].size == cap)
    &&& (forall|i: int| 0 <= i < s.len() ==> ext_ok(#[trigger] s[i], margin))
    &&& (forall|i: int|
        0 <= i < s.len() - 1 ==> ((#[trigger] s[i]).offset + s[i].size == s[i + 1].offset && (
        s[i].used || s[i + 1].used)))
    &&& (forall|i: int, j: int|
        0 <= i < j < s.len() && (#[trigger] s[i]).used && (#[trigger] s[j]).used ==> s[i].id
            != s[j].id)
}

/// Bytes covered by used extents (alignment padding and guard margins
/// included: they are unusable while the allocation lives).
pub open spec fn used_total(s: Seq<Extent>) -> int
    decreases s.len(),
{
    if s.len() == 0 {
        0
    } else {
        used_total(s.drop_last()) + if s.last().used {
            s.last().size as int
        } else {
            0
        }
    }
}

/// Bytes covered by free extents.
pub open spec fn free_total(s: Seq<Extent>) -> int
    decreases s.len(),
{
    if s.len() == 0 {
        0
    } else {
        free_total(s.drop_last()) + if s.last().used {
            0int
        } else {
            s.last().size as int
        }
    }
}

/// Number of free extents.
pub open spec fn free_count(s: Seq<Extent>) -> int
    decreases s.len(),
{
    if s.len() == 0 {
        0
    } else {
        free_count(s.drop_last()) + if s.last().used {
            0int
        } else {
            1int
        }
    }
}

/// Number of used extents.
pub open spec fn used_count(s: Seq<Extent>) -> int
    decreases s.len(),
{
    if s.len() == 0 {
        0
    } else {
        used_count(s.drop_last()) + if s.last().used {
            1int
        } else {
            0int
        }
    }
}

/// Size of the largest free extent.
pub open spec fn largest_free(s: Seq<Extent>) -> int
    decreases s.len(),
{
    if s.len() == 0 {
        0
    } else {
        let rest = largest_free(s.drop_last());
        let here = if s.last().used {
            0int
        } else {
            s.last().size as int
        };
        if here > rest {
            here
        } else {
            rest
        }
    }
}

/// Whether some used extent is owned by record `id`.
pub open spec fn has_used(s: Seq<Extent>, id: usize) -> bool {
    exists|k: int| 0 <= k < s.len() && (#[trigger] s[k]).used && s[k].id == id
}

/// Index of the used extent owned by `id` (unique under `exts_wf`).
pub open spec fn used_at(s: Seq<Extent>, id: usize) -> int {
    choose|k: int| 0 <= k < s.len() && (#[trigger] s[k]).used && s[k].id == id
}

/// The used extent owned by `id`.
pub open spec fn used_ext(s: Seq<Extent>, id: usize) -> Extent {
    s[used_at(s, id)]
}

/// Offset the user region would get inside free extent `e`.
pub open spec fn user_off_in(e: Extent, align: usize, margin: usize) -> int {
    align_up(e.offset + margin, align as int)
}

/// Whether a request of `usz` user bytes, aligned to `align` and guarded by
/// `margin` bytes on each side, fits inside the free extent `e`.
pub open spec fn can_place(e: Extent, usz: usize, align: usize, margin: usize) -> bool {
    &&& !e.used
    &&& user_off_in(e, align, margin) + usz + margin <= e.offset + e.size
}

/// Free bytes that would remain at the tail of `e` after placing the request
/// there; best-fit minimizes this, worst-fit maximizes it.
pub open spec fn leftover(e: Extent, usz: usize, align: usize, margin: usize) -> int {
    e.offset + e.size - (user_off_in(e, align, margin) + usz + margin)
}

/// Whether index `i` is the extent the given strategy picks.
pub open spec fn picked(s: Seq<Extent>, i: int, usz: usize, align: usize, margin: usize, strat: Strategy) -> bool {
    &&& 0 <= i < s.len()
    &&& can_place(s[i], usz, align, margin)
    &&& match strat {
        Strategy::FirstFit => forall|j: int|
            0 <= j < i ==> !can_place(#[trigger] s[j], usz, align, margin),
        Strategy::BestFit => forall|j: int|
            0 <= j < s.len() && can_place(#[trigger] s[j], usz, align, margin) ==> (leftover(
                s[i],
                usz,
                align,
                margin,
            ) < leftover(s[j], usz, align, margin) || (leftover(s[i], usz, align, margin)
                == leftover(s[j], usz, align, margin) && i <= j)),
        Strategy::WorstFit => forall|j: int|
            0 <= j < s.len() && can_place(#[trigger] s[j], usz, align, margin) ==> (leftover(
                s[i],
                usz,
                align,
                margin,
            ) > leftover(s[j], usz, align, margin) || (leftover(s[i], usz, align, margin)
                == leftover(s[j], usz, align, margin) && i <= j)),
    }
}

/// A normalized free extent.
pub open spec fn free_ext(offset: int, size: int) -> Extent {
    Extent {
        offset: offset as usize,
        size: size as usize,
        used: false,
        id: 0,
        user_off: 0,
        user_size: 0,
        align: 1,
    }
}

/// The used extent created by placing a request inside free extent `e`.
pub open spec fn placed_used(e: Extent, usz: usize, align: usize, margin: usize, id: usize) -> Extent {
    let u = user_off_in(e, align, margin);
    Extent {
        offset: (u - margin) as usize,
        size: (usz + 2 * margin) as usize,
        used: true,
        id,
        user_off: u as usize,
        user_size: usz,
        align,
    }
}

/// What placing a request inside free extent `e` leaves behind: an optional
/// leading free extent, the used extent, and an optional trailing free
/// extent.
pub open spec fn placed_pieces(e: Extent, usz: usize, align: usize, margin: usize, id: usize) -> Seq<
    Extent,
> {
    let u = user_off_in(e, align, margin);
    let start = u - margin;
    let end = u + usz + margin;
    let front: Seq<Extent> = if start > e.offset {
        seq![free_ext(e.offset as int, start - e.offset)]
    } else {
        Seq::empty()
    };
    let back: Seq<Extent> = if end < e.offset + e.size {
        seq![free_ext(end, e.offset + e.size - end)]
    } else {
        Seq::empty()
    };
    front + seq![placed_used(e, usz, align, margin, id)] + back
}

/// The extent sequence after placing a request inside extent `i` of `s`.
pub open spec fn place_in(s: Seq<Extent>, i: int, usz: usize, align: usize, margin: usize, id: usize) -> Seq<
    Extent,
> {
    s.take(i) + placed_pieces(s[i], usz, align, margin, id) + s.skip(i + 1)
}

/// Index of the used extent inside `place_in(s, i, ...)`.
pub open spec fn placed_pos(s: Seq<Extent>, i: int, align: usize, margin: usize) -> int {
    if user_off_in(s[i], align, margin) - margin > s[i].offset {
        i + 1
    } else {
        i
    }
}

/// The extent sequence after releasing the used extent at index `k`: it
/// becomes free and is merged with its free neighbors.
pub open spec fn free_merge(s: Seq<Extent>, k: int) -> Seq<Extent> {
    let lo = if k > 0 && !s[k - 1].used {
        k - 1
    } else {
        k
    };
    let hi = if k + 1 < s.len() && !s[k + 1].used {
        k + 1
    } else {
        k
    };
    let merged = free_ext(s[lo].offset as int, s[hi].offset + s[hi].size - s[lo].offset);
    s.take(lo) + seq![merged] + s.skip(hi + 1)
}

/// Least-multiple properties of `align_up`.
pub proof fn lemma_align_up(x: int, a: int)
    requires
        a >= 1,
        x >= 0,
    ensures
        x <= align_up(x, a) <= x + a - 1,
        align_up(x, a) % a == 0,
{
    lemma_fundamental_div_mod(x + a - 1, a);
    let q = (x + a - 1) / a;
    let r = (x + a - 1) % a;
    assert(q * a == a * q) by (nonlinear_arith);
    assert(align_up(x, a) == x + a - 1 - r);
    lemma_mod_multiples_basic(q, a);
}

/// Any aligned position at or above `x` is at least `align_up(x, a)`.
pub proof fn lemma_align_up_least(x: int, a: int, y: int)
    requires
        a >= 1,
        x >= 0,
        y >= x,
        y % a == 0,
    ensures
        y >= align_up(x, a),
{
    lemma_align_up(x, a);
    let u = align_up(x, a);
    if y < u {
        lemma_fundamental_div_mod(y, a);
        lemma_fundamental_div_mod(u, a);
        let qy = y / a;
        let qu = u / a;
        assert(y == a * qy + 0);
        assert(u == a * qu + 0);
        assert(u - y <= a - 1);
        assert(false) by (nonlinear_arith)
            requires
                a >= 1,
                1 <= a * qu - a * qy,
                a * qu - a * qy <= a - 1,
        ;
    }
}

/// Sums split over concatenation.
pub proof fn lemma_sums_concat(a: Seq<Extent>, b: Seq<Extent>)
    ensures
        used_total(a + b) == used_total(a) + used_total(b),
        free_total(a + b) == free_total(a) + free_total(b),
        free_count(a + b) == free_count(a) + free_count(b),
        used_count(a + b) == used_count(a) + used_count(b),
    decreases b.len(),
{
    if b.len() == 0 {
        assert(a + b =~= a);
    } else {
        lemma_sums_concat(a, b.drop_last());
        assert((a + b).drop_last() =~= a + b.drop_last());
        assert((a + b).last() == b.last());
    }
}

/// Sums of a one-extent sequence.
pub proof fn lemma_singleton(e: Extent)
    ensures
        e.used ==> used_total(seq![e]) == e.size && free_total(seq![e]) == 0 && free_count(
            seq![e],
        ) == 0 && used_count(seq![e]) == 1 && largest_free(seq![e]) == 0,
        !e.used ==> used_total(seq![e]) == 0 && free_total(seq![e]) == e.size && free_count(
            seq![e],
        ) == 1 && used_count(seq![e]) == 0 && largest_free(seq![e]) == e.size,
{
    assert(used_total(Seq::<Extent>::empty()) == 0);
    assert(free_total(Seq::<Extent>::empty()) == 0);
    assert(free_count(Seq::<Extent>::empty()) == 0);
    assert(used_count(Seq::<Extent>::empty()) == 0);
    assert(largest_free(Seq::<Extent>::empty()) == 0);
    assert(seq![e].drop_last() =~= Seq::<Extent>::empty());
    assert(seq![e].last() == e);
}

/// A sequence is its left part, the element at `i`, and its right part.
pub proof fn lemma_split3(s: Seq<Extent>, i: int)
    requires
        0 <= i < s.len(),
    ensures
        s =~= s.take(i) + seq![s[i]] + s.skip(i + 1),
{
}

/// Every extent of a well-formed block lies inside the capacity.
pub proof fn lemma_extent_in_range(s: Seq<Extent>, cap: usize, margin: usize, i: int)
    requires
        exts_wf(s, cap, margin),
        0 <= i < s.len(),
    ensures
        s[i].offset + s[i].size <= cap,
    decreases s.len() - i,
{
    if i == s.len() - 1 {
    } else {
        lemma_extent_in_range(s, cap, margin, i + 1);
        assert(s[i].offset + s[i].size == s[i + 1].offset);
    }
}

/// Extents tile a contiguous range, so the covered bytes are exactly the
/// span from the first offset to the last end.
proof fn lemma_span_total(s: Seq<Extent>)
    requires
        s.len() > 0,
        forall|i: int|
            0 <= i < s.len() - 1 ==> (#[trigger] s[i]).offset + s[i].size == s[i + 1].offset,
    ensures
        used_total(s) + free_total(s) == s[s.len() - 1].offset + s[s.len() - 1].size - s[0].offset,
    decreases s.len(),
{
    if s.len() == 1 {
        lemma_singleton(s[0]);
        assert(s =~= seq![s[0]]);
    } else {
        let p = s.drop_last();
        assert forall|i: int|
            0 <= i < p.len() - 1 implies (#[trigger] p[i]).offset + p[i].size == p[i
            + 1].offset by {
            assert(p[i] == s[i] && p[i + 1] == s[i + 1]);
        }
        lemma_span_total(p);
        assert(p[p.len() - 1] == s[s.len() - 2] && p[0] == s[0]);
        assert(s[s.len() - 2].offset + s[s.len() - 2].size == s[s.len() - 1].offset);
    }
}

/// The partition law: in a well-formed block the used and free extents
/// together cover exactly the block's capacity — no overlap, no gap. It
/// holds after every operation, because every operation preserves `exts_wf`.
pub proof fn lemma_block_partition(s: Seq<Extent>, cap: usize, margin: usize)
    requires
        exts_wf(s, cap, margin),
    ensures
        used_total(s) + free_total(s) == cap,
{
    if s.len() > 0 {
        assert forall|i: int|
            0 <= i < s.len() - 1 implies (#[trigger] s[i]).offset + s[i].size == s[i
            + 1].offset by {}
        lemma_span_total(s);
    }
}

/// The used extent owned by a given record is unique in a well-formed block.
pub proof fn lemma_used_unique(s: Seq<Extent>, cap: usize, margin: usize, id: usize)
    requires
        exts_wf(s, cap, margin),
        has_used(s, id),
    ensures
        0 <= used_at(s, id) < s.len(),
        s[used_at(s, id)].used,
        s[used_at(s, id)].id == id,
        forall|k: int|
            0 <= k < s.len() && (#[trigger] s[k]).used && s[k].id == id ==> k == used_at(s, id),
{
    let w = used_at(s, id);
    assert(0 <= w < s.len() && s[w].used && s[w].id == id);
    assert forall|k: int|
        0 <= k < s.len() && (#[trigger] s[k]).used && s[k].id == id implies k == w by {
        if k < w {
            assert(s[k].id != s[w].id);
        } else if w < k {
            assert(s[w].id != s[k].id);
        }
    }
}

/// Free statistics are non-negative, and vanish with no free region.
pub proof fn lemma_free_nonneg(s: Seq<Extent>)
    ensures
        free_count(s) >= 0,
        free_total(s) >= 0,
        largest_free(s) >= 0,
        free_count(s) == 0 ==> free_total(s) == 0 && largest_free(s) == 0,
    decreases s.len(),
{
    if s.len() > 0 {
        lemma_free_nonneg(s.drop_last());
    }
}

/// The largest free region never exceeds the free total.
pub proof fn lemma_largest_le_total(s: Seq<Extent>)
    ensures
        0 <= largest_free(s) <= free_total(s),
    decreases s.len(),
{
    if s.len() > 0 {
        lemma_largest_le_total(s.drop_last());
    }
}

/// With at most one free region, that region is the whole free space.
pub proof fn lemma_single_free_region(s: Seq<Extent>)
    requires
        free_count(s) <= 1,
    ensures
        largest_free(s) == free_total(s),
    decreases s.len(),
{
    if s.len() > 0 {
        let p = s.drop_last();
        lemma_free_nonneg(p);
        lemma_single_free_region(p);
        lemma_largest_le_total(p);
        if !s.last().used {
            assert(free_count(p) == free_count(s) - 1);
        }
    }
}

/// How many extents `placed_pieces` puts in front of the used one.
pub open spec fn front_len(e: Extent, align: usize, margin: usize) -> int {
    if user_off_in(e, align, margin) - margin > e.offset {
        1
    } else {
        0
    }
}

/// Whether `placed_pieces` leaves a trailing free extent.
pub open spec fn back_len(e: Extent, usz: usize, align: usize, margin: usize) -> int {
    if user_off_in(e, align, margin) + usz + margin < e.offset + e.size {
        1
    } else {
        0
    }
}

/// Shape of the sequence after a placement: lengths and index
/// correspondence with the old sequence.
proof fn lemma_place_shape(
    s: Seq<Extent>,
    cap: usize,
    margin: usize,
    i: int,
    usz: usize,
    align: usize,
    id: usize,
)
    requires
        exts_wf(s, cap, margin),
        0 <= i < s.len(),
        can_place(s[i], usz, align, margin),
        usz >= 1,
        align >= 1,
    ensures
        s[i].offset + margin <= user_off_in(s[i], align, margin),
        user_off_in(s[i], align, margin) % (align as int) == 0,
        s[i].offset + s[i].size <= cap,
        placed_pieces(s[i], usz, align, margin, id).len() == front_len(s[i], align, margin) + 1
            + back_len(s[i], usz, align, margin),
        place_in(s, i, usz, align, margin, id).len() == s.len() + front_len(s[i], align, margin)
            + back_len(s[i], usz, align, margin),
        forall|j: int| 0 <= j < i ==> place_in(s, i, usz, align, margin, id)[j] == s[j],
        forall|j: int|
            i + front_len(s[i], align, margin) + 1 + back_len(s[i], usz, align, margin) <= j
                < place_in(s, i, usz, align, margin, id).len() ==> place_in(
                s,
                i,
                usz,
                align,
                margin,
                id,
            )[j] == s[j - front_len(s[i], align, margin) - back_len(s[i], usz, align, margin)],
        place_in(s, i, usz, align, margin, id)[i + front_len(s[i], align, margin)] == placed_used(
            s[i],
            usz,
            align,
            margin,
            id,
        ),
        front_len(s[i], align, margin) == 1 ==> place_in(s, i, usz, align, margin, id)[i]
            == free_ext(
            s[i].offset as int,
            user_off_in(s[i], align, margin) - margin - s[i].offset,
        ),
        back_len(s[i], usz, align, margin) == 1 ==> place_in(s, i, usz, align, margin, id)[i
            + front_len(s[i], align, margin) + 1] == free_ext(
            user_off_in(s[i], align, margin) + usz + margin,
            s[i].offset + s[i].size - (user_off_in(s[i], align, margin) + usz + margin),
        ),
        placed_used(s[i], usz, align, margin, id).offset == user_off_in(s[i], align, margin)
            - margin,
        placed_used(s[i], usz, align, margin, id).size == usz + 2 * margin,
        placed_used(s[i], usz, align, margin, id).user_off == user_off_in(s[i], align, margin),
{
    let e = s[i];
    lemma_align_up(e.offset + margin, align as int);
    lemma_extent_in_range(s, cap, margin, i);
    let u = user_off_in(e, align, margin);
    let start = u - margin;
    let end = u + usz + margin;
    assert(e.offset <= start && end <= e.offset + e.size);
    let fl = front_len(e, align, margin);
    let bl = back_len(e, usz, align, margin);
    let pieces = placed_pieces(e, usz, align, margin, id);
    assert(pieces.len() == fl + 1 + bl);
    assert(pieces[fl] == placed_used(e, usz, align, margin, id));
    let t = place_in(s, i, usz, align, margin, id);
    assert(t.len() == i + pieces.len() + (s.len() - i - 1));
    assert(forall|j: int| 0 <= j < i ==> t[j] == s.take(i)[j]);
    assert(forall|j: int| i + fl + 1 + bl <= j < t.len() ==> t[j] == s.skip(i + 1)[j - i - fl - 1
        - bl]);
}

/// Placement keeps the block well-formed.
#[verifier::rlimit(100)]
#[verifier::spinoff_prover]
proof fn lemma_place_keeps_wf(
    s: Seq<Extent>,
    cap: usize,
    margin: usize,
    i: int,
    usz: usize,
    align: usize,
    id: usize,
)
    requires
        exts_wf(s, cap, margin),
        0 <= i < s.len(),
        can_place(s[i], usz, align, margin),
        usz >= 1,
        align >= 1,
        forall|k: int| 0 <= k < s.len() && (#[trigger] s[k]).used ==> s[k].id != id,
    ensures
        exts_wf(place_in(s, i, usz, align, margin, id), cap, margin),
{
    let e = s[i];
    lemma_place_shape(s, cap, margin, i, usz, align, id);
    let u = user_off_in(e, align, margin);
    let start = u - margin;
    let end = u + usz + margin;
    let fl = front_len(e, align, margin);
    let bl = back_len(e, usz, align, margin);
    let pu = placed_used(e, usz, align, margin, id);
    let t = place_in(s, i, usz, align, margin, id);
    assert(ext_ok(pu, margin)) by {
        assert(pu.user_off as int % pu.align as int == 0);
    }
    assert forall|j: int| 0 <= j < t.len() implies ext_ok(#[trigger] t[j], margin) by {
        if j < i {
            assert(t[j] == s[j]);
        } else if j >= i + fl + 1 + bl {
            assert(t[j] == s[j - fl - bl]);
        } else if j == i + fl {
            assert(t[j] == pu);
        }
    }
    assert forall|j: int|
        0 <= j < t.len() - 1 implies ((#[trigger] t[j]).offset + t[j].size == t[j + 1].offset && (
    t[j].used || t[j + 1].used)) by {
        if j < i - 1 {
            assert(t[j] == s[j] && t[j + 1] == s[j + 1]);
        } else if j == i - 1 {
            assert(t[j] == s[j]);
            assert(s[i - 1].offset + s[i - 1].size == s[i].offset);
            assert(s[i - 1].used || s[i].used);
            assert(!s[i].used);
            if fl == 1 {
                assert(t[i] == free_ext(e.offset as int, start - e.offset));
            } else {
                assert(t[i] == pu);
            }
        } else if i <= j < i + fl {
            assert(t[j] == free_ext(e.offset as int, start - e.offset));
            assert(t[j + 1] == pu);
        } else if j == i + fl {
            assert(t[j] == pu);
            if bl == 1 {
                assert(t[j + 1] == free_ext(end, e.offset + e.size - end));
            } else {
                assert(t[j + 1] == s[i + 1]);
                assert(s[i].offset + s[i].size == s[i + 1].offset);
                assert(s[i].used || s[i + 1].used);
            }
        } else if j == i + fl + 1 && bl == 1 {
            assert(t[j] == free_ext(end, e.offset + e.size - end));
            assert(t[j + 1] == s[i + 1]);
            assert(s[i].offset + s[i].size == s[i + 1].offset);
            assert(s[i].used || s[i + 1].used);
        } else {
            assert(t[j] == s[j - fl - bl] && t[j + 1] == s[j + 1 - fl - bl]);
        }
    }
    assert forall|a: int, b: int|
        0 <= a < b < t.len() && (#[trigger] t[a]).used && (#[trigger] t[b]).used implies t[a].id
        != t[b].id by {
        if a != i + fl && b != i + fl {
            let sa = if a < i {
                a
            } else {
                a - fl - bl
            };
            let sb = if b < i {
                b
            } else {
                b - fl - bl
            };
            assert(t[a] == s[sa] && t[b] == s[sb]);
        } else if a == i + fl {
            let sb = if b < i {
                b
            } else {
                b - fl - bl
            };
            assert(t[b] == s[sb]);
        } else {
            let sa = if a < i {
                a
            } else {
                a - fl - bl
            };
            assert(t[a] == s[sa]);
        }
    }
    if i > 0 {
        assert(t[0] == s[0]);
    }
    if i < s.len() - 1 {
        assert(t[t.len() - 1] == s[s.len() - 1]);
    } else {
        if bl == 1 {
            assert(t[t.len() - 1] == free_ext(end, e.offset + e.size - end));
        } else {
            assert(t[t.len() - 1] == pu);
        }
    }
}

/// Placement installs the new owner and leaves every other allocation as it
/// was.
#[verifier::spinoff_prover]
proof fn lemma_place_membership(
    s: Seq<Extent>,
    cap: usize,
    margin: usize,
    i: int,
    usz: usize,
    align: usize,
    id: usize,
)
    requires
        exts_wf(s, cap, margin),
        0 <= i < s.len(),
        can_place(s[i], usz, align, margin),
        usz >= 1,
        align >= 1,
        forall|k: int| 0 <= k < s.len() && (#[trigger] s[k]).used ==> s[k].id != id,
    ensures
        has_used(place_in(s, i, usz, align, margin, id), id),
        used_ext(place_in(s, i, usz, align, margin, id), id) == placed_used(
            s[i],
            usz,
            align,
            margin,
            id,
        ),
        forall|j: usize|
            j != id ==> (has_used(place_in(s, i, usz, align, margin, id), j) <==> has_used(s, j)),
        forall|j: usize|
            j != id && has_used(s, j) ==> used_ext(place_in(s, i, usz, align, margin, id), j)
                == used_ext(s, j),
{
    lemma_place_shape(s, cap, margin, i, usz, align, id);
    lemma_place_keeps_wf(s, cap, margin, i, usz, align, id);
    let fl = front_len(s[i], align, margin);
    let bl = back_len(s[i], usz, align, margin);
    let t = place_in(s, i, usz, align, margin, id);
    assert(t[i + fl].used && t[i + fl].id == id);
    assert(has_used(t, id));
    lemma_used_unique(t, cap, margin, id);
    assert forall|j: usize| j != id && has_used(s, j) implies has_used(t, j) && used_ext(t, j)
        == used_ext(s, j) by {
        lemma_used_unique(s, cap, margin, j);
        let k = used_at(s, j);
        let k2 = if k < i {
            k
        } else {
            k + fl + bl
        };
        assert(t[k2] == s[k]);
        assert(has_used(t, j));
        lemma_used_unique(t, cap, margin, j);
        assert(used_at(t, j) == k2);
    }
    assert forall|j: usize| j != id && has_used(t, j) implies has_used(s, j) by {
        lemma_used_unique(t, cap, margin, j);
        let k2 = used_at(t, j);
        assert(k2 != i + fl);
        let k = if k2 < i {
            k2
        } else {
            k2 - fl - bl
        };
        assert(t[k2] == s[k]);
    }
}

/// Placement moves `usz + 2 * margin` bytes from free to used.
#[verifier::spinoff_prover]
proof fn lemma_place_sums(
    s: Seq<Extent>,
    cap: usize,
    margin: usize,
    i: int,
    usz: usize,
    align: usize,
    id: usize,
)
    requires
        exts_wf(s, cap, margin),
        0 <= i < s.len(),
        can_place(s[i], usz, align, margin),
        usz >= 1,
        align >= 1,
    ensures
        used_total(place_in(s, i, usz, align, margin, id)) == used_total(s) + usz + 2 * margin,
        free_total(place_in(s, i, usz, align, margin, id)) == free_total(s) - usz - 2 * margin,
        used_count(place_in(s, i, usz, align, margin, id)) == used_count(s) + 1,
{
    let e = s[i];
    lemma_place_shape(s, cap, margin, i, usz, align, id);
    let u = user_off_in(e, align, margin);
    let start = u - margin;
    let end = u + usz + margin;
    let fl = front_len(e, align, margin);
    let bl = back_len(e, usz, align, margin);
    let pu = placed_used(e, usz, align, margin, id);
    let pieces = placed_pieces(e, usz, align, margin, id);
    let front: Seq<Extent> = if fl == 1 {
        seq![free_ext(e.offset as int, start - e.offset)]
    } else {
        Seq::empty()
    };
    let back: Seq<Extent> = if bl == 1 {
        seq![free_ext(end, e.offset + e.size - end)]
    } else {
        Seq::empty()
    };
    assert(pieces == front + seq![pu] + back);
    lemma_split3(s, i);
    lemma_sums_concat(s.take(i) + seq![s[i]], s.skip(i + 1));
    lemma_sums_concat(s.take(i), seq![s[i]]);
    lemma_singleton(s[i]);
    lemma_sums_concat(s.take(i) + pieces, s.skip(i + 1));
    lemma_sums_concat(s.take(i), pieces);
    lemma_sums_concat(front + seq![pu], back);
    lemma_sums_concat(front, seq![pu]);
    lemma_singleton(pu);
    if fl == 1 {
        lemma_singleton(free_ext(e.offset as int, start - e.offset));
    }
    if bl == 1 {
        lemma_singleton(free_ext(end, e.offset + e.size - end));
    }
    assert(used_total(s) == used_total(s.take(i)) + used_total(s.skip(i + 1)));
    assert(free_total(s) == free_total(s.take(i)) + e.size + free_total(s.skip(i + 1)));
}

/// Every used extent after a placement is the new one or one of the old
/// ones.
#[verifier::spinoff_prover]
proof fn lemma_place_id_origin(
    s: Seq<Extent>,
    cap: usize,
    margin: usize,
    i: int,
    usz: usize,
    align: usize,
    id: usize,
)
    requires
        exts_wf(s, cap, margin),
        0 <= i < s.len(),
        can_place(s[i], usz, align, margin),
        usz >= 1,
        align >= 1,
    ensures
        forall|k: int|
            0 <= k < place_in(s, i, usz, align, margin, id).len() && (#[trigger] place_in(
                s,
                i,
                usz,
                align,
                margin,
                id,
            )[k]).used ==> place_in(s, i, usz, align, margin, id)[k].id == id || has_used(
                s,
                place_in(s, i, usz, align, margin, id)[k].id,
            ),
{
    lemma_place_shape(s, cap, margin, i, usz, align, id);
    let t0 = place_in(s, i, usz, align, margin, id);
    let fl = front_len(s[i], align, margin);
    let bl = back_len(s[i], usz, align, margin);
    assert forall|k: int|
        0 <= k < t0.len() && (#[trigger] t0[k]).used implies t0[k].id == id || has_used(
        s,
        t0[k].id,
    ) by {
        if k != i + fl {
            let sk = if k < i {
                k
            } else {
                k - fl - bl
            };
            assert(t0[k] == s[sk]);
        }
    }
}

/// Placement: the combined public statement. Keeps the block well-formed,
/// installs exactly one new used extent for a fresh owner, leaves every
/// other allocation in place, and moves `usz + 2 * margin` bytes from free
/// to used.
pub proof fn lemma_place_ok(
    s: Seq<Extent>,
    cap: usize,
    margin: usize,
    i: int,
    usz: usize,
    align: usize,
    id: usize,
)
    requires
        exts_wf(s, cap, margin),
        0 <= i < s.len(),
        can_place(s[i], usz, align, margin),
        usz >= 1,
        align >= 1,
        forall|k: int| 0 <= k < s.len() && (#[trigger] s[k]).used ==> s[k].id != id,
    ensures
        exts_wf(place_in(s, i, usz, align, margin, id), cap, margin),
        has_used(place_in(s, i, usz, align, margin, id), id),
        used_ext(place_in(s, i, usz, align, margin, id), id) == placed_used(
            s[i],
            usz,
            align,
            margin,
            id,
        ),
        forall|j: usize|
            j != id ==> (has_used(place_in(s, i, usz, align, margin, id), j) <==> has_used(s, j)),
        forall|j: usize|
            j != id && has_used(s, j) ==> used_ext(place_in(s, i, usz, align, margin, id), j)
                == used_ext(s, j),
        used_total(place_in(s, i, usz, align, margin, id)) == used_total(s) + usz + 2 * margin,
        free_total(place_in(s, i, usz, align, margin, id)) == free_total(s) - usz - 2 * margin,
        used_count(place_in(s, i, usz, align, margin, id)) == used_count(s) + 1,
        placed_used(s[i], usz, align, margin, id).user_off == user_off_in(s[i], align, margin),
        placed_used(s[i], usz, align, margin, id).user_off as int % (align as int) == 0,
        placed_used(s[i], usz, align, margin, id).user_size == usz,
        forall|k: int|
            0 <= k < place_in(s, i, usz, align, margin, id).len() && (#[trigger] place_in(
                s,
                i,
                usz,
                align,
                margin,
                id,
            )[k]).used ==> place_in(s, i, usz, align, margin, id)[k].id == id || has_used(
                s,
                place_in(s, i, usz, align, margin, id)[k].id,
            ),
{
    lemma_place_shape(s, cap, margin, i, usz, align, id);
    lemma_place_keeps_wf(s, cap, margin, i, usz, align, id);
    lemma_place_membership(s, cap, margin, i, usz, align, id);
    lemma_place_sums(s, cap, margin, i, usz, align, id);
    lemma_place_id_origin(s, cap, margin, i, usz, align, id);
}

/// Shape of the sequence after a release: lengths and index correspondence.
proof fn lemma_free_shape(s: Seq<Extent>, cap: usize, margin: usize, k: int)
    requires
        exts_wf(s, cap, margin),
        0 <= k < s.len(),
        s[k].used,
    ensures
        ({
            let lo = if k > 0 && !s[k - 1].used {
                k - 1
            } else {
                k
            };
            let hi = if k + 1 < s.len() && !s[k + 1].used {
                k + 1
            } else {
                k
            };
            let t = free_merge(s, k);
            &&& s[lo].offset <= s[hi].offset + s[hi].size <= cap
            &&& t.len() == s.len() - (hi - lo)
            &&& (forall|j: int| 0 <= j < lo ==> t[j] == s[j])
            &&& (forall|j: int| lo + 1 <= j < t.len() ==> t[j] == s[j + (hi - lo)])
            &&& t[lo] == free_ext(s[lo].offset as int, s[hi].offset + s[hi].size - s[lo].offset)
            &&& s[hi].offset + s[hi].size - s[lo].offset == (if lo < k {
                s[lo].size as int
            } else {
                0
            }) + s[k].size + (if hi > k {
                s[hi].size as int
            } else {
                0
            })
        }),
{
    let lo = if k > 0 && !s[k - 1].used {
        k - 1
    } else {
        k
    };
    let hi = if k + 1 < s.len() && !s[k + 1].used {
        k + 1
    } else {
        k
    };
    if lo < k {
        assert(s[lo].offset + s[lo].size == s[k].offset);
    }
    if hi > k {
        assert(s[k].offset + s[k].size == s[hi].offset);
    }
    lemma_extent_in_range(s, cap, margin, hi);
    let t = free_merge(s, k);
    assert(t.len() == lo + 1 + (s.len() - hi - 1));
    assert(forall|j: int| 0 <= j < lo ==> t[j] == s.take(lo)[j]);
    assert(forall|j: int| lo + 1 <= j < t.len() ==> t[j] == s.skip(hi + 1)[j - lo - 1]);
}

/// After a release the extents still tile the range and free regions stay
/// coalesced.
#[verifier::spinoff_prover]
#[verifier::rlimit(100)]
proof fn lemma_free_adjacency(s: Seq<Extent>, cap: usize, margin: usize, k: int)
    requires
        exts_wf(s, cap, margin),
        0 <= k < s.len(),
        s[k].used,
    ensures
        forall|j: int|
            0 <= j < free_merge(s, k).len() - 1 ==> ((#[trigger] free_merge(s, k)[j]).offset
                + free_merge(s, k)[j].size == free_merge(s, k)[j + 1].offset && (free_merge(
                s,
                k,
            )[j].used || free_merge(s, k)[j + 1].used)),
{
    lemma_free_shape(s, cap, margin, k);
    let lo = if k > 0 && !s[k - 1].used {
        k - 1
    } else {
        k
    };
    let hi = if k + 1 < s.len() && !s[k + 1].used {
        k + 1
    } else {
        k
    };
    let t = free_merge(s, k);
    assert forall|j: int|
        0 <= j < t.len() - 1 implies ((#[trigger] t[j]).offset + t[j].size == t[j + 1].offset && (
    t[j].used || t[j + 1].used)) by {
        if j < lo - 1 {
            assert(t[j] == s[j] && t[j + 1] == s[j + 1]);
        } else if j == lo - 1 {
            assert(t[j] == s[j]);
            assert(s[lo - 1].offset + s[lo - 1].size == s[lo].offset);
            if lo < k {
                assert(s[lo - 1].used || s[lo].used);
                assert(!s[lo].used);
            } else {
                assert(s[k - 1].used);
            }
        } else if j == lo {
            assert(t[j + 1] == s[hi + 1]);
            assert(s[hi].offset + s[hi].size == s[hi + 1].offset);
            if hi > k {
                assert(!s[hi].used);
                assert(s[hi].used || s[hi + 1].used);
            } else {
                assert(s[k + 1].used);
            }
        } else {
            assert(t[j] == s[j + (hi - lo)] && t[j + 1] == s[j + 1 + (hi - lo)]);
        }
    }
}

/// Release keeps the block well-formed.
#[verifier::spinoff_prover]
#[verifier::rlimit(100)]
proof fn lemma_free_keeps_wf(s: Seq<Extent>, cap: usize, margin: usize, k: int)
    requires
        exts_wf(s, cap, margin),
        0 <= k < s.len(),
        s[k].used,
    ensures
        exts_wf(free_merge(s, k), cap, margin),
{
    lemma_free_shape(s, cap, margin, k);
    let lo = if k > 0 && !s[k - 1].used {
        k - 1
    } else {
        k
    };
    let hi = if k + 1 < s.len() && !s[k + 1].used {
        k + 1
    } else {
        k
    };
    let mlen = s[hi].offset + s[hi].size - s[lo].offset;
    let merged = free_ext(s[lo].offset as int, mlen);
    let t = free_merge(s, k);
    assert forall|j: int| 0 <= j < t.len() implies ext_ok(#[trigger] t[j], margin) by {
        if j < lo {
            assert(t[j] == s[j]);
        } else if j > lo {
            assert(t[j] == s[j + (hi - lo)]);
        } else {
            assert(t[j] == merged);
        }
    }
    lemma_free_adjacency(s, cap, margin, k);
    assert forall|a: int, b: int|
        0 <= a < b < t.len() && (#[trigger] t[a]).used && (#[trigger] t[b]).used implies t[a].id
        != t[b].id by {
        if a != lo && b != lo {
            let sa = if a < lo {
                a
            } else {
                a + (hi - lo)
            };
            let sb = if b < lo {
                b
            } else {
                b + (hi - lo)
            };
            assert(t[a] == s[sa] && t[b] == s[sb]);
        }
    }
    if lo > 0 {
        assert(t[0] == s[0]);
    }
    if hi < s.len() - 1 {
        assert(t[t.len() - 1] == s[s.len() - 1]);
    }
}

/// Release removes exactly the released allocation and leaves the others.
#[verifier::rlimit(100)]
#[verifier::spinoff_prover]
proof fn lemma_free_membership(s: Seq<Extent>, cap: usize, margin: usize, k: int)
    requires
        exts_wf(s, cap, margin),
        0 <= k < s.len(),
        s[k].used,
    ensures
        !has_used(free_merge(s, k), s[k].id),
        forall|j: usize| j != s[k].id ==> (has_used(free_merge(s, k), j) <==> has_used(s, j)),
        forall|j: usize|
            j != s[k].id && has_used(s, j) ==> used_ext(free_merge(s, k), j) == used_ext(s, j),
        forall|x: int|
            0 <= x < free_merge(s, k).len() && (#[trigger] free_merge(s, k)[x]).used ==> has_used(
                s,
                free_merge(s, k)[x].id,
            ),
{
    lemma_free_shape(s, cap, margin, k);
    lemma_free_keeps_wf(s, cap, margin, k);
    let ghost t0 = free_merge(s, k);
    let lo0 = if k > 0 && !s[k - 1].used {
        k - 1
    } else {
        k
    };
    let hi0 = if k + 1 < s.len() && !s[k + 1].used {
        k + 1
    } else {
        k
    };
    assert forall|x: int|
        0 <= x < t0.len() && (#[trigger] t0[x]).used implies has_used(s, t0[x].id) by {
        if x != lo0 {
            let sx = if x < lo0 {
                x
            } else {
                x + (hi0 - lo0)
            };
            assert(t0[x] == s[sx]);
        }
    }
    let lo = if k > 0 && !s[k - 1].used {
        k - 1
    } else {
        k
    };
    let hi = if k + 1 < s.len() && !s[k + 1].used {
        k + 1
    } else {
        k
    };
    let t = free_merge(s, k);
    assert forall|j: usize| has_used(t, j) implies j != s[k].id && has_used(s, j) by {
        let k2 = choose|x: int| 0 <= x < t.len() && (#[trigger] t[x]).used && t[x].id == j;
        assert(k2 != lo);
        let k1 = if k2 < lo {
            k2
        } else {
            k2 + (hi - lo)
        };
        assert(t[k2] == s[k1]);
        assert(s[k1].used && s[k1].id == j);
        assert(k1 != k);
        if j == s[k].id {
            lemma_used_unique(s, cap, margin, j);
            assert(s[k].used && s[k].id == j);
            assert(used_at(s, j) == k);
            assert(used_at(s, j) == k1);
        }
    }
    assert forall|j: usize| j != s[k].id && has_used(s, j) implies has_used(t, j) && used_ext(
        t,
        j,
    ) == used_ext(s, j) by {
        lemma_used_unique(s, cap, margin, j);
        let k1 = used_at(s, j);
        assert(k1 != k);
        assert(k1 < lo || k1 > hi) by {
            if lo < k && k1 == lo {
                assert(!s[lo].used);
            }
            if hi > k && k1 == hi {
                assert(!s[hi].used);
            }
        }
        let k2 = if k1 < lo {
            k1
        } else {
            k1 - (hi - lo)
        };
        assert(t[k2] == s[k1]);
        assert(has_used(t, j));
        lemma_used_unique(t, cap, margin, j);
        assert(used_at(t, j) == k2);
    }
    assert(!has_used(t, s[k].id));
}

/// Release keeps the block well-formed, removes exactly the released
/// allocation, leaves every other allocation in place, and moves the
/// extent's bytes from used to free.
pub proof fn lemma_free_ok(s: Seq<Extent>, cap: usize, margin: usize, k: int)
    requires
        exts_wf(s, cap, margin),
        0 <= k < s.len(),
        s[k].used,
    ensures
        exts_wf(free_merge(s, k), cap, margin),
        !has_used(free_merge(s, k), s[k].id),
        forall|j: usize| j != s[k].id ==> (has_used(free_merge(s, k), j) <==> has_used(s, j)),
        forall|j: usize|
            j != s[k].id && has_used(s, j) ==> used_ext(free_merge(s, k), j) == used_ext(s, j),
        used_total(free_merge(s, k)) == used_total(s) - s[k].size,
        free_total(free_merge(s, k)) == free_total(s) + s[k].size,
        used_count(free_merge(s, k)) == used_count(s) - 1,
        forall|x: int|
            0 <= x < free_merge(s, k).len() && (#[trigger] free_merge(s, k)[x]).used ==> has_used(
                s,
                free_merge(s, k)[x].id,
            ),
{
    lemma_free_keeps_wf(s, cap, margin, k);
    lemma_free_membership(s, cap, margin, k);
    lemma_free_sums(s, cap, margin, k);
}

/// Release moves the extent's bytes from used to free.
#[verifier::rlimit(100)]
#[verifier::spinoff_prover]
proof fn lemma_free_sums(s: Seq<Extent>, cap: usize, margin: usize, k: int)
    requires
        exts_wf(s, cap, margin),
        0 <= k < s.len(),
        s[k].used,
    ensures
        used_total(free_merge(s, k)) == used_total(s) - s[k].size,
        free_total(free_merge(s, k)) == free_total(s) + s[k].size,
        used_count(free_merge(s, k)) == used_count(s) - 1,
{
    lemma_free_shape(s, cap, margin, k);
    let lo = if k > 0 && !s[k - 1].used {
        k - 1
    } else {
        k
    };
    let hi = if k + 1 < s.len() && !s[k + 1].used {
        k + 1
    } else {
        k
    };
    let mlen = s[hi].offset + s[hi].size - s[lo].offset;
    let merged = free_ext(s[lo].offset as int, mlen);
    let t = free_merge(s, k);
    let left = s.take(lo);
    let right = s.skip(hi + 1);
    let midlo: Seq<Extent> = if lo < k {
        seq![s[lo]]
    } else {
        Seq::empty()
    };
    let midhi: Seq<Extent> = if hi > k {
        seq![s[hi]]
    } else {
        Seq::empty()
    };
    let mid = midlo + seq![s[k]] + midhi;
    assert(s =~= left + mid + right);
    lemma_sums_concat(left + mid, right);
    lemma_sums_concat(left, mid);
    lemma_sums_concat(midlo + seq![s[k]], midhi);
    lemma_sums_concat(midlo, seq![s[k]]);
    lemma_singleton(s[k]);
    if lo < k {
        lemma_singleton(s[lo]);
        assert(midlo == seq![s[lo]]);
    }
    if hi > k {
        lemma_singleton(s[hi]);
        assert(midhi == seq![s[hi]]);
    }
    assert(t == left + seq![merged] + right);
    lemma_sums_concat(left + seq![merged], right);
    lemma_sums_concat(left, seq![merged]);
    lemma_singleton(merged);
}

/// The round-trip law: allocating a region and then immediately freeing it
/// returns the block's extent list — in particular its free-region
/// structure — exactly to its prior state.
#[verifier::rlimit(100)]
#[verifier::spinoff_prover]
pub proof fn lemma_place_then_free(
    s: Seq<Extent>,
    cap: usize,
    margin: usize,
    i: int,
    usz: usize,
    align: usize,
    id: usize,
)
    requires
        exts_wf(s, cap, margin),
        0 <= i < s.len(),
        can_place(s[i], usz, align, margin),
        usz >= 1,
        align >= 1,
        forall|k: int| 0 <= k < s.len() && (#[trigger] s[k]).used ==> s[k].id != id,
    ensures
        free_merge(place_in(s, i, usz, align, margin, id), placed_pos(s, i, align, margin)) == s,
{
    let e = s[i];
    lemma_place_shape(s, cap, margin, i, usz, align, id);
    lemma_place_keeps_wf(s, cap, margin, i, usz, align, id);
    let u = user_off_in(e, align, margin);
    let start = u - margin;
    let end = u + usz + margin;
    let fl = front_len(e, align, margin);
    let bl = back_len(e, usz, align, margin);
    let t = place_in(s, i, usz, align, margin, id);
    let k = placed_pos(s, i, align, margin);
    assert(k == i + fl);
    let pu = placed_used(e, usz, align, margin, id);
    assert(t[k] == pu && t[k].used);
    lemma_free_shape(t, cap, margin, k);
    let lo = if k > 0 && !t[k - 1].used {
        k - 1
    } else {
        k
    };
    let hi = if k + 1 < t.len() && !t[k + 1].used {
        k + 1
    } else {
        k
    };
    assert(lo == i) by {
        if fl == 1 {
            assert(t[k - 1] == free_ext(e.offset as int, start - e.offset));
        } else {
            if k > 0 {
                assert(t[k - 1] == s[i - 1]);
                assert(s[i - 1].used || s[i].used);
                assert(!s[i].used);
            }
        }
    }
    assert(hi == i + fl + bl) by {
        if bl == 1 {
            assert(t[k + 1] == free_ext(end, e.offset + e.size - end));
        } else {
            if k + 1 < t.len() {
                assert(t[k + 1] == s[i + 1]);
                assert(s[i].used || s[i + 1].used);
                assert(!s[i].used);
            }
        }
    }
    let r = free_merge(t, k);
    assert(t[lo].offset == e.offset) by {
        if fl == 1 {
            assert(t[lo] == free_ext(e.offset as int, start - e.offset));
        }
    }
    assert(t[hi].offset + t[hi].size == e.offset + e.size) by {
        if bl == 1 {
            assert(t[hi] == free_ext(end, e.offset + e.size - end));
        }
    }
    assert(r[lo] == free_ext(e.offset as int, e.size as int));
    assert(free_ext(e.offset as int, e.size as int) == e) by {
        assert(ext_ok(e, margin));
        assert(!e.used);
    }
    assert(r =~= s) by {
        assert(r.len() == s.len());
        assert forall|j: int| 0 <= j < s.len() implies r[j] == s[j] by {
            if j < i {
                assert(r[j] == t[j]);
                assert(t[j] == s[j]);
            } else if j > i {
                assert(r[j] == t[j + (hi - lo)]);
                assert(t[j + fl + bl] == s[j]);
            }
        }
    }
}

} // verus!
