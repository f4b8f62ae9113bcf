//! One memory block: a capacity sub-divided by the free-list sub-allocator,
//! together with the block's byte contents (the model of its mapped device
//! memory) and the guard margin written around allocations when corruption
//! detection is on.

use vstd::prelude::*;
use crate::suballoc::Extent;
use crate::suballoc::Strategy;
use crate::suballoc::align_up;
use crate::suballoc::can_place;
use crate::suballoc::exts_wf;
use crate::suballoc::ext_ok;
use crate::suballoc::free_ext;
use crate::suballoc::free_merge;
use crate::suballoc::free_total;
use crate::suballoc::has_used;
use crate::suballoc::leftover;
use crate::suballoc::lemma_align_up;
use crate::suballoc::lemma_extent_in_range;
use crate::suballoc::lemma_free_ok;
use crate::suballoc::lemma_place_ok;
use crate::suballoc::lemma_used_unique;
use crate::suballoc::picked;
use crate::suballoc::place_in;
use crate::suballoc::placed_pieces;
use crate::suballoc::placed_used;
use crate::suballoc::used_at;
use crate::suballoc::used_count;
use crate::suballoc::used_ext;
use crate::suballoc::used_total;
use crate::suballoc::user_off_in;

verus! {

/// Width of the guard region written before and after each sub-allocation
/// of a guarded pool.
pub const GUARD_MARGIN: usize = 8;

/// The pattern every guard byte must hold.
pub const GUARD_BYTE: u8 = 0xA5;

/// One driver-level memory block, sub-divided by the free-list
/// sub-allocator. `bytes` models the block's (mapped) contents; it is what
/// guard bytes are written to and what `write_mapped` reaches.
#[derive(Debug, Clone)]
pub struct Block {
    pub cap: usize,
    /// Guard margin around each allocation: 0, or `GUARD_MARGIN`.
    pub margin: usize,
    /// False once the block has been returned to the driver.
    pub alive: bool,
    pub extents: Vec<Extent>,
    pub bytes: Vec<u8>,
    /// How many mappings of this block are outstanding.
    pub map_count: usize,
}

/// A live block is a well-formed segmentation of its capacity with one byte
/// of content per byte of capacity; a dead block is empty.
pub open spec fn block_wf(b: Block) -> bool {
    &&& b.alive ==> exts_wf(b.extents@, b.cap, b.margin)
    &&& b.alive ==> b.bytes@.len() == b.cap
    &&& !b.alive ==> b.extents@.len() == 0 && b.cap == 0 && b.bytes@.len() == 0
}

impl Block {
    /// A fresh block: one free extent covering the whole capacity, zeroed
    /// contents.
    pub fn new(cap: usize, margin: usize) -> (r: Block)
        requires
            1 <= cap <= usize::MAX,
        ensures
            block_wf(r),
            r.alive,
            r.cap == cap,
            r.margin == margin,
            r.map_count == 0,
            r.extents@ =~= seq![free_ext(0, cap as int)],
            r.bytes@.len() == cap,
            forall|p: int| 0 <= p < cap ==> r.bytes@[p] == 0u8,
    {
        let mut extents: Vec<Extent> = Vec::new();
        extents.push(
            Extent {
                offset: 0,
                size: cap,
                used: false,
                id: 0,
                user_off: 0,
                user_size: 0,
                align: 1,
            },
        );
        let n: usize = cap as usize;
        let mut bytes: Vec<u8> = Vec::new();
        while bytes.len() < n
            invariant
                bytes@.len() <= n,
                forall|p: int| 0 <= p < bytes@.len() ==> bytes@[p] == 0u8,
            decreases n - bytes@.len(),
        {
            bytes.push(0u8);
        }
        let r = Block { cap, margin, alive: true, extents, bytes, map_count: 0 };
        proof {
            assert(r.extents@ =~= seq![free_ext(0, cap as int)]);
            assert(exts_wf(r.extents@, cap, margin)) by {
                assert(ext_ok(r.extents@[0], margin));
            }
        }
        r
    }

    /// Index of the free extent the strategy picks for this request, if any
    /// fits.
    pub fn find_fit(&self, usz: usize, align: usize, strat: Strategy) -> (r: Option<usize>)
        requires
            align >= 1,
        ensures
            match r {
                Some(i) => picked(self.extents@, i as int, usz, align, self.margin, strat),
                None => forall|j: int|
                    0 <= j < self.extents@.len() ==> !can_place(
                        #[trigger] self.extents@[j],
                        usz,
                        align,
                        self.margin,
                    ),
            },
    {
        let n = self.extents.len();
        let mut idx: usize = 0;
        let mut best: Option<usize> = None;
        let mut best_left: u128 = 0;
        let a: u128 = align as u128;
        let m: u128 = self.margin as u128;
        while idx < n
            invariant
                align >= 1,
                a == align as u128,
                m == self.margin as u128,
                n == self.extents@.len(),
                0 <= idx <= n,
                strat == Strategy::FirstFit ==> best.is_none(),
                strat == Strategy::FirstFit ==> forall|j: int|
                    0 <= j < idx ==> !can_place(
                        #[trigger] self.extents@[j],
                        usz,
                        align,
                        self.margin,
                    ),
                best.is_none() ==> forall|j: int|
                    0 <= j < idx ==> !can_place(
                        #[trigger] self.extents@[j],
                        usz,
                        align,
                        self.margin,
                    ),
                best matches Some(b) ==> 0 <= b < idx && can_place(
                    self.extents@[b as int],
                    usz,
                    align,
                    self.margin,
                ) && best_left == leftover(self.extents@[b as int], usz, align, self.margin),
                strat == Strategy::BestFit ==> (best matches Some(b) ==> forall|j: int|
                    0 <= j < idx && can_place(#[trigger] self.extents@[j], usz, align, self.margin)
                        ==> (leftover(self.extents@[b as int], usz, align, self.margin) < leftover(
                        self.extents@[j],
                        usz,
                        align,
                        self.margin,
                    ) || (leftover(self.extents@[b as int], usz, align, self.margin) == leftover(
                        self.extents@[j],
                        usz,
                        align,
                        self.margin,
                    ) && b <= j))),
                strat == Strategy::WorstFit ==> (best matches Some(b) ==> forall|j: int|
                    0 <= j < idx && can_place(#[trigger] self.extents@[j], usz, align, self.margin)
                        ==> (leftover(self.extents@[b as int], usz, align, self.margin) > leftover(
                        self.extents@[j],
                        usz,
                        align,
                        self.margin,
                    ) || (leftover(self.extents@[b as int], usz, align, self.margin) == leftover(
                        self.extents@[j],
                        usz,
                        align,
                        self.margin,
                    ) && b <= j))),
            decreases n - idx,
        {
            let e = self.extents[idx];
            if !e.used {
                let off: u128 = e.offset as u128;
                let x: u128 = off + m + a - 1;
                let q: u128 = x / a;
                proof {
                    vstd::arithmetic::div_mod::lemma_fundamental_div_mod(x as int, a as int);
                    vstd::arithmetic::mul::lemma_mul_is_commutative(a as int, q as int);
                }
                let user: u128 = q * a;
                let endv: u128 = user + usz as u128 + m;
                proof {
                    assert(user == align_up(e.offset + self.margin, align as int));
                }
                if endv <= off + e.size as u128 {
                    assert(can_place(e, usz, align, self.margin));
                    let left: u128 = off + e.size as u128 - endv;
                    proof {
                        assert(left == leftover(e, usz, align, self.margin));
                    }
                    match strat {
                        Strategy::FirstFit => {
                            return Some(idx);
                        },
                        Strategy::BestFit => {
                            if best.is_none() || left < best_left {
                                best = Some(idx);
                                best_left = left;
                            }
                        },
                        Strategy::WorstFit => {
                            if best.is_none() || left > best_left {
                                best = Some(idx);
                                best_left = left;
                            }
                        },
                    }
                }
            }
            idx += 1;
        }
        best
    }

    /// Sub-allocate `usz` bytes aligned to `align` for owner `id`: pick a
    /// region by strategy, split it, and write the guard bytes. Returns the
    /// user region's offset, or `None` when nothing fits.
    #[verifier::spinoff_prover]
    #[verifier::rlimit(100)]
    pub fn allocate(&mut self, usz: usize, align: usize, strat: Strategy, id: usize) -> (r: Option<
        usize,
    >)
        requires
            block_wf(*old(self)),
            old(self).alive,
            usz >= 1,
            align >= 1,
            forall|k: int|
                0 <= k < old(self).extents@.len() && (#[trigger] old(self).extents@[k]).used ==> old(
                    self,
                ).extents@[k].id != id,
        ensures
            block_wf(*final(self)),
            final(self).alive == old(self).alive,
            final(self).cap == old(self).cap,
            final(self).margin == old(self).margin,
            final(self).map_count == old(self).map_count,
            final(self).bytes@.len() == old(self).bytes@.len(),
            r.is_none() ==> *final(self) == *old(self) && (forall|j: int|
                0 <= j < old(self).extents@.len() ==> !can_place(
                    #[trigger] old(self).extents@[j],
                    usz,
                    align,
                    old(self).margin,
                )),
            r matches Some(u) ==> ({
                let m = old(self).margin;
                let s0 = old(self).extents@;
                let s1 = final(self).extents@;
                &&& exists|i: int|
                    picked(s0, i, usz, align, m, strat) && s1 == place_in(
                        s0,
                        i,
                        usz,
                        align,
                        m,
                        id,
                    )
                &&& has_used(s1, id)
                &&& used_ext(s1, id).user_off == u
                &&& used_ext(s1, id).user_size == usz
                &&& u as int % align as int == 0
                &&& m <= u && u + usz + m <= old(self).cap
                &&& forall|j: usize| j != id ==> (has_used(s1, j) <==> has_used(s0, j))
                &&& forall|j: usize|
                    j != id && has_used(s0, j) ==> used_ext(s1, j) == used_ext(s0, j)
                &&& used_total(s1) == used_total(s0) + usz + 2 * m
                &&& free_total(s1) == free_total(s0) - usz - 2 * m
                &&& (forall|p: int|
                    0 <= p < old(self).cap && !(u - m <= p < u) && !(u + usz <= p < u + usz + m)
                        ==> final(self).bytes@[p] == old(self).bytes@[p])
                &&& (forall|p: int|
                    u - m <= p < u || u + usz <= p < u + usz + m ==> final(self).bytes@[p]
                        == GUARD_BYTE)
            }),
    {
        let fit = self.find_fit(usz, align, strat);
        match fit {
            None => None,
            Some(i) => {
                let ghost s0 = self.extents@;
                let u = self.place_at(i, usz, align, id);
                let m = self.margin;
                if m > 0 {
                    fill_bytes(&mut self.bytes, u - m, m, GUARD_BYTE);
                    fill_bytes(&mut self.bytes, u + usz, m, GUARD_BYTE);
                }
                proof {
                    assert(picked(s0, i as int, usz, align, old(self).margin, strat)
                        && final(self).extents@ == place_in(
                        s0,
                        i as int,
                        usz,
                        align,
                        old(self).margin,
                        id,
                    ));
                }
                Some(u)
            },
        }
    }

    /// Split the free extent at `i` for owner `id`; returns the user
    /// region's offset. Leaves the block's bytes alone.
    #[verifier::spinoff_prover]
    #[verifier::rlimit(100)]
    fn place_at(&mut self, i: usize, usz: usize, align: usize, id: usize) -> (u: usize)
        requires
            block_wf(*old(self)),
            old(self).alive,
            usz >= 1,
            align >= 1,
            i < old(self).extents@.len(),
            can_place(old(self).extents@[i as int], usz, align, old(self).margin),
            forall|k: int|
                0 <= k < old(self).extents@.len() && (#[trigger] old(self).extents@[k]).used ==> old(
                    self,
                ).extents@[k].id != id,
        ensures
            block_wf(*final(self)),
            final(self).alive == old(self).alive,
            final(self).cap == old(self).cap,
            final(self).margin == old(self).margin,
            final(self).map_count == old(self).map_count,
            final(self).bytes@ == old(self).bytes@,
            ({
                let m = old(self).margin;
                let s0 = old(self).extents@;
                let s1 = final(self).extents@;
                &&& s1 == place_in(s0, i as int, usz, align, m, id)
                &&& has_used(s1, id)
                &&& used_ext(s1, id) == placed_used(s0[i as int], usz, align, m, id)
                &&& used_ext(s1, id).user_off == u
                &&& used_ext(s1, id).user_size == usz
                &&& u == user_off_in(s0[i as int], align, m)
                &&& u as int % align as int == 0
                &&& m <= u && u + usz + m <= old(self).cap
                &&& forall|j: usize| j != id ==> (has_used(s1, j) <==> has_used(s0, j))
                &&& forall|j: usize|
                    j != id && has_used(s0, j) ==> used_ext(s1, j) == used_ext(s0, j)
                &&& used_total(s1) == used_total(s0) + usz + 2 * m
                &&& free_total(s1) == free_total(s0) - usz - 2 * m
                &&& (forall|x: int|
                    0 <= x < s1.len() && (#[trigger] s1[x]).used ==> s1[x].id == id || has_used(
                        s0,
                        s1[x].id,
                    ))
            }),
    {
        let ghost s0 = self.extents@;
        let m = self.margin;
        let e = self.extents[i];
        let a128: u128 = align as u128;
        let m128: u128 = m as u128;
        let x: u128 = e.offset as u128 + m128 + a128 - 1;
        let q: u128 = x / a128;
        proof {
            vstd::arithmetic::div_mod::lemma_fundamental_div_mod(x as int, a128 as int);
            vstd::arithmetic::mul::lemma_mul_is_commutative(a128 as int, q as int);
            lemma_extent_in_range(s0, self.cap, m, i as int);
            lemma_align_up(e.offset + m, align as int);
        }
        let user128: u128 = q * a128;
        proof {
            assert(user128 == user_off_in(e, align, m));
            assert(e.offset + m <= user128 && user128 + usz + m <= e.offset + e.size);
        }
        let u: usize = user128 as usize;
        let start: usize = u - m;
        let endv: usize = u + usz + m;
        let size2: usize = endv - start;
        let pu = Extent {
            offset: start,
            size: size2,
            used: true,
            id,
            user_off: u,
            user_size: usz,
            align,
        };
        proof {
            assert(pu == placed_used(e, usz, align, m, id));
        }
        let back_size: usize = e.offset + e.size - endv;
        let front_size: usize = start - e.offset;
        let front: Option<Extent> = if front_size > 0 {
            Some(
                Extent {
                    offset: e.offset,
                    size: front_size,
                    used: false,
                    id: 0,
                    user_off: 0,
                    user_size: 0,
                    align: 1,
                },
            )
        } else {
            None
        };
        let back: Option<Extent> = if back_size > 0 {
            Some(
                Extent {
                    offset: endv,
                    size: back_size,
                    used: false,
                    id: 0,
                    user_off: 0,
                    user_size: 0,
                    align: 1,
                },
            )
        } else {
            None
        };
        splice3(&mut self.extents, i, front, pu, back);
        proof {
            assert(opt_seq(front) + seq![pu] + opt_seq(back) =~= placed_pieces(
                e,
                usz,
                align,
                m,
                id,
            ));
            assert(self.extents@ =~= place_in(s0, i as int, usz, align, m, id));
            lemma_place_ok(s0, old(self).cap, m, i as int, usz, align, id);
            lemma_used_unique(place_in(s0, i as int, usz, align, m, id), old(self).cap, m, id);
        }
        u
    }

    /// Release the allocation owned by `id`: its extent becomes free and is
    /// merged with free neighbors. Returns false when `id` owns nothing
    /// here.
    #[verifier::spinoff_prover]
    #[verifier::rlimit(100)]
    pub fn free_by_id(&mut self, id: usize) -> (r: bool)
        requires
            block_wf(*old(self)),
            old(self).alive,
        ensures
            block_wf(*final(self)),
            final(self).alive == old(self).alive,
            final(self).cap == old(self).cap,
            final(self).margin == old(self).margin,
            final(self).map_count == old(self).map_count,
            final(self).bytes@ == old(self).bytes@,
            r == has_used(old(self).extents@, id),
            !r ==> final(self).extents@ == old(self).extents@,
            r ==> ({
                let s0 = old(self).extents@;
                let k = used_at(s0, id);
                let s1 = final(self).extents@;
                &&& s1 == free_merge(s0, k)
                &&& !has_used(s1, id)
                &&& forall|j: usize| j != id ==> (has_used(s1, j) <==> has_used(s0, j))
                &&& forall|j: usize|
                    j != id && has_used(s0, j) ==> used_ext(s1, j) == used_ext(s0, j)
                &&& used_total(s1) == used_total(s0) - used_ext(s0, id).size
                &&& free_total(s1) == free_total(s0) + used_ext(s0, id).size
                &&& used_count(s1) == used_count(s0) - 1
                &&& (forall|x: int|
                    0 <= x < s1.len() && (#[trigger] s1[x]).used ==> has_used(s0, s1[x].id))
            }),
    {
        let ghost s0 = self.extents@;
        match self.find_used_ix(id) {
            None => false,
            Some(k) => {
                let n = self.extents.len();
                proof {
                    assert(has_used(s0, id));
                    lemma_used_unique(s0, self.cap, self.margin, id);
                    assert(used_at(s0, id) == k as int);
                    lemma_extent_in_range(s0, self.cap, self.margin, k as int);
                    if k > 0 {
                        lemma_extent_in_range(s0, self.cap, self.margin, k as int - 1);
                        assert(s0[k as int - 1].offset + s0[k as int - 1].size == s0[
                            k as int
                        ].offset);
                    }
                    if k + 1 < n {
                        lemma_extent_in_range(s0, self.cap, self.margin, k as int + 1);
                        assert(s0[k as int].offset + s0[k as int].size == s0[k as int + 1].offset);
                    }
                }
                let lo: usize = if k > 0 && !self.extents[k - 1].used {
                    k - 1
                } else {
                    k
                };
                let hi: usize = if k + 1 < n && !self.extents[k + 1].used {
                    k + 1
                } else {
                    k
                };
                let mlen: usize = self.extents[hi].offset + self.extents[hi].size
                    - self.extents[lo].offset;
                let merged = Extent {
                    offset: self.extents[lo].offset,
                    size: mlen,
                    used: false,
                    id: 0,
                    user_off: 0,
                    user_size: 0,
                    align: 1,
                };
                merge3(&mut self.extents, lo, hi, merged);
                proof {
                    assert(self.extents@ == free_merge(s0, k as int));
                    lemma_free_ok(s0, old(self).cap, old(self).margin, k as int);
                }
                true
            },
        }
    }

    /// Index of the used extent owned by `id`, if there is one.
    pub fn find_used_ix(&self, id: usize) -> (r: Option<usize>)
        ensures
            match r {
                Some(k) => k < self.extents@.len() && self.extents@[k as int].used
                    && self.extents@[k as int].id == id,
                None => !has_used(self.extents@, id),
            },
    {
        let n = self.extents.len();
        let mut k: usize = 0;
        while k < n
            invariant
                n == self.extents@.len(),
                0 <= k <= n,
                forall|j: int|
                    0 <= j < k ==> !((#[trigger] self.extents@[j]).used && self.extents@[j].id
                        == id),
            decreases n - k,
        {
            if self.extents[k].used && self.extents[k].id == id {
                return Some(k);
            }
            k += 1;
        }
        proof {
            if has_used(self.extents@, id) {
                let w = used_at(self.extents@, id);
                assert(0 <= w < n && self.extents@[w].used && self.extents@[w].id == id);
            }
        }
        None
    }

    /// One byte of the block's contents.
    pub fn read_byte(&self, at: usize) -> (r: u8)
        requires
            block_wf(*self),
            self.alive,
            at < self.cap,
        ensures
            r == self.bytes@[at as int],
    {
        self.bytes[at as usize]
    }

    /// Overwrite one byte of the block's contents (a host write through the
    /// block's mapping; nothing checks what it hits — this is how a stray
    /// write corrupts a guard region).
    pub fn write_byte(&mut self, at: usize, val: u8)
        requires
            block_wf(*old(self)),
            old(self).alive,
            at < old(self).cap,
        ensures
            block_wf(*final(self)),
            final(self).alive == old(self).alive,
            final(self).cap == old(self).cap,
            final(self).margin == old(self).margin,
            final(self).map_count == old(self).map_count,
            final(self).extents@ == old(self).extents@,
            final(self).bytes@ == old(self).bytes@.update(at as int, val),
    {
        self.bytes.set(at as usize, val);
    }

    /// Whether every byte of `[from, from + len)` holds `val`.
    pub fn range_is(&self, from: usize, len: usize, val: u8) -> (r: bool)
        requires
            block_wf(*self),
            self.alive,
            from + len <= self.cap,
        ensures
            r <==> (forall|q: int| from <= q < from + len ==> self.bytes@[q] == val),
    {
        let mut p: usize = 0;
        while p < len
            invariant
                block_wf(*self),
                self.alive,
                from + len <= self.cap,
                0 <= p <= len,
                forall|q: int| from <= q < from + p ==> self.bytes@[q] == val,
            decreases len - p,
        {
            if self.bytes[(from + p) as usize] != val {
                proof {
                    assert(self.bytes@[from + p] != val);
                }
                return false;
            }
            p += 1;
        }
        true
    }
}

/// Set `len` bytes starting at `from` to `val`.
fn fill_bytes(v: &mut Vec<u8>, from: usize, len: usize, val: u8)
    requires
        from + len <= old(v)@.len(),
    ensures
        final(v)@.len() == old(v)@.len(),
        forall|q: int|
            0 <= q < final(v)@.len() && !(from <= q < from + len) ==> final(v)@[q] == old(v)@[q],
        forall|q: int| from <= q < from + len ==> final(v)@[q] == val,
{
    let n: usize = v.len();
    let mut p: usize = 0;
    while p < len
        invariant
            v@.len() == n,
            from + len <= v@.len(),
            v@.len() == old(v)@.len(),
            0 <= p <= len,
            forall|q: int| 0 <= q < v@.len() && !(from <= q < from + p) ==> v@[q] == old(v)@[q],
            forall|q: int| from <= q < from + p ==> v@[q] == val,
        decreases len - p,
    {
        v.set(from + p, val);
        p += 1;
    }
}

/// The extents an optional piece contributes.
pub open spec fn opt_seq(o: Option<Extent>) -> Seq<Extent> {
    match o {
        Some(e) => seq![e],
        None => Seq::empty(),
    }
}

/// Replace the extent at `i` by up to three pieces.
fn splice3(v: &mut Vec<Extent>, i: usize, front: Option<Extent>, mid: Extent, back: Option<Extent>)
    requires
        i < old(v)@.len(),
    ensures
        final(v)@ == old(v)@.take(i as int) + opt_seq(front) + seq![mid] + opt_seq(back) + old(
            v,
        )@.skip(i as int + 1),
{
    let n: usize = v.len();
    v.set(i, mid);
    match back {
        Some(b) => {
            v.insert(i + 1, b);
        },
        None => {},
    }
    match front {
        Some(f) => {
            v.insert(i, f);
        },
        None => {},
    }
    proof {
        assert(v@ =~= old(v)@.take(i as int) + opt_seq(front) + seq![mid] + opt_seq(back) + old(
            v,
        )@.skip(i as int + 1));
    }
}

/// Replace the extents `lo ..= hi` by one merged extent.
fn merge3(v: &mut Vec<Extent>, lo: usize, hi: usize, merged: Extent)
    requires
        lo <= hi < old(v)@.len(),
        hi - lo <= 2,
    ensures
        final(v)@ == old(v)@.take(lo as int) + seq![merged] + old(v)@.skip(hi as int + 1),
{
    v.set(lo, merged);
    if hi > lo {
        v.remove(lo + 1);
        if hi > lo + 1 {
            v.remove(lo + 1);
        }
    }
    proof {
        assert(v@ =~= old(v)@.take(lo as int) + seq![merged] + old(v)@.skip(hi as int + 1));
    }
}

} // verus!
