//! The integer part of the text-morph animation: finding the lit pixels of a
//! rendered frame and pairing the points of two shapes.
use vstd::prelude::*;

use crate::color::{black, rgb565_black};

verus! {

/// The positions, as (column, row), of the pixels of a frame `width` pixels
/// wide whose colour is not black, in the order in which the frame stores
/// them (row by row).
pub open spec fn lit_positions(frame: Seq<u16>, width: nat) -> Seq<(usize, usize)>
    decreases frame.len(),
{
    if frame.len() == 0 {
        Seq::empty()
    } else {
        let i = frame.len() - 1;
        lit_positions(frame.drop_last(), width) + if frame.last() != black() {
            seq![((i % width as int) as usize, (i / width as int) as usize)]
        } else {
            Seq::empty()
        }
    }
}

/// Lists the lit pixels of a frame `width` pixels wide.
pub fn lit_pixels(frame: &[u16], width: usize) -> (points: Vec<(usize, usize)>)
    requires
        width > 0,
    ensures
        points@ == lit_positions(frame@, width as nat),
{
    let background = rgb565_black();
    let mut points: Vec<(usize, usize)> = Vec::new();
    let n = frame.len();
    let mut i: usize = 0;
    assert(frame@.take(0) =~= Seq::<u16>::empty());
    while i < n
        invariant
            n == frame@.len(),
            i <= n,
            width > 0,
            background == black(),
            points@ == lit_positions(frame@.take(i as int), width as nat),
        decreases n - i,
    {
        assert(frame@.take(i + 1).drop_last() =~= frame@.take(i as int));
        assert(frame@.take(i + 1).last() == frame@[i as int]);
        if frame[i] != background {
            points.push((i % width, i / width));
        }
        i = i + 1;
    }
    assert(frame@.take(n as int) =~= frame@);
    points
}

/// Pairs the i-th point of `a` with the i-th point of `b`, going round the
/// shorter list again as often as needed, for as many pairs as the longer
/// list has points.
pub open spec fn cyclic_pairs<T>(a: Seq<T>, b: Seq<T>) -> Seq<(T, T)> {
    let n = if a.len() >= b.len() { a.len() } else { b.len() };
    Seq::new(n, |i: int| (a[i % a.len() as int], b[i % b.len() as int]))
}

/// Matches the points of two shapes for the morph; when both are empty there
/// is nothing to match.
pub fn pair_cyclic(a: &[(usize, usize)], b: &[(usize, usize)]) -> (pairs: Vec<
    ((usize, usize), (usize, usize)),
>)
    requires
        (a@.len() == 0) == (b@.len() == 0),
    ensures
        pairs@ == cyclic_pairs(a@, b@),
{
    let mut pairs: Vec<((usize, usize), (usize, usize))> = Vec::new();
    let n = if a.len() >= b.len() { a.len() } else { b.len() };
    if n == 0 {
        assert(pairs@ =~= cyclic_pairs(a@, b@));
        return pairs;
    }
    let mut i: usize = 0;
    while i < n
        invariant
            n == (if a@.len() >= b@.len() { a@.len() } else { b@.len() }),
            a@.len() > 0,
            b@.len() > 0,
            i <= n,
            pairs@ == cyclic_pairs(a@, b@).take(i as int),
        decreases n - i,
    {
        let m = a[i % a.len()];
        let s = b[i % b.len()];
        pairs.push((m, s));
        assert(pairs@ =~= cyclic_pairs(a@, b@).take(i + 1));
        i = i + 1;
    }
    assert(cyclic_pairs(a@, b@).take(n as int) =~= cyclic_pairs(a@, b@));
    pairs
}

/// The place in a frame `width` pixels wide of the pixel at (column, row).
pub open spec fn frame_index(p: (usize, usize), width: nat) -> int {
    p.1 as int * width as int + p.0 as int
}

proof fn lemma_position_index(i: int, width: nat)
    requires
        0 <= i <= usize::MAX,
        width > 0,
    ensures
        (i % width as int) < width,
        frame_index(((i % width as int) as usize, (i / width as int) as usize), width) == i,
{
    let w = width as int;
    vstd::arithmetic::div_mod::lemma_fundamental_div_mod(i, w);
    vstd::arithmetic::div_mod::lemma_div_is_ordered_by_denominator(i, 1, w);
    assert(i / 1 == i);
    assert(0 <= i % w < w);
    assert(0 <= i / w <= i);
    assert(w * (i / w) == (i / w) * w) by (nonlinear_arith);
}

/// The lit pixels of a frame, listed: each listed position is a lit pixel
/// of the frame, the positions come in the frame's (row) order without
/// repeats, and every lit pixel is listed at its column and row.
pub proof fn law_lit_positions(frame: Seq<u16>, width: nat)
    requires
        width > 0,
        frame.len() <= usize::MAX,
    ensures
        forall|k: int|
            0 <= k < lit_positions(frame, width).len() ==> {
                let p = #[trigger] lit_positions(frame, width)[k];
                &&& p.0 < width
                &&& 0 <= frame_index(p, width) < frame.len()
                &&& frame[frame_index(p, width)] != black()
            },
        forall|k1: int, k2: int|
            0 <= k1 < k2 < lit_positions(frame, width).len() ==> frame_index(
                #[trigger] lit_positions(frame, width)[k1],
                width,
            ) < frame_index(#[trigger] lit_positions(frame, width)[k2], width),
        forall|i: int|
            0 <= i < frame.len() && #[trigger] frame[i] != black() ==> exists|k: int|
                0 <= k < lit_positions(frame, width).len() && #[trigger] lit_positions(
                    frame,
                    width,
                )[k] == ((i % width as int) as usize, (i / width as int) as usize),
    decreases frame.len(),
{
    if frame.len() > 0 {
        let prev = frame.drop_last();
        let i = frame.len() - 1;
        law_lit_positions(prev, width);
        let r = lit_positions(frame, width);
        let rp = lit_positions(prev, width);
        let pos = ((i % width as int) as usize, (i / width as int) as usize);
        lemma_position_index(i, width);
        if frame.last() != black() {
            assert(r == rp + seq![pos]);
            assert(r[r.len() - 1] == pos);
        } else {
            assert(r =~= rp);
        }
        assert forall|k: int| 0 <= k < rp.len() implies r[k] == rp[k] by {}
        assert forall|j: int| 0 <= j < prev.len() implies frame[j] == prev[j] by {}
        assert forall|k: int| 0 <= k < r.len() implies {
            let p = #[trigger] r[k];
            &&& p.0 < width
            &&& 0 <= frame_index(p, width) < frame.len()
            &&& frame[frame_index(p, width)] != black()
        } by {
            if k < rp.len() {
                assert(r[k] == rp[k]);
            }
        }
        assert forall|k1: int, k2: int| 0 <= k1 < k2 < r.len() implies frame_index(
            #[trigger] r[k1],
            width,
        ) < frame_index(#[trigger] r[k2], width) by {
            assert(r[k1] == rp[k1]);
            if k2 < rp.len() {
                assert(r[k2] == rp[k2]);
            } else {
                assert(r[k2] == pos);
                assert(0 <= frame_index(rp[k1], width) < prev.len());
            }
        }
        assert forall|j: int| 0 <= j < frame.len() && #[trigger] frame[j] != black() implies exists|
            k: int,
        | 0 <= k < r.len() && #[trigger] r[k] == ((j % width as int) as usize, (
            j / width as int
        ) as usize) by {
            if j < i {
                assert(prev[j] != black());
                let k = choose|k: int|
                    0 <= k < rp.len() && #[trigger] rp[k] == ((j % width as int) as usize, (j
                        / width as int) as usize);
                assert(r[k] == rp[k]);
            } else {
                assert(r[r.len() - 1] == pos);
            }
        }
    }
}

/// The morph pairs: as many as the longer list has points (the same when
/// the lists swap places), each point of either list paired in its own
/// place, and the shorter list taken round again for the rest.
pub proof fn law_cyclic_pairs<T>(a: Seq<T>, b: Seq<T>)
    requires
        a.len() > 0,
        b.len() > 0,
    ensures
        cyclic_pairs(a, b).len() >= a.len(),
        cyclic_pairs(a, b).len() >= b.len(),
        cyclic_pairs(a, b).len() == a.len() || cyclic_pairs(a, b).len() == b.len(),
        cyclic_pairs(b, a).len() == cyclic_pairs(a, b).len(),
        forall|j: int| 0 <= j < a.len() ==> (#[trigger] cyclic_pairs(a, b)[j]).0 == a[j],
        forall|j: int| 0 <= j < b.len() ==> (#[trigger] cyclic_pairs(a, b)[j]).1 == b[j],
        forall|i: int|
            0 <= i < cyclic_pairs(a, b).len() ==> {
                &&& (#[trigger] cyclic_pairs(a, b)[i]).0 == a[i % a.len() as int]
                &&& cyclic_pairs(a, b)[i].1 == b[i % b.len() as int]
            },
{
    assert forall|j: int| 0 <= j < a.len() implies (#[trigger] cyclic_pairs(a, b)[j]).0 == a[j] by {
        vstd::arithmetic::div_mod::lemma_small_mod(j as nat, a.len());
    }
    assert forall|j: int| 0 <= j < b.len() implies (#[trigger] cyclic_pairs(a, b)[j]).1 == b[j] by {
        vstd::arithmetic::div_mod::lemma_small_mod(j as nat, b.len());
    }
}

} // verus!
