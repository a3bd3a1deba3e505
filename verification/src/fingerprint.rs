//! Canonical state fingerprints: a fixed-size hash of exactly the car
//! positions in index order, excluding orientation and length (invariant
//! across a run) and excluding all move history. Used to treat two
//! configurations with equal fingerprints as the same state for
//! deduplication.

use vstd::prelude::*;

use crate::board::{Car, Position, State, StateModel};

verus! {

/// Offset basis of the 64-bit FNV-1a hash.
pub const FNV_OFFSET: u64 = 0xcbf2_9ce4_8422_2325;

/// Prime of the 64-bit FNV-1a hash.
pub const FNV_PRIME: u64 = 0x0000_0100_0000_01b3;

/// One FNV-1a absorption step.
pub open spec fn fnv_step(h: u64, b: u64) -> u64 {
    vstd::wrapping::u64_specs::wrapping_mul(h ^ b, FNV_PRIME)
}

/// The fingerprint of a sequence of car positions: rows and columns folded
/// into the hash in index order.
pub open spec fn fingerprint_of(ps: Seq<Position>) -> u64
    decreases ps.len(),
{
    if ps.len() == 0 {
        FNV_OFFSET
    } else {
        fnv_step(fnv_step(fingerprint_of(ps.drop_last()), ps.last().row as u64), ps.last().col as u64)
    }
}

/// The positions of a car list, in index order.
pub open spec fn positions_of(cars: Seq<(Position, Car)>) -> Seq<Position> {
    cars.map_values(|pc: (Position, Car)| pc.0)
}

/// The canonical fingerprint of a configuration.
pub fn fingerprint(s: &State) -> (r: u64)
    ensures
        r == fingerprint_of(positions_of(s@.cars)),
{
    let cars = s.cars();
    let ghost ps = positions_of(s@.cars);
    let mut h: u64 = FNV_OFFSET;
    let mut k: usize = 0;
    while k < cars.len()
        invariant
            k <= cars.len(),
            cars@ == s@.cars,
            ps == positions_of(s@.cars),
            h == fingerprint_of(ps.take(k as int)),
        decreases cars.len() - k,
    {
        let (p, _) = cars[k];
        h = (h ^ p.row as u64).wrapping_mul(FNV_PRIME);
        h = (h ^ p.col as u64).wrapping_mul(FNV_PRIME);
        proof {
            assert(ps.take(k + 1 as int).drop_last() =~= ps.take(k as int));
            assert(ps.take(k + 1 as int).last() == ps[k as int]);
            assert(ps[k as int] == s@.cars[k as int].0);
        }
        k += 1;
    }
    proof {
        assert(ps.take(cars@.len() as int) =~= ps);
    }
    h
}

/// Fingerprint determinism: the fingerprint is a function of the car
/// positions alone, so computing it twice yields the same value, and two
/// configurations that differ only in how they were reached (or in car
/// shapes, which never change within a run) fingerprint alike.
pub proof fn lemma_fingerprint_positions_only(a: StateModel, b: StateModel)
    requires
        positions_of(a.cars) == positions_of(b.cars),
    ensures
        fingerprint_of(positions_of(a.cars)) == fingerprint_of(positions_of(b.cars)),
{
}

} // verus!
