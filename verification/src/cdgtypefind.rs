//! Tells CD+G from other data.
use crate::cdgconstants::{mask, CDG_COMMAND, CDG_PACKET_SIZE};
use vstd::prelude::*;

verus! {

/// How many places of a file are looked at.
pub const NB_WINDOWS: u64 = 8;

/// How many bytes are looked at in each place: 4 seconds.
pub const TYPEFIND_SEARCH_WINDOW: i64 = 28800;

/// How sure it is that data is CD+G.
#[derive(Debug, Clone, Copy, PartialEq, Eq, Structural)]
pub enum TypeFindProbability {
    Zero,
    Possible,
    Likely,
}

/// How many of the bytes begin a packet.
pub open spec fn packet_count(heads: Seq<u8>) -> int
    decreases heads.len(),
{
    if heads.len() == 0 {
        0
    } else {
        packet_count(heads.drop_last()) + if crate::cdgconstants::begins_packet(heads.last()) {
            1int
        } else {
            0
        }
    }
}

/// The percentage of packets among those that fit in the given length, by the first bytes of
/// those that could be read.
pub fn cdg_packets_ratio(heads: &Vec<u8>, len: i64) -> (r: i64)
    requires
        len >= CDG_PACKET_SIZE,
        heads@.len() <= 0xffff_ffff,
    ensures
        r == packet_count(heads@) * 100 / (len as int / CDG_PACKET_SIZE as int),
{
    let mut count: i64 = 0;
    let total: i64 = len / CDG_PACKET_SIZE as i64;
    let mut i: usize = 0;
    assert(heads@.take(0) =~= Seq::<u8>::empty());
    while i < heads.len()
        invariant
            i <= heads@.len(),
            heads@.len() <= 0xffff_ffff,
            0 <= count <= i,
            count == packet_count(heads@.take(i as int)),
        decreases heads@.len() - i,
    {
        if mask(heads[i]) == CDG_COMMAND {
            count += 1;
        }
        i += 1;
        assert(heads@.take(i as int).drop_last() =~= heads@.take(i - 1));
    }
    assert(heads@.take(i as int) =~= heads@);
    (count * 100) / total
}

/// How sure a percentage makes.
pub open spec fn rated(ratio: i64) -> TypeFindProbability {
    if 0 <= ratio <= 5 {
        TypeFindProbability::Zero
    } else if 6 <= ratio <= 10 {
        TypeFindProbability::Possible
    } else {
        TypeFindProbability::Likely
    }
}

/// How sure a percentage makes.
pub fn rate(ratio: i64) -> (r: TypeFindProbability)
    ensures
        r == rated(ratio),
{
    if 0 <= ratio && ratio <= 5 {
        TypeFindProbability::Zero
    } else if 6 <= ratio && ratio <= 10 {
        TypeFindProbability::Possible
    } else {
        TypeFindProbability::Likely
    }
}

/// Where the places lie in data of the given length: the whole of it is looked at, or the
/// beginning where the length is not known. There is no result where data is too short.
pub fn window_offsets(len: Option<u64>) -> (r: Option<Vec<u64>>)
    requires
        len matches Some(l) ==> l <= i64::MAX,
    ensures
        ({
            let l = match len {
                Some(l) => l as int,
                None => TYPEFIND_SEARCH_WINDOW * NB_WINDOWS,
            };
            let step = l / NB_WINDOWS as int;
            match r {
                Some(offsets) => {
                    &&& step > 0
                    &&& forall|i: int|
                        0 <= i < offsets@.len() ==> #[trigger] offsets@[i] == i * step
                    &&& offsets@.len() > 0
                    &&& (offsets@.len() - 1) * step < l <= offsets@.len() * step
                },
                None => step == 0,
            }
        }),
{
    let l: u64 = match len {
        Some(l) => l,
        None => TYPEFIND_SEARCH_WINDOW as u64 * NB_WINDOWS,
    };
    let step: u64 = l / NB_WINDOWS;
    if step == 0 {
        return None;
    }
    let mut offsets: Vec<u64> = Vec::new();
    let mut offset: u64 = 0;
    assert(offsets@.len() * step == 0) by (nonlinear_arith)
        requires
            offsets@.len() == 0,
    ;
    while offset < l
        invariant
            l <= i64::MAX,
            0 < step <= l,
            offset <= l + step,
            offset == offsets@.len() * step,
            offset > 0 || offsets@.len() == 0,
            offsets@.len() > 0 ==> (offsets@.len() - 1) * step < l,
            forall|i: int| 0 <= i < offsets@.len() ==> #[trigger] offsets@[i] == i * step,
        decreases l + step - offset,
    {
        let ghost n = offsets@.len() as int;
        offsets.push(offset);
        offset = offset + step;
        assert((n + 1) * step == n * step + step) by (nonlinear_arith);
    }
    Some(offsets)
}

/// The highest of the ratings.
pub open spec fn best_of(ratios: Seq<i64>) -> TypeFindProbability {
    if exists|i: int|
        0 <= i < ratios.len() && rated(#[trigger] ratios[i]) == TypeFindProbability::Likely {
        TypeFindProbability::Likely
    } else if exists|i: int|
        0 <= i < ratios.len() && rated(#[trigger] ratios[i]) == TypeFindProbability::Possible {
        TypeFindProbability::Possible
    } else {
        TypeFindProbability::Zero
    }
}

/// How sure it is that data is CD+G, by the percentages in the places that were looked at.
///
/// Some files begin to draw at once and pause then, and others wait before they draw, so that
/// the highest percentage counts.
pub fn compute_probability(ratios: &Vec<i64>) -> (r: TypeFindProbability)
    ensures
        r == best_of(ratios@),
{
    let mut best: TypeFindProbability = TypeFindProbability::Zero;
    let mut i: usize = 0;
    while i < ratios.len()
        invariant
            i <= ratios@.len(),
            best != TypeFindProbability::Likely,
            forall|j: int|
                0 <= j < i ==> rated(#[trigger] ratios@[j]) != TypeFindProbability::Likely,
            best == TypeFindProbability::Possible <==> exists|j: int|
                0 <= j < i && rated(#[trigger] ratios@[j]) == TypeFindProbability::Possible,
        decreases ratios@.len() - i,
    {
        match rate(ratios[i]) {
            TypeFindProbability::Likely => {
                assert(rated(ratios@[i as int]) == TypeFindProbability::Likely);
                return TypeFindProbability::Likely;
            },
            TypeFindProbability::Possible => {
                assert(rated(ratios@[i as int]) == TypeFindProbability::Possible);
                best = TypeFindProbability::Possible;
            },
            TypeFindProbability::Zero => {},
        }
        i += 1;
    }
    best
}

} // verus!
