//! Absorb, permute, extract: two thin wrappers around the permutation.
//!
//! The wrapper on a full state applies a configured number of rounds, taken
//! from the end of the schedule of twelve. The wrapper on a narrow state
//! always applies the first three rounds of the schedule.

pub mod xoodoo_plane;
pub mod xoodoo_state;

use crate::xoodoo_hash::xoodoo_state::{
    absorb, grid_from_bytes, grid_to_bytes, grid_wf, grid_zero, round, rounds, XoodooState,
    XoodooStateFull, XoodooStateNC,
};
use vstd::prelude::*;

verus! {

/// The number of rounds of the whole schedule.
pub const MAX_ROUNDS: usize = 12;

/// A state together with the number of rounds that one permutation applies
/// to it.
pub struct XoodooHash<S> {
    state: S,
    num_rounds: usize,
}

impl<S: XoodooState> View for XoodooHash<S> {
    type V = Seq<Seq<u32>>;

    /// The grid of the state.
    closed spec fn view(&self) -> Seq<Seq<u32>> {
        self.state@
    }
}

impl<S: XoodooState> XoodooHash<S> {
    /// The number of rounds that one permutation applies.
    pub closed spec fn num_rounds(&self) -> nat {
        self.num_rounds as nat
    }

    /// The state is well-formed and the number of rounds is at most twelve.
    pub open spec fn wf(&self) -> bool {
        grid_wf(self@) && self.num_rounds() <= MAX_ROUNDS
    }

    /// The number of lanes in each plane of the state.
    pub open spec fn width(&self) -> nat {
        self@[0].len()
    }
}

impl XoodooHash<XoodooStateFull> {
    /// A wrapper on the all-zero state of the given width.
    pub fn new(num_rounds: usize, num_lanes_per_plane: usize) -> (hash: Self)
        requires
            num_rounds <= MAX_ROUNDS,
            1 <= num_lanes_per_plane <= 4,
        ensures
            hash.wf(),
            hash@ == grid_zero(num_lanes_per_plane as nat),
            hash.width() == num_lanes_per_plane,
            hash.num_rounds() == num_rounds,
    {
        let state = XoodooStateFull::initialize(Some(num_lanes_per_plane));
        Self { state, num_rounds }
    }

    /// A wrapper on the state of the given width read from `data`.
    pub fn new_from_bytes(data: &[u8], num_rounds: usize, num_lanes_per_plane: usize) -> (hash: Self)
        requires
            num_rounds <= MAX_ROUNDS,
            1 <= num_lanes_per_plane <= 4,
            data@.len() <= 3 * num_lanes_per_plane * 4,
        ensures
            hash.wf(),
            hash@ == grid_from_bytes(data@, num_lanes_per_plane as nat),
            hash.width() == num_lanes_per_plane,
            hash.num_rounds() == num_rounds,
    {
        let state = XoodooStateFull::new_from_bytes(data, Some(num_lanes_per_plane));
        Self { state, num_rounds }
    }

    /// Adds the next input into the state.
    pub fn next(&mut self, data: &[u8])
        requires
            old(self).wf(),
            data@.len() <= 12 * old(self).width(),
        ensures
            final(self).wf(),
            final(self)@ == absorb(old(self)@, data@),
            final(self).width() == old(self).width(),
            final(self).num_rounds() == old(self).num_rounds(),
    {
        self.state.xor_state(data);
    }

    /// Applies the last `num_rounds` rounds of the schedule: those with the
    /// constants `12 - num_rounds` to `11`. With no rounds configured the
    /// state stays as it is.
    pub fn permute(&mut self)
        requires
            old(self).wf(),
        ensures
            final(self).wf(),
            final(self)@ == rounds(old(self)@, MAX_ROUNDS - old(self).num_rounds(), MAX_ROUNDS as int),
            old(self).num_rounds() == 0 ==> final(self)@ == old(self)@,
            final(self).width() == old(self).width(),
            final(self).num_rounds() == old(self).num_rounds(),
    {
        let first = MAX_ROUNDS - self.num_rounds;
        for i in first..MAX_ROUNDS
            invariant
                first <= MAX_ROUNDS,
                self.num_rounds == old(self).num_rounds,
                self.state.wf(),
                self.state.width() == old(self).state.width(),
                rounds(self.state@, i as int, MAX_ROUNDS as int) == rounds(
                    old(self).state@,
                    first as int,
                    MAX_ROUNDS as int,
                ),
        {
            self.state.round(i);
        }
    }

    /// The current digest: the bytes of the state.
    pub fn digest(&self) -> (bytes: Vec<u8>)
        requires
            self.wf(),
        ensures
            bytes@ == grid_to_bytes(self@),
            bytes@.len() == 12 * self.width(),
    {
        self.state.get_state()
    }
}

impl XoodooHash<XoodooStateNC> {
    /// A wrapper on the narrow state read from `data`. It always applies
    /// three rounds.
    pub fn new(data: &[u8]) -> (hash: Self)
        requires
            data@.len() <= 12,
        ensures
            hash.wf(),
            hash@ == grid_from_bytes(data@, 1),
            hash.width() == 1,
            hash.num_rounds() == 3,
    {
        let state = XoodooStateNC::new_from_bytes(data, None);
        Self { state, num_rounds: 3 }
    }

    /// Applies the first three rounds of the schedule: those with the
    /// constants 0, 1 and 2, whatever a wrapper on a full state would apply.
    pub fn permute_nc(&mut self)
        ensures
            final(self)@ == round(round(round(old(self)@, 0), 1), 2),
            final(self)@ == rounds(old(self)@, 0, 3),
            grid_wf(final(self)@),
            final(self).width() == 1,
            final(self).num_rounds() == old(self).num_rounds(),
    {
        self.state.round(0);
        self.state.round(1);
        self.state.round(2);
        assert(rounds(old(self)@, 0, 3) == round(round(round(old(self)@, 0), 1), 2)) by {
            reveal_with_fuel(rounds, 4);
        }
    }

    /// The current digest: the twelve bytes of the state.
    pub fn digest_nc(&self) -> (bytes: Vec<u8>)
        ensures
            bytes@ == grid_to_bytes(self@),
            bytes@.len() == 12,
    {
        self.state.get_state()
    }
}

} // verus!
