//! The permutation state and its round function.
//!
//! A state is a grid of three planes of one common width. Its model is a
//! `Seq<Seq<u32>>`: `g[y][x]` is lane `x` of plane `y`. The round function
//! is specified once, on that model, and implemented twice: on planes of
//! one to four lanes ([`XoodooStateFull`]) and on three bare words
//! ([`XoodooStateNC`]).

use crate::xoodoo_hash::xoodoo_plane::{
    byte_at, lane_at, lane_byte, lemma_lane_bytes_round_trip, lemma_plane_xor_twice, load_lane,
    plane_and, plane_complement, plane_shift, plane_to_bytes, plane_xor, plane_zero, shift_lane,
    zero_padded, XoodooPlane,
};
use vstd::prelude::*;

verus! {

/// The number of planes of every state.
pub const MAX_NUM_PLANES: usize = 3;

/// The round constants, by the position of the round in the schedule of
/// twelve rounds.
pub const ROUND_CONSTANTS: [u32; 12] = [
    0x00000058,
    0x00000038,
    0x000003C0,
    0x000000D0,
    0x00000120,
    0x00000014,
    0x00000060,
    0x0000002C,
    0x00000380,
    0x000000F0,
    0x000001A0,
    0x00000012,
];

/// A grid is three planes of one common width of one to four lanes.
pub open spec fn grid_wf(g: Seq<Seq<u32>>) -> bool {
    &&& g.len() == 3
    &&& 1 <= g[0].len() <= 4
    &&& g[1].len() == g[0].len()
    &&& g[2].len() == g[0].len()
}

/// The grid of three zero planes of `n` lanes.
pub open spec fn grid_zero(n: nat) -> Seq<Seq<u32>> {
    seq![plane_zero(n), plane_zero(n), plane_zero(n)]
}

/// The grid of width `n` read from `data`: the lanes are read little-endian,
/// plane after plane and lane after lane, from `data` extended with zeros.
pub open spec fn grid_from_bytes(data: Seq<u8>, n: nat) -> Seq<Seq<u32>> {
    Seq::new(3, |y: int| Seq::new(n, |x: int| lane_at(data, 4 * (y * n + x))))
}

/// The bytes of a grid: those of plane 0, then of plane 1, then of plane 2.
pub open spec fn grid_to_bytes(g: Seq<Seq<u32>>) -> Seq<u8> {
    plane_to_bytes(g[0]) + plane_to_bytes(g[1]) + plane_to_bytes(g[2])
}

/// The grid with `data`, read as a grid of the same width, xored into it.
pub open spec fn absorb(g: Seq<Seq<u32>>, data: Seq<u8>) -> Seq<Seq<u32>> {
    let d = grid_from_bytes(data, g[0].len());
    seq![plane_xor(g[0], d[0]), plane_xor(g[1], d[1]), plane_xor(g[2], d[2])]
}

/// The column-parity mixing step.
pub open spec fn theta(g: Seq<Seq<u32>>) -> Seq<Seq<u32>> {
    let p = plane_xor(plane_xor(g[0], g[1]), g[2]);
    let e = plane_xor(plane_shift(p, 1, 5), plane_shift(p, 1, 14));
    seq![plane_xor(g[0], e), plane_xor(g[1], e), plane_xor(g[2], e)]
}

/// The first plane-shifting step.
pub open spec fn rho_west(g: Seq<Seq<u32>>) -> Seq<Seq<u32>> {
    seq![g[0], plane_shift(g[1], 1, 0), plane_shift(g[2], 0, 11)]
}

/// The step that xors round constant `i` into lane 0 of plane 0.
pub open spec fn iota(g: Seq<Seq<u32>>, i: int) -> Seq<Seq<u32>> {
    seq![g[0].update(0, g[0][0] ^ ROUND_CONSTANTS[i]), g[1], g[2]]
}

/// The non-linear step. Each plane is xored with the conjunction of the
/// complement of the next plane and the plane after that, all three taken
/// as they were before the step.
pub open spec fn chi(g: Seq<Seq<u32>>) -> Seq<Seq<u32>> {
    seq![
        plane_xor(g[0], plane_and(plane_complement(g[1]), g[2])),
        plane_xor(g[1], plane_and(plane_complement(g[2]), g[0])),
        plane_xor(g[2], plane_and(plane_complement(g[0]), g[1])),
    ]
}

/// The second plane-shifting step.
pub open spec fn rho_east(g: Seq<Seq<u32>>) -> Seq<Seq<u32>> {
    seq![g[0], plane_shift(g[1], 0, 1), plane_shift(g[2], 2, 8)]
}

/// One round with round constant `i`: theta, rho-west, iota, chi, rho-east.
pub open spec fn round(g: Seq<Seq<u32>>, i: int) -> Seq<Seq<u32>> {
    rho_east(chi(iota(rho_west(theta(g)), i)))
}

/// The rounds with the constants `from`, `from + 1`, ..., `to - 1`, in that
/// order. No round at all where `from` is not below `to`.
pub open spec fn rounds(g: Seq<Seq<u32>>, from: int, to: int) -> Seq<Seq<u32>>
    decreases to - from,
{
    if from >= to {
        g
    } else {
        rounds(round(g, from), from + 1, to)
    }
}

/// Absorbing the same bytes twice restores the grid.
pub proof fn lemma_absorb_twice(g: Seq<Seq<u32>>, data: Seq<u8>)
    requires
        grid_wf(g),
    ensures
        absorb(absorb(g, data), data) == g,
{
    let d = grid_from_bytes(data, g[0].len());
    lemma_plane_xor_twice(g[0], d[0]);
    lemma_plane_xor_twice(g[1], d[1]);
    lemma_plane_xor_twice(g[2], d[2]);
    assert(absorb(absorb(g, data), data) =~= g);
}

/// Writing out a grid of width `n` that was read from `data` gives `data`
/// back, cut or extended with zeros to the grid's `12 * n` bytes.
pub proof fn lemma_grid_bytes_round_trip(data: Seq<u8>, n: nat)
    ensures
        grid_to_bytes(grid_from_bytes(data, n)) == zero_padded(data, 12 * n),
{
    let g = grid_from_bytes(data, n);
    let bytes = grid_to_bytes(g);
    assert(bytes.len() == 12 * n);
    assert forall|k: int| 0 <= k < 12 * n implies bytes[k] == byte_at(data, k) by {
        if k < 4 * n {
            lemma_lane_bytes_round_trip(data, 4 * (k / 4));
        } else if k < 8 * n {
            let j = k - 4 * n;
            lemma_lane_bytes_round_trip(data, 4 * (n + j / 4));
        } else {
            let j = k - 8 * n;
            lemma_lane_bytes_round_trip(data, 4 * (2 * n + j / 4));
        }
    }
    assert(bytes =~= zero_padded(data, 12 * n));
}

/// A Xoodoo state: three planes of 32-bit lanes, with the five steps of the
/// round function. The view of a state is its grid of lanes, and every
/// implementation computes on it what the functions of this module say.
pub trait XoodooState: View<V = Seq<Seq<u32>>> + Sized {
    /// The number of lanes per plane of a state that is made with
    /// `num_lanes_per_plane`.
    spec fn lanes_per_plane(num_lanes_per_plane: Option<usize>) -> nat;

    /// The state holds a well-formed grid.
    open spec fn wf(&self) -> bool {
        grid_wf(self@)
    }

    /// The number of lanes in each plane of the state.
    open spec fn width(&self) -> nat {
        self@[0].len()
    }

    /// Reads a state from `data`, little-endian and lane by lane. Lanes and
    /// bytes that `data` does not supply are zero.
    fn new_from_bytes(data: &[u8], num_lanes_per_plane: Option<usize>) -> (state: Self)
        requires
            1 <= Self::lanes_per_plane(num_lanes_per_plane) <= 4,
            data@.len() <= 12 * Self::lanes_per_plane(num_lanes_per_plane),
        ensures
            state.wf(),
            state.width() == Self::lanes_per_plane(num_lanes_per_plane),
            state@ == grid_from_bytes(data@, Self::lanes_per_plane(num_lanes_per_plane)),
    ;

    /// The all-zero state.
    fn initialize(num_lanes_per_plane: Option<usize>) -> (state: Self)
        requires
            1 <= Self::lanes_per_plane(num_lanes_per_plane) <= 4,
        ensures
            state.wf(),
            state.width() == Self::lanes_per_plane(num_lanes_per_plane),
            state@ == grid_zero(Self::lanes_per_plane(num_lanes_per_plane)),
    ;

    /// Absorbs `data`: reads it as a state of the same width and xors that
    /// into this state.
    fn xor_state(&mut self, data: &[u8])
        requires
            old(self).wf(),
            data@.len() <= 12 * old(self).width(),
        ensures
            final(self).wf(),
            final(self).width() == old(self).width(),
            final(self)@ == absorb(old(self)@, data@),
    ;

    /// The column-parity mixing step of a round.
    fn theta_step(&mut self)
        requires
            old(self).wf(),
        ensures
            final(self).wf(),
            final(self).width() == old(self).width(),
            final(self)@ == theta(old(self)@),
    ;

    /// The first plane-shifting step of a round.
    fn rho_west_step(&mut self)
        requires
            old(self).wf(),
        ensures
            final(self).wf(),
            final(self).width() == old(self).width(),
            final(self)@ == rho_west(old(self)@),
    ;

    /// The step of a round that adds round constant `i`.
    fn iota_step(&mut self, i: usize)
        requires
            old(self).wf(),
            i < 12,
        ensures
            final(self).wf(),
            final(self).width() == old(self).width(),
            final(self)@ == iota(old(self)@, i as int),
    ;

    /// The non-linear step of a round.
    fn chi_step(&mut self)
        requires
            old(self).wf(),
        ensures
            final(self).wf(),
            final(self).width() == old(self).width(),
            final(self)@ == chi(old(self)@),
    ;

    /// The second plane-shifting step of a round.
    fn rho_east_step(&mut self)
        requires
            old(self).wf(),
        ensures
            final(self).wf(),
            final(self).width() == old(self).width(),
            final(self)@ == rho_east(old(self)@),
    ;

    /// Applies the round whose constant stands at position `i` of the
    /// schedule.
    fn round(&mut self, i: usize)
        requires
            old(self).wf(),
            i < 12,
        ensures
            final(self).wf(),
            final(self).width() == old(self).width(),
            final(self)@ == round(old(self)@, i as int),
    ;

    /// The bytes of the state: plane 0, then plane 1, then plane 2, each
    /// lane least significant byte first.
    fn get_state(&self) -> (bytes: Vec<u8>)
        requires
            self.wf(),
        ensures
            bytes@ == grid_to_bytes(self@),
            bytes@.len() == 12 * self.width(),
    ;
}

/// The state on planes of one to four lanes: up to twelve lanes, forty-eight
/// bytes.
pub struct XoodooStateFull {
    planes: [XoodooPlane; MAX_NUM_PLANES],
}

impl View for XoodooStateFull {
    type V = Seq<Seq<u32>>;

    closed spec fn view(&self) -> Seq<Seq<u32>> {
        Seq::new(MAX_NUM_PLANES as nat, |y: int| self.planes@[y]@)
    }
}

impl XoodooStateFull {
    /// A copy of plane `index`.
    pub fn get_plane(&self, index: usize) -> (plane: XoodooPlane)
        requires
            self.wf(),
            index < 3,
        ensures
            plane.wf(),
            plane@ == self@[index as int],
    {
        self.planes[index]
    }
}

impl XoodooState for XoodooStateFull {
    /// The width asked for, and four where none is.
    open spec fn lanes_per_plane(num_lanes_per_plane: Option<usize>) -> nat {
        match num_lanes_per_plane {
            Some(x) => x as nat,
            None => 4,
        }
    }

    fn new_from_bytes(data: &[u8], num_lanes_per_plane: Option<usize>) -> (state: Self) {
        let num_lanes = match num_lanes_per_plane {
            Some(x) => x,
            None => 4,
        };

        let mut planes = [XoodooPlane::new_with_capacity(num_lanes); MAX_NUM_PLANES];
        let bytes_per_plane = num_lanes * 4;

        for i in 0..MAX_NUM_PLANES
            invariant
                1 <= num_lanes <= 4,
                bytes_per_plane == 4 * num_lanes,
                data@.len() <= 3 * bytes_per_plane,
                forall|y: int|
                    0 <= y < i ==> #[trigger] planes@[y]@ == Seq::new(
                        num_lanes as nat,
                        |x: int| lane_at(data@, 4 * (y * num_lanes + x)),
                    ),
        {
            assert(i * bytes_per_plane == 4 * (i * num_lanes) && i * bytes_per_plane <= 32)
                by (nonlinear_arith)
                requires
                    i <= 2,
                    num_lanes <= 4,
                    bytes_per_plane == 4 * num_lanes,
            ;
            let start = i * bytes_per_plane;
            let end = start + bytes_per_plane;
            // the part of this plane's range that `data` reaches
            let (from, to) = if data.len() > end {
                (start, end)
            } else if data.len() > start {
                (start, data.len())
            } else {
                (data.len(), data.len())
            };
            let part = vstd::slice::slice_subrange(data, from, to);
            let plane = XoodooPlane::new_from_bytes(part, num_lanes);
            assert(plane@ =~= Seq::new(
                num_lanes as nat,
                |x: int| lane_at(data@, 4 * (i * num_lanes + x)),
            )) by {
                assert forall|k: int| 0 <= k < bytes_per_plane implies #[trigger] byte_at(part@, k)
                    == byte_at(data@, start + k) by {}
            }
            planes[i] = plane;
        }

        let state = Self { planes };
        assert(state@ =~~= grid_from_bytes(data@, num_lanes as nat));
        state
    }

    fn initialize(num_lanes_per_plane: Option<usize>) -> (state: Self) {
        let num_lanes = match num_lanes_per_plane {
            Some(x) => x,
            None => 4,
        };

        let planes = [XoodooPlane::new_with_capacity(num_lanes); MAX_NUM_PLANES];
        let state = Self { planes };
        assert(state@ =~~= grid_zero(num_lanes as nat));
        state
    }

    fn xor_state(&mut self, data: &[u8]) {
        let input = Self::new_from_bytes(data, Some(self.planes[0].get_num_lanes()));
        for i in 0..MAX_NUM_PLANES
            invariant
                old(self).wf(),
                input.wf(),
                input@[0].len() == old(self)@[0].len(),
                forall|y: int| 0 <= y < i ==> #[trigger] self.planes@[y]@ == plane_xor(old(self)@[y], input@[y]),
                forall|y: int| i <= y < 3 ==> #[trigger] self.planes@[y]@ == old(self)@[y],
        {
            self.planes[i].xor(&input.planes[i]);
        }
        assert(self@ =~~= absorb(old(self)@, data@));
    }

    fn theta_step(&mut self) {
        let mut near = XoodooPlane::new_from_plane(&self.planes[0]);
        near.xor(&self.planes[1]);
        near.xor(&self.planes[2]);

        let mut far = XoodooPlane::new_from_plane(&near);
        near.shift(1, 5);
        far.shift(1, 14);

        let mut e = XoodooPlane::new_from_plane(&near);
        e.xor(&far);

        for i in 0..MAX_NUM_PLANES
            invariant
                old(self).wf(),
                e@.len() == old(self)@[0].len(),
                forall|y: int| 0 <= y < i ==> #[trigger] self.planes@[y]@ == plane_xor(old(self)@[y], e@),
                forall|y: int| i <= y < 3 ==> #[trigger] self.planes@[y]@ == old(self)@[y],
        {
            self.planes[i].xor(&e);
        }
        assert(self@ =~~= theta(old(self)@));
    }

    fn rho_west_step(&mut self) {
        self.planes[1].shift(1, 0);
        self.planes[2].shift(0, 11);
        assert(self@ =~~= rho_west(old(self)@));
    }

    fn iota_step(&mut self, i: usize) {
        self.planes[0].xor_word(0, ROUND_CONSTANTS[i]);
        assert(self@ =~~= iota(old(self)@, i as int));
    }

    fn chi_step(&mut self) {
        let mut b0 = XoodooPlane::new_from_plane(&self.planes[1]);
        b0.complement();
        b0.and(&self.planes[2]);

        let mut b1 = XoodooPlane::new_from_plane(&self.planes[2]);
        b1.complement();
        b1.and(&self.planes[0]);

        let mut b2 = XoodooPlane::new_from_plane(&self.planes[0]);
        b2.complement();
        b2.and(&self.planes[1]);

        self.planes[0].xor(&b0);
        self.planes[1].xor(&b1);
        self.planes[2].xor(&b2);
        assert(self@ =~~= chi(old(self)@));
    }

    fn rho_east_step(&mut self) {
        self.planes[1].shift(0, 1);
        self.planes[2].shift(2, 8);
        assert(self@ =~~= rho_east(old(self)@));
    }

    fn round(&mut self, i: usize) {
        self.theta_step();
        self.rho_west_step();
        self.iota_step(i);
        self.chi_step();
        self.rho_east_step();
    }

    fn get_state(&self) -> (bytes: Vec<u8>) {
        let mut data: Vec<u8> = Vec::new();
        for i in 0..MAX_NUM_PLANES
            invariant
                self.wf(),
                data@ == if i == 0 {
                    Seq::<u8>::empty()
                } else if i == 1 {
                    plane_to_bytes(self@[0])
                } else if i == 2 {
                    plane_to_bytes(self@[0]) + plane_to_bytes(self@[1])
                } else {
                    grid_to_bytes(self@)
                },
        {
            let mut bytes = self.planes[i].get_lanes();
            data.append(&mut bytes);
        }
        data
    }
}

/// The narrow state: one lane per plane, held as three bare words. A plane
/// of one lane has no lane to move to, so every plane shift is a rotation
/// of its word.
pub struct XoodooStateNC {
    pub planes: [u32; 3],
}

impl View for XoodooStateNC {
    type V = Seq<Seq<u32>>;

    open spec fn view(&self) -> Seq<Seq<u32>> {
        seq![seq![self.planes[0]], seq![self.planes[1]], seq![self.planes[2]]]
    }
}

impl XoodooStateNC {
    /// The state whose first word is `data` and whose other words are zero.
    pub fn new_from_u32(data: u32) -> (state: Self)
        ensures
            state.wf(),
            state@ == seq![seq![data], seq![0u32], seq![0u32]],
    {
        Self { planes: [data, 0, 0] }
    }

    /// The state whose first word is the low half of `data`, whose second
    /// word is its high half, and whose third word is zero.
    pub fn new_from_u64(data: u64) -> (state: Self)
        ensures
            state.wf(),
            state@ == seq![seq![(data % 0x1_0000_0000) as u32], seq![(data / 0x1_0000_0000) as u32], seq![0u32]],
    {
        let low = data & 0xffff_ffff;
        let high = data >> 32;
        assert(low == data % 0x1_0000_0000 && high == data / 0x1_0000_0000) by (bit_vector)
            requires
                low == data & 0xffff_ffff,
                high == data >> 32,
        ;
        Self { planes: [low as u32, high as u32, 0] }
    }
}

impl XoodooState for XoodooStateNC {
    /// Always one.
    open spec fn lanes_per_plane(num_lanes_per_plane: Option<usize>) -> nat {
        1
    }

    fn new_from_bytes(data: &[u8], num_lanes_per_plane: Option<usize>) -> (state: Self) {
        let mut planes: [u32; 3] = [0; 3];
        for i in 0..MAX_NUM_PLANES
            invariant
                forall|y: int| 0 <= y < i ==> planes@[y] == lane_at(data@, 4 * y),
        {
            planes[i] = load_lane(data, i * 4);
        }
        let state = Self { planes };
        assert(state@ =~~= grid_from_bytes(data@, 1));
        state
    }

    fn initialize(num_lanes_per_plane: Option<usize>) -> (state: Self) {
        let planes = [0; 3];
        let state = Self { planes };
        assert(state@ =~~= grid_zero(1));
        state
    }

    fn xor_state(&mut self, data: &[u8]) {
        let input = Self::new_from_bytes(data, Some(1));
        for i in 0..MAX_NUM_PLANES
            invariant
                forall|y: int| 0 <= y < i ==> self.planes@[y] == old(self).planes@[y] ^ input.planes@[y],
                forall|y: int| i <= y < 3 ==> self.planes@[y] == old(self).planes@[y],
        {
            self.planes[i] ^= input.planes[i];
        }
        assert(self@ =~~= absorb(old(self)@, data@));
    }

    #[inline]
    fn theta_step(&mut self) {
        let mut near = self.planes[0] ^ self.planes[1] ^ self.planes[2];
        let mut far = near;

        near = shift_lane(near, 5);
        far = shift_lane(far, 14);

        let e = near ^ far;

        self.planes[0] ^= e;
        self.planes[1] ^= e;
        self.planes[2] ^= e;
        assert(self@ =~~= theta(old(self)@));
    }

    #[inline]
    fn rho_west_step(&mut self) {
        self.planes[2] = shift_lane(self.planes[2], 11);
        assert(self@ =~~= rho_west(old(self)@));
    }

    #[inline]
    fn iota_step(&mut self, i: usize) {
        self.planes[0] ^= ROUND_CONSTANTS[i];
        assert(self@ =~~= iota(old(self)@, i as int));
    }

    #[inline]
    fn chi_step(&mut self) {
        let b0 = !self.planes[1] & self.planes[2];
        let b1 = !self.planes[2] & self.planes[0];
        let b2 = !self.planes[0] & self.planes[1];

        self.planes[0] ^= b0;
        self.planes[1] ^= b1;
        self.planes[2] ^= b2;
        assert(self@ =~~= chi(old(self)@));
    }

    #[inline]
    fn rho_east_step(&mut self) {
        self.planes[1] = shift_lane(self.planes[1], 1);
        self.planes[2] = shift_lane(self.planes[2], 8);
        assert(self@ =~~= rho_east(old(self)@));
    }

    #[inline]
    fn round(&mut self, i: usize) {
        self.theta_step();
        self.rho_west_step();
        self.iota_step(i);
        self.chi_step();
        self.rho_east_step();
    }

    fn get_state(&self) -> (bytes: Vec<u8>) {
        let mut data: Vec<u8> = Vec::new();
        for i in 0..MAX_NUM_PLANES
            invariant
                data@.len() == 4 * i,
                forall|k: int| 0 <= k < 4 * i ==> data@[k] == lane_byte(self.planes@[k / 4], k % 4),
        {
            let word = self.planes[i];
            for j in 0..4usize
                invariant
                    i < 3,
                    word == self.planes@[i as int],
                    data@.len() == 4 * i + j,
                    forall|k: int| 0 <= k < 4 * i + j ==> data@[k] == lane_byte(self.planes@[k / 4], k % 4),
            {
                let shifted = word >> 8 * j;
                assert(shifted & 0xff <= 0xff) by (bit_vector);
                data.push((shifted & 0xff) as u8);
            }
        }
        assert(data@ =~= grid_to_bytes(self@));
        data
    }
}

} // verus!
