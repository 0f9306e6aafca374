//! Lanes and planes.
//!
//! A lane is a 32-bit word. A plane is a row of one to four lanes; the index
//! of a lane in its plane is its x-coordinate, the index of a bit in its lane
//! is its z-coordinate. The model of a plane is the `Seq<u32>` of its lanes.

use vstd::prelude::*;

verus! {

/// The largest number of lanes a plane can hold.
pub const MAX_PLANE_LANES: usize = 4;

/// The number of bytes in one lane.
pub const LANE_SIZE: usize = 4;

/// `lane` rotated left by `r` bit positions, for `r` below 32.
pub open spec fn rotate_left(lane: u32, r: u32) -> u32 {
    if r == 0 {
        lane
    } else {
        (lane << r) | (lane >> ((32 - r) as u32))
    }
}

/// `lane` rotated cyclically by `z` bit positions: to the left for positive
/// `z`, to the right for negative `z`, with `z` taken modulo 32.
pub open spec fn spec_shift_lane(lane: u32, z: int) -> u32 {
    rotate_left(lane, (z % 32) as u32)
}

/// The byte at position `k` of `data` extended with zeros on both sides.
pub open spec fn byte_at(data: Seq<u8>, k: int) -> u8 {
    if 0 <= k < data.len() {
        data[k]
    } else {
        0
    }
}

/// The first `len` bytes of `data` extended with zeros.
pub open spec fn zero_padded(data: Seq<u8>, len: nat) -> Seq<u8> {
    Seq::new(len, |k: int| byte_at(data, k))
}

/// The lane whose little-endian bytes are `b0`, `b1`, `b2`, `b3`.
pub open spec fn lane_from_bytes(b0: u8, b1: u8, b2: u8, b3: u8) -> u32 {
    (b0 as u32) | ((b1 as u32) << 8) | ((b2 as u32) << 16) | ((b3 as u32) << 24)
}

/// The lane read little-endian from the four bytes of zero-extended `data`
/// that start at position `k`.
pub open spec fn lane_at(data: Seq<u8>, k: int) -> u32 {
    lane_from_bytes(byte_at(data, k), byte_at(data, k + 1), byte_at(data, k + 2), byte_at(data, k + 3))
}

/// Byte `j` of `lane`, byte 0 being the least significant.
pub open spec fn lane_byte(lane: u32, j: int) -> u8 {
    ((lane >> ((8 * j) as u32)) & 0xff) as u8
}

/// The plane of `n` zero lanes.
pub open spec fn plane_zero(n: nat) -> Seq<u32> {
    Seq::new(n, |i: int| 0u32)
}

/// The plane of `n` lanes read little-endian from `data`, which is extended
/// with zeros where it is shorter than `4 * n` bytes.
pub open spec fn plane_from_bytes(data: Seq<u8>, n: nat) -> Seq<u32> {
    Seq::new(n, |i: int| lane_at(data, 4 * i))
}

/// The little-endian bytes of the lanes of a plane, in lane order.
pub open spec fn plane_to_bytes(lanes: Seq<u32>) -> Seq<u8> {
    Seq::new(4 * lanes.len(), |k: int| lane_byte(lanes[k / 4], k % 4))
}

/// Lane-wise exclusive or of two planes of equal width.
pub open spec fn plane_xor(a: Seq<u32>, b: Seq<u32>) -> Seq<u32> {
    Seq::new(a.len(), |i: int| a[i] ^ b[i])
}

/// Lane-wise conjunction of two planes of equal width.
pub open spec fn plane_and(a: Seq<u32>, b: Seq<u32>) -> Seq<u32> {
    Seq::new(a.len(), |i: int| a[i] & b[i])
}

/// Lane-wise complement of a plane.
pub open spec fn plane_complement(a: Seq<u32>) -> Seq<u32> {
    Seq::new(a.len(), |i: int| !a[i])
}

/// The plane moved cyclically by `x` lanes and `z` bits: lane `i` of the
/// result is lane `i - x` (modulo the width) of `lanes`, rotated by `z`.
pub open spec fn plane_shift(lanes: Seq<u32>, x: int, z: int) -> Seq<u32> {
    Seq::new(lanes.len(), |i: int| spec_shift_lane(lanes[(i - x) % (lanes.len() as int)], z))
}

/// The remainder that rounds toward zero, as signed machine integers
/// compute it.
spec fn truncating_rem(a: int, n: int) -> int {
    if a >= 0 {
        a % n
    } else {
        -((-a) % n)
    }
}

/// Rotates `lane` cyclically by `z` bit positions; a negative `z` rotates to
/// the right.
#[inline]
pub fn shift_lane(lane: u32, z: i32) -> (r: u32)
    ensures
        r == spec_shift_lane(lane, z as int),
{
    if z == 0 {
        lane
    } else {
        // bring z into the range of a 32-bit rotation, whatever its sign
        let z: i32 = ((z % 32) + 32) % 32;
        if z == 0 {
            lane
        } else {
            (lane << z) | (lane >> (32 - z))
        }
    }
}

/// Reads the lane that starts at byte `offset` of `data`, least significant
/// byte first. Bytes that `data` does not supply are zero.
pub fn load_lane(data: &[u8], offset: usize) -> (lane: u32)
    requires
        offset + LANE_SIZE <= usize::MAX,
    ensures
        lane == lane_at(data@, offset as int),
{
    let mut lane: u32 = 0;
    let mut j: usize = 0;
    proof {
        lemma_lane_gains_byte(0, 0, 0, 0);
    }
    while j < LANE_SIZE && offset + j < data.len()
        invariant
            offset + LANE_SIZE <= usize::MAX,
            j <= LANE_SIZE,
            lane == lane_from_bytes(
                if 0 < j { byte_at(data@, offset as int) } else { 0 },
                if 1 < j { byte_at(data@, offset + 1) } else { 0 },
                if 2 < j { byte_at(data@, offset + 2) } else { 0 },
                if 3 < j { byte_at(data@, offset + 3) } else { 0 },
            ),
        decreases LANE_SIZE - j,
    {
        let byte = data[offset + j];
        proof {
            lemma_lane_gains_byte(
                byte_at(data@, offset as int),
                byte_at(data@, offset + 1),
                byte_at(data@, offset + 2),
                byte,
            );
        }
        lane = lane | ((byte as u32) << 8 * j);
        j += 1;
    }
    lane
}

/// A row of one to four 32-bit lanes, held in place.
#[derive(Debug, Clone, Copy)]
pub struct XoodooPlane {
    /// The lanes of the plane stand first; what follows them is not part
    /// of the plane.
    lanes: [u32; MAX_PLANE_LANES],
    num_lanes: usize,
}

impl View for XoodooPlane {
    type V = Seq<u32>;

    closed spec fn view(&self) -> Seq<u32> {
        Seq::new(self.num_lanes as nat, |i: int| self.lanes@[i])
    }
}

impl XoodooPlane {
    /// A plane holds between one and four lanes.
    pub open spec fn wf(&self) -> bool {
        1 <= self@.len() <= MAX_PLANE_LANES
    }

    /// A copy of `other`.
    pub fn new_from_plane(other: &Self) -> (plane: Self)
        ensures
            plane@ == other@,
    {
        Self { lanes: other.lanes, num_lanes: other.num_lanes }
    }

    /// The plane of `num_lanes` zero lanes.
    pub fn new_with_capacity(num_lanes: usize) -> (plane: Self)
        requires
            1 <= num_lanes <= MAX_PLANE_LANES,
        ensures
            plane.wf(),
            plane@ == plane_zero(num_lanes as nat),
    {
        let plane = Self { lanes: [0; MAX_PLANE_LANES], num_lanes };
        assert(plane@ =~= plane_zero(num_lanes as nat));
        plane
    }

    /// Reads a plane of `num_lanes` lanes from `data`, four bytes to a lane,
    /// least significant byte first. Bytes that `data` does not supply are
    /// zero.
    pub fn new_from_bytes(data: &[u8], num_lanes: usize) -> (plane: Self)
        requires
            1 <= num_lanes <= MAX_PLANE_LANES,
            data@.len() <= num_lanes * LANE_SIZE,
        ensures
            plane.wf(),
            plane@ == plane_from_bytes(data@, num_lanes as nat),
    {
        // the lanes that hold at least one byte of `data`
        let chunks = if data.len() % LANE_SIZE == 0 {
            data.len() / LANE_SIZE
        } else {
            (data.len() / LANE_SIZE) + 1
        };

        let mut lanes: [u32; MAX_PLANE_LANES] = [0; MAX_PLANE_LANES];
        for i in 0..chunks
            invariant
                chunks <= num_lanes <= MAX_PLANE_LANES,
                data@.len() <= chunks * LANE_SIZE,
                forall|k: int| 0 <= k < i ==> lanes@[k] == lane_at(data@, 4 * k),
                forall|k: int| i <= k < MAX_PLANE_LANES ==> lanes@[k] == 0,
        {
            lanes[i] = load_lane(data, i * LANE_SIZE);
        }
        proof {
            lemma_lane_gains_byte(0, 0, 0, 0);
        }
        let plane = Self { lanes, num_lanes };
        assert(plane@ =~= plane_from_bytes(data@, num_lanes as nat));
        plane
    }

    /// The number of lanes of the plane.
    pub fn get_num_lanes(&self) -> (n: usize)
        ensures
            n == self@.len(),
    {
        self.num_lanes
    }

    /// Xors `x` into one lane.
    pub fn xor_word(&mut self, lane: usize, x: u32)
        requires
            old(self).wf(),
            lane < old(self)@.len(),
        ensures
            final(self).wf(),
            final(self)@.len() == old(self)@.len(),
            final(self)@ == old(self)@.update(lane as int, old(self)@[lane as int] ^ x),
    {
        self.lanes[lane] ^= x;
        assert(self@ =~= old(self)@.update(lane as int, old(self)@[lane as int] ^ x));
    }

    /// Xors `other` into this plane, lane by lane.
    pub fn xor(&mut self, other: &XoodooPlane)
        requires
            old(self).wf(),
            other@.len() == old(self)@.len(),
        ensures
            final(self).wf(),
            final(self)@.len() == old(self)@.len(),
            final(self)@ == plane_xor(old(self)@, other@),
    {
        let num_lanes = self.num_lanes;
        for i in 0..num_lanes
            invariant
                num_lanes == self.num_lanes == old(self).num_lanes == other.num_lanes,
                num_lanes <= MAX_PLANE_LANES,
                forall|k: int| 0 <= k < i ==> self.lanes@[k] == old(self).lanes@[k] ^ other.lanes@[k],
                forall|k: int| i <= k < num_lanes ==> self.lanes@[k] == old(self).lanes@[k],
        {
            self.lanes[i] ^= other.lanes[i];
        }
        assert(self@ =~= plane_xor(old(self)@, other@));
    }

    /// Ands `other` into this plane, lane by lane.
    pub fn and(&mut self, other: &XoodooPlane)
        requires
            old(self).wf(),
            other@.len() == old(self)@.len(),
        ensures
            final(self).wf(),
            final(self)@.len() == old(self)@.len(),
            final(self)@ == plane_and(old(self)@, other@),
    {
        let num_lanes = self.num_lanes;
        for i in 0..num_lanes
            invariant
                num_lanes == self.num_lanes == old(self).num_lanes == other.num_lanes,
                num_lanes <= MAX_PLANE_LANES,
                forall|k: int| 0 <= k < i ==> self.lanes@[k] == old(self).lanes@[k] & other.lanes@[k],
                forall|k: int| i <= k < num_lanes ==> self.lanes@[k] == old(self).lanes@[k],
        {
            self.lanes[i] &= other.lanes[i];
        }
        assert(self@ =~= plane_and(old(self)@, other@));
    }

    /// Flips every bit of every lane.
    pub fn complement(&mut self)
        requires
            old(self).wf(),
        ensures
            final(self).wf(),
            final(self)@.len() == old(self)@.len(),
            final(self)@ == plane_complement(old(self)@),
    {
        let num_lanes = self.num_lanes;
        for i in 0..num_lanes
            invariant
                num_lanes == self.num_lanes == old(self).num_lanes,
                num_lanes <= MAX_PLANE_LANES,
                forall|k: int| 0 <= k < i ==> self.lanes@[k] == !old(self).lanes@[k],
                forall|k: int| i <= k < num_lanes ==> self.lanes@[k] == old(self).lanes@[k],
        {
            self.lanes[i] = !self.lanes[i];
        }
        assert(self@ =~= plane_complement(old(self)@));
    }

    /// Moves the plane cyclically by `x` lanes and `z` bits. `x` is the
    /// lane offset and `z` the bit offset within each lane; either may be
    /// negative, and both wrap around.
    pub fn shift(&mut self, x: i32, z: i32)
        requires
            old(self).wf(),
        ensures
            final(self).wf(),
            final(self)@.len() == old(self)@.len(),
            final(self)@ == plane_shift(old(self)@, x as int, z as int),
    {
        if self.num_lanes == 1 {
            // a single lane has nowhere to move: only its bits rotate
            self.lanes[0] = shift_lane(self.lanes[0], z);
            assert(self@ =~= plane_shift(old(self)@, x as int, z as int));
            return;
        }
        let num_lanes = self.num_lanes;
        let mut tmp = Self::new_with_capacity(num_lanes);
        for i in 0..num_lanes
            invariant
                1 <= num_lanes <= MAX_PLANE_LANES,
                *self == *old(self),
                self.num_lanes == num_lanes == tmp.num_lanes,
                forall|k: int|
                    0 <= k < i ==> tmp.lanes@[k] == spec_shift_lane(
                        self.lanes@[(k - x) % (num_lanes as int)],
                        z as int,
                    ),
        {
            let n = num_lanes as i64;
            let offset = i as i64 - x as i64;
            let index = ((offset % n) + n) % n;
            proof {
                lemma_wrapped_remainder(offset as int, n as int);
            }
            tmp.lanes[i] = shift_lane(self.lanes[index as usize], z);
        }
        self.lanes = tmp.lanes;
        assert(self@ =~= plane_shift(old(self)@, x as int, z as int));
    }

    /// The bytes of the plane: each lane in turn, least significant byte
    /// first.
    pub fn get_lanes(&self) -> (data: Vec<u8>)
        requires
            self.wf(),
        ensures
            data@ == plane_to_bytes(self@),
            data@.len() == LANE_SIZE * self@.len(),
    {
        let mut data: Vec<u8> = Vec::new();
        let num_lanes = self.num_lanes;
        for i in 0..num_lanes
            invariant
                num_lanes == self.num_lanes <= MAX_PLANE_LANES,
                data@.len() == 4 * i,
                forall|k: int| 0 <= k < 4 * i ==> data@[k] == lane_byte(self.lanes@[k / 4], k % 4),
        {
            let lane = self.lanes[i];
            for j in 0..LANE_SIZE
                invariant
                    i < num_lanes == self.num_lanes <= MAX_PLANE_LANES,
                    lane == self.lanes@[i as int],
                    data@.len() == 4 * i + j,
                    forall|k: int|
                        0 <= k < 4 * i + j ==> data@[k] == lane_byte(self.lanes@[k / 4], k % 4),
            {
                let shifted = lane >> 8 * j;
                assert(shifted & 0xff <= 0xff) by (bit_vector);
                data.push((shifted & 0xff) as u8);
            }
        }
        assert(data@ =~= plane_to_bytes(self@));
        data
    }
}

/// Four zero bytes make the zero lane, and or-ing a byte into the lowest
/// position of a lane that is still zero from there on sets that byte and
/// leaves the bytes below it.
proof fn lemma_lane_gains_byte(b0: u8, b1: u8, b2: u8, byte: u8)
    by (bit_vector)
    ensures
        lane_from_bytes(0, 0, 0, 0) == 0,
        0u32 | ((byte as u32) << 0) == lane_from_bytes(byte, 0, 0, 0),
        lane_from_bytes(b0, 0, 0, 0) | ((byte as u32) << 8) == lane_from_bytes(b0, byte, 0, 0),
        lane_from_bytes(b0, b1, 0, 0) | ((byte as u32) << 16) == lane_from_bytes(b0, b1, byte, 0),
        lane_from_bytes(b0, b1, b2, 0) | ((byte as u32) << 24) == lane_from_bytes(b0, b1, b2, byte),
{
}

/// Each byte of a lane built from four bytes is the byte it was built from.
proof fn lemma_lane_bytes(b0: u8, b1: u8, b2: u8, b3: u8)
    by (bit_vector)
    ensures
        ((lane_from_bytes(b0, b1, b2, b3) >> 0) & 0xff) as u8 == b0,
        ((lane_from_bytes(b0, b1, b2, b3) >> 8) & 0xff) as u8 == b1,
        ((lane_from_bytes(b0, b1, b2, b3) >> 16) & 0xff) as u8 == b2,
        ((lane_from_bytes(b0, b1, b2, b3) >> 24) & 0xff) as u8 == b3,
{
}

/// Rotating left by `r` and then by `32 - r` restores the lane.
proof fn lemma_rotate_back(lane: u32, r: u32)
    by (bit_vector)
    requires
        r < 32,
    ensures
        rotate_left(rotate_left(lane, r), ((32 - r) % 32) as u32) == lane,
{
}

/// Xor-ing the same lane in twice changes nothing.
proof fn lemma_xor_twice(a: u32, b: u32)
    by (bit_vector)
    ensures
        (a ^ b) ^ b == a,
{
}

/// Reducing with the truncating remainder, adding the modulus and reducing
/// again gives the remainder that is never negative.
proof fn lemma_wrapped_remainder(a: int, n: int)
    requires
        1 <= n <= 4,
    ensures
        (truncating_rem(a, n) + n) % n == a % n,
{
    // for each modulus in turn this is linear arithmetic
    if n == 1 {
        assert((truncating_rem(a, 1) + 1) % 1 == a % 1);
    } else if n == 2 {
        assert((truncating_rem(a, 2) + 2) % 2 == a % 2);
    } else if n == 3 {
        assert((truncating_rem(a, 3) + 3) % 3 == a % 3);
    } else {
        assert((truncating_rem(a, 4) + 4) % 4 == a % 4);
    }
}

/// Rotating a lane by `z` and then by `-z` restores it.
pub proof fn lemma_shift_lane_inverse(lane: u32, z: int)
    ensures
        spec_shift_lane(spec_shift_lane(lane, z), -z) == lane,
{
    let r = (z % 32) as u32;
    assert((-z) % 32 == (32 - r) % 32);
    lemma_rotate_back(lane, r);
}

/// A shift is a bijection on the lane grid: shifting by `(x, z)` and then
/// by `(-x, -z)` restores the plane, whatever the signs of `x` and `z` and
/// however often they wrap around.
pub proof fn lemma_shift_inverse(lanes: Seq<u32>, x: int, z: int)
    ensures
        plane_shift(plane_shift(lanes, x, z), -x, -z) == lanes,
{
    let n = lanes.len() as int;
    let there = plane_shift(lanes, x, z);
    let back = plane_shift(there, -x, -z);
    assert forall|i: int| 0 <= i < n implies back[i] == lanes[i] by {
        // lane i comes back from where it went: position i + x
        let j = (i + x) % n;
        assert(0 <= j < n) by {
            vstd::arithmetic::div_mod::lemma_mod_bound(i + x, n);
        }
        assert((j - x) % n == i) by {
            vstd::arithmetic::div_mod::lemma_sub_mod_noop_right(j, x, n);
            vstd::arithmetic::div_mod::lemma_sub_mod_noop(i + x, x, n);
            vstd::arithmetic::div_mod::lemma_small_mod(i as nat, n as nat);
        }
        assert(i - (-x) == i + x);
        assert(there[j] == spec_shift_lane(lanes[i], z));
        lemma_shift_lane_inverse(lanes[i], z);
    }
    assert(back =~= lanes);
}

/// Xor-ing the same plane in twice restores the plane.
pub proof fn lemma_plane_xor_twice(a: Seq<u32>, b: Seq<u32>)
    ensures
        plane_xor(plane_xor(a, b), b) == a,
{
    assert forall|i: int| 0 <= i < a.len() implies plane_xor(plane_xor(a, b), b)[i] == a[i] by {
        lemma_xor_twice(a[i], b[i]);
    }
    assert(plane_xor(plane_xor(a, b), b) =~= a);
}

/// The bytes of the lane read at position `k` of `data` are the four bytes
/// of zero-extended `data` from position `k` on.
pub proof fn lemma_lane_bytes_round_trip(data: Seq<u8>, k: int)
    ensures
        lane_byte(lane_at(data, k), 0) == byte_at(data, k),
        lane_byte(lane_at(data, k), 1) == byte_at(data, k + 1),
        lane_byte(lane_at(data, k), 2) == byte_at(data, k + 2),
        lane_byte(lane_at(data, k), 3) == byte_at(data, k + 3),
{
    lemma_lane_bytes(byte_at(data, k), byte_at(data, k + 1), byte_at(data, k + 2), byte_at(data, k + 3));
}

/// Writing out a plane that was read from `data` gives `data` back, cut or
/// extended with zeros to the plane's `4 * n` bytes.
pub proof fn lemma_plane_bytes_round_trip(data: Seq<u8>, n: nat)
    ensures
        plane_to_bytes(plane_from_bytes(data, n)) == zero_padded(data, 4 * n),
{
    let lanes = plane_from_bytes(data, n);
    assert forall|k: int| 0 <= k < 4 * n implies plane_to_bytes(lanes)[k] == byte_at(data, k) by {
        lemma_lane_bytes_round_trip(data, 4 * (k / 4));
    }
    assert(plane_to_bytes(lanes) =~= zero_padded(data, 4 * n));
}

} // verus!
