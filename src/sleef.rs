//! Lane primitives: the bit-level vocabulary of a vectorised math kernel.
//!
//! A 128-bit register is seen as four binary32 floats (`VFloat`, each lane
//! held as its bit pattern), four 32-bit integers (`VInt`, also used for
//! masks) or two 64-bit groups (`VDouble`). Moving between the views is a
//! bit cast, never a numeric conversion.
use vstd::prelude::*;

use crate::binary32::{
    exponent_field, is_nan, lemma_order_matches_value, magnitude, scaled_value, SIGN_BIT,
};

verus! {

/// Four binary32 lanes, each held as its bit pattern.
#[derive(Clone, Copy, Debug)]
pub struct VFloat {
    pub lanes: [u32; 4],
}

/// Four 32-bit integer lanes; a mask has each lane all ones or all zeros.
#[derive(Clone, Copy, Debug)]
pub struct VInt {
    pub lanes: [i32; 4],
}

/// The same 128 bits seen as two 64-bit groups, low group first.
#[derive(Clone, Copy, Debug)]
pub struct VDouble {
    pub lanes: [u64; 2],
}

impl View for VFloat {
    type V = Seq<u32>;

    open spec fn view(&self) -> Seq<u32> {
        self.lanes@
    }
}

impl View for VInt {
    type V = Seq<i32>;

    open spec fn view(&self) -> Seq<i32> {
        self.lanes@
    }
}

impl View for VDouble {
    type V = Seq<u64>;

    open spec fn view(&self) -> Seq<u64> {
        self.lanes@
    }
}

/// The mask lane for a predicate: all ones when it holds, all zeros otherwise.
pub open spec fn mask_lane(b: bool) -> i32 {
    if b {
        -1i32
    } else {
        0i32
    }
}

/// Broadcasts one binary32 bit pattern into all four lanes.
pub fn vcast_vf_f(f: u32) -> (r: VFloat)
    ensures
        forall|i: int| 0 <= i < 4 ==> #[trigger] r@[i] == f,
{
    VFloat { lanes: [f, f, f, f] }
}

/// Broadcasts one integer into all four lanes.
pub fn vcast_vi2_i(i: i32) -> (r: VInt)
    ensures
        forall|k: int| 0 <= k < 4 ==> #[trigger] r@[k] == i,
{
    VInt { lanes: [i, i, i, i] }
}

/// Ordered, quiet `a < b` on binary32 values: false when either is NaN.
pub open spec fn float_lt(a: u32, b: u32) -> bool {
    !is_nan(a) && !is_nan(b) && scaled_value(a) < scaled_value(b)
}

/// A 64-bit group made of two 32-bit lanes, the first one low.
pub open spec fn pack(lo: i32, hi: i32) -> u64 {
    ((lo as u32) as u64 | (((hi as u32) as u64) << 32u64)) as u64
}

/// Reads the float lanes as integer lanes, bit for bit.
pub fn vreinterpret_vm_vf(vf: VFloat) -> (r: VInt)
    ensures
        forall|i: int| 0 <= i < 4 ==> #[trigger] r@[i] == vf@[i] as i32,
{
    VInt {
        lanes: [
            vf.lanes[0] as i32,
            vf.lanes[1] as i32,
            vf.lanes[2] as i32,
            vf.lanes[3] as i32,
        ],
    }
}

/// Reads integer lanes as float lanes, bit for bit.
pub fn vreinterpret_vf_vm(vm: VInt) -> (r: VFloat)
    ensures
        forall|i: int| 0 <= i < 4 ==> #[trigger] r@[i] == vm@[i] as u32,
{
    VFloat {
        lanes: [
            vm.lanes[0] as u32,
            vm.lanes[1] as u32,
            vm.lanes[2] as u32,
            vm.lanes[3] as u32,
        ],
    }
}

/// Reads the float lanes as integer lanes; the integer-side name of
/// `vreinterpret_vm_vf`.
pub fn vreinterpret_vi2_vf(vf: VFloat) -> (r: VInt)
    ensures
        forall|i: int| 0 <= i < 4 ==> #[trigger] r@[i] == vf@[i] as i32,
{
    vreinterpret_vm_vf(vf)
}

/// Reads four 32-bit lanes as two 64-bit groups, bit for bit.
pub fn vreinterpret_vd_vm(vm: VInt) -> (r: VDouble)
    ensures
        r@[0] == pack(vm@[0], vm@[1]),
        r@[1] == pack(vm@[2], vm@[3]),
{
    let lo: u64 = (vm.lanes[0] as u32) as u64 | (((vm.lanes[1] as u32) as u64) << 32u64);
    let hi: u64 = (vm.lanes[2] as u32) as u64 | (((vm.lanes[3] as u32) as u64) << 32u64);
    VDouble { lanes: [lo, hi] }
}

/// Reads two 64-bit groups as four 32-bit lanes, low half first.
pub fn vreinterpret_vm_vd(vd: VDouble) -> (r: VInt)
    ensures
        r@[0] == vd@[0] as i32,
        r@[1] == (vd@[0] >> 32u64) as i32,
        r@[2] == vd@[1] as i32,
        r@[3] == (vd@[1] >> 32u64) as i32,
{
    VInt {
        lanes: [
            vd.lanes[0] as i32,
            (vd.lanes[0] >> 32u64) as i32,
            vd.lanes[1] as i32,
            (vd.lanes[1] >> 32u64) as i32,
        ],
    }
}

proof fn lemma_pack_unpack(lo: i32, hi: i32)
    by (bit_vector)
    ensures
        pack(lo, hi) as i32 == lo,
        (pack(lo, hi) >> 32u64) as i32 == hi,
{
}

proof fn lemma_unpack_pack(d: u64)
    by (bit_vector)
    ensures
        pack(d as i32, (d >> 32u64) as i32) == d,
{
}

/// Viewing four 32-bit lanes as two 64-bit groups and back gives the lanes
/// unchanged, and the other way round.
pub proof fn law_reinterpret_round_trip(m: VInt, d: VDouble)
    ensures
        pack(m@[0], m@[1]) as i32 == m@[0],
        (pack(m@[0], m@[1]) >> 32u64) as i32 == m@[1],
        pack(m@[2], m@[3]) as i32 == m@[2],
        (pack(m@[2], m@[3]) >> 32u64) as i32 == m@[3],
        pack(d@[0] as i32, (d@[0] >> 32u64) as i32) == d@[0],
        pack(d@[1] as i32, (d@[1] >> 32u64) as i32) == d@[1],
{
    lemma_pack_unpack(m@[0], m@[1]);
    lemma_pack_unpack(m@[2], m@[3]);
    lemma_unpack_pack(d@[0]);
    lemma_unpack_pack(d@[1]);
}

/// A bit cast between the lane views and back.
pub(crate) proof fn lemma_float_int_cast(b: u32, m: i32)
    by (bit_vector)
    ensures
        (b as i32) as u32 == b,
        (m as u32) as i32 == m,
{
}

/// Viewing float lanes as integer lanes and back gives the bits unchanged,
/// and the other way round.
pub proof fn law_float_int_round_trip(vf: VFloat, vm: VInt)
    ensures
        forall|i: int| 0 <= i < 4 ==> #[trigger] ((vf@[i] as i32) as u32) == vf@[i],
        forall|i: int| 0 <= i < 4 ==> #[trigger] ((vm@[i] as u32) as i32) == vm@[i],
{
    assert forall|i: int| 0 <= i < 4 implies #[trigger] ((vf@[i] as i32) as u32) == vf@[i] by {
        lemma_float_int_cast(vf@[i], 0);
    }
    assert forall|i: int| 0 <= i < 4 implies #[trigger] ((vm@[i] as u32) as i32) == vm@[i] by {
        lemma_float_int_cast(0, vm@[i]);
    }
}

/// Bitwise and-not over the whole register: `!x & y` in every lane.
pub fn vandnot_vm_vm_vm(x: VInt, y: VInt) -> (r: VInt)
    ensures
        forall|i: int| 0 <= i < 4 ==> #[trigger] r@[i] == !x@[i] & y@[i],
{
    VInt {
        lanes: [
            !x.lanes[0] & y.lanes[0],
            !x.lanes[1] & y.lanes[1],
            !x.lanes[2] & y.lanes[2],
            !x.lanes[3] & y.lanes[3],
        ],
    }
}

/// Integer-view and-not: `!x & y` in every lane.
pub fn vandnot_vi2_vi2_vi2(x: VInt, y: VInt) -> (r: VInt)
    ensures
        forall|i: int| 0 <= i < 4 ==> #[trigger] r@[i] == !x@[i] & y@[i],
{
    vandnot_vm_vm_vm(x, y)
}

/// Integer-view and: `x & y` in every lane.
pub fn vand_vi2_vi2_vi2(x: VInt, y: VInt) -> (r: VInt)
    ensures
        forall|i: int| 0 <= i < 4 ==> #[trigger] r@[i] == x@[i] & y@[i],
{
    VInt {
        lanes: [
            x.lanes[0] & y.lanes[0],
            x.lanes[1] & y.lanes[1],
            x.lanes[2] & y.lanes[2],
            x.lanes[3] & y.lanes[3],
        ],
    }
}

proof fn lemma_and_mask(a: i32)
    by (bit_vector)
    ensures
        (-1i32 & a) == a,
        (0i32 & a) == 0,
{
}

/// Masks integer lanes: `x & y` in every lane, where `x` is a mask.
pub fn vand_vi2_vo_vi2(x: VInt, y: VInt) -> (r: VInt)
    ensures
        forall|i: int| 0 <= i < 4 ==> #[trigger] r@[i] == x@[i] & y@[i],
        forall|i: int| 0 <= i < 4 && x@[i] == mask_lane(true) ==> #[trigger] r@[i] == y@[i],
        forall|i: int| 0 <= i < 4 && x@[i] == mask_lane(false) ==> #[trigger] r@[i] == 0,
{
    let r = vand_vi2_vi2_vi2(x, y);
    assert forall|i: int| 0 <= i < 4 implies (-1i32 & #[trigger] y@[i]) == y@[i] && (0i32 & y@[i])
        == 0 by {
        lemma_and_mask(y@[i]);
    }
    r
}

/// A difference of two 32-bit integers brought back into their range
/// modulo 2^32.
pub open spec fn wrap_i32(v: int) -> int {
    if v > i32::MAX {
        v - 0x1_0000_0000
    } else if v < i32::MIN {
        v + 0x1_0000_0000
    } else {
        v
    }
}

/// Wrapping subtraction in every integer lane.
pub fn vsub_vi2_vi2_vi2(x: VInt, y: VInt) -> (r: VInt)
    ensures
        forall|i: int| 0 <= i < 4 ==> #[trigger] r@[i] as int == wrap_i32(x@[i] - y@[i]),
{
    VInt {
        lanes: [
            x.lanes[0].wrapping_sub(y.lanes[0]),
            x.lanes[1].wrapping_sub(y.lanes[1]),
            x.lanes[2].wrapping_sub(y.lanes[2]),
            x.lanes[3].wrapping_sub(y.lanes[3]),
        ],
    }
}

/// Signed `x > y` in every integer lane, as a mask.
pub fn vgt_vo_vi2_vi2(x: VInt, y: VInt) -> (r: VInt)
    ensures
        forall|i: int| 0 <= i < 4 ==> #[trigger] r@[i] == mask_lane(x@[i] > y@[i]),
{
    VInt {
        lanes: [
            if x.lanes[0] > y.lanes[0] { -1 } else { 0 },
            if x.lanes[1] > y.lanes[1] { -1 } else { 0 },
            if x.lanes[2] > y.lanes[2] { -1 } else { 0 },
            if x.lanes[3] > y.lanes[3] { -1 } else { 0 },
        ],
    }
}

/// Logical right shift of every integer lane; a count over 31 clears it.
pub fn vsrl_vi2_vi2_i(x: VInt, c: u32) -> (r: VInt)
    ensures
        forall|i: int| 0 <= i < 4 ==> #[trigger] r@[i] == ((x@[i] as u32) >> c) as i32,
{
    let mut lanes: [i32; 4] = [0, 0, 0, 0];
    if c < 32 {
        lanes = [
            ((x.lanes[0] as u32) >> c) as i32,
            ((x.lanes[1] as u32) >> c) as i32,
            ((x.lanes[2] as u32) >> c) as i32,
            ((x.lanes[3] as u32) >> c) as i32,
        ];
    } else {
        assert forall|a: u32| (a >> c) == 0 by {
            assert((a >> c) == 0) by (bit_vector)
                requires
                    c >= 32,
            ;
        }
    }
    VInt { lanes }
}

/// Arithmetic right shift of every integer lane; a count over 31 fills the
/// lane with its sign bit.
pub fn vsra_vi2_vi2_i(x: VInt, c: u32) -> (r: VInt)
    ensures
        forall|i: int| 0 <= i < 4 ==> #[trigger] r@[i] == x@[i] >> c,
{
    let s: u32 = if c < 32 {
        c
    } else {
        31
    };
    assert forall|a: i32| (a >> s) == (a >> c) by {
        assert((a >> s) == (a >> c)) by (bit_vector)
            requires
                s == if c < 32 {
                    c
                } else {
                    31
                },
        ;
    }
    VInt { lanes: [x.lanes[0] >> s, x.lanes[1] >> s, x.lanes[2] >> s, x.lanes[3] >> s] }
}

/// Whether each of the four bytes of a 32-bit lane is `0xFF`.
pub open spec fn bytes_all_ff(a: i32) -> bool {
    &&& (a as u32) & 0xffu32 == 0xffu32
    &&& ((a as u32) >> 8u32) & 0xffu32 == 0xffu32
    &&& ((a as u32) >> 16u32) & 0xffu32 == 0xffu32
    &&& ((a as u32) >> 24u32) & 0xffu32 == 0xffu32
}

proof fn lemma_bytes_all_ff(a: i32)
    by (bit_vector)
    ensures
        bytes_all_ff(a) == (a == -1i32),
{
}

/// Whether every lane of a mask is all ones, that is all sixteen bytes of
/// the register are `0xFF`.
pub fn vtestallones_i_vo32(g: VInt) -> (r: bool)
    ensures
        r == (forall|i: int| 0 <= i < 4 ==> #[trigger] g@[i] == mask_lane(true)),
        r == (forall|i: int| 0 <= i < 4 ==> bytes_all_ff(#[trigger] g@[i])),
{
    proof {
        assert forall|i: int| 0 <= i < 4 implies bytes_all_ff(#[trigger] g@[i]) == (g@[i] == -1i32) by {
            lemma_bytes_all_ff(g@[i]);
        }
    }
    let r = g.lanes[0] == -1 && g.lanes[1] == -1 && g.lanes[2] == -1 && g.lanes[3] == -1;
    assert(g@[0] == g.lanes[0] && g@[1] == g.lanes[1] && g@[2] == g.lanes[2] && g@[3]
        == g.lanes[3]);
    r
}

/// Per-lane select: takes `x`'s lane where the mask lane's top bit is set
/// (a true lane of a mask), else `y`'s.
pub fn vsel_vf_vo_vf_vf(o: VInt, x: VFloat, y: VFloat) -> (r: VFloat)
    ensures
        forall|i: int|
            0 <= i < 4 ==> #[trigger] r@[i] == if o@[i] < 0 {
                x@[i]
            } else {
                y@[i]
            },
{
    VFloat {
        lanes: [
            if o.lanes[0] < 0 { x.lanes[0] } else { y.lanes[0] },
            if o.lanes[1] < 0 { x.lanes[1] } else { y.lanes[1] },
            if o.lanes[2] < 0 { x.lanes[2] } else { y.lanes[2] },
            if o.lanes[3] < 0 { x.lanes[3] } else { y.lanes[3] },
        ],
    }
}

/// Absolute value of every float lane, by clearing the sign bit.
pub fn vabs_vf_vf(f: VFloat) -> (r: VFloat)
    ensures
        forall|i: int| 0 <= i < 4 ==> #[trigger] r@[i] == magnitude(f@[i]),
{
    let sign = vreinterpret_vm_vf(vcast_vf_f(SIGN_BIT));
    let r = vreinterpret_vf_vm(vandnot_vm_vm_vm(sign, vreinterpret_vm_vf(f)));
    assert forall|b: u32| ((!(SIGN_BIT as i32) & (b as i32)) as u32) == (b & 0x7fff_ffffu32) by {
        assert(((!(0x8000_0000u32 as i32) & (b as i32)) as u32) == (b & 0x7fff_ffffu32))
            by (bit_vector);
    }
    r
}

/// The sign bit of every float lane flipped.
pub fn vneg_vf_vf(f: VFloat) -> (r: VFloat)
    ensures
        forall|i: int| 0 <= i < 4 ==> #[trigger] r@[i] == f@[i] ^ SIGN_BIT,
{
    VFloat {
        lanes: [
            f.lanes[0] ^ SIGN_BIT,
            f.lanes[1] ^ SIGN_BIT,
            f.lanes[2] ^ SIGN_BIT,
            f.lanes[3] ^ SIGN_BIT,
        ],
    }
}

proof fn lemma_exponent_bits(b: u32)
    by (bit_vector)
    ensures
        ((((b as i32) as u32) >> 23u32) as i32) & 0xffi32 == ((b >> 23u32) & 0xffu32) as i32,
        (b >> 23u32) & 0xffu32 <= 0xff,
{
}

/// The unbiased binary exponent of every float lane: its exponent field
/// less the bias 127.
pub fn vilogb2k_vi2_vf(d: VFloat) -> (r: VInt)
    ensures
        forall|i: int| 0 <= i < 4 ==> #[trigger] r@[i] == exponent_field(d@[i]) - 127,
{
    let q = vreinterpret_vi2_vf(d);
    let q = vsrl_vi2_vi2_i(q, 23);
    let q = vand_vi2_vi2_vi2(q, vcast_vi2_i(0xff));
    let r = vsub_vi2_vi2_vi2(q, vcast_vi2_i(0x7f));
    assert forall|i: int| 0 <= i < 4 implies #[trigger] r@[i] == exponent_field(d@[i]) - 127 by {
        lemma_exponent_bits(d@[i]);
    }
    r
}

/// Ordered, quiet `a < b` on one pair of binary32 bit patterns.
fn lt_lane(a: u32, b: u32) -> (r: bool)
    ensures
        r == float_lt(a, b),
{
    let a_nan = (a >> 23u32) & 0xff == 0xff && a & 0x7f_ffff != 0;
    let b_nan = (b >> 23u32) & 0xff == 0xff && b & 0x7f_ffff != 0;
    if a_nan || b_nan {
        return false;
    }
    let ka: i64 = if a & SIGN_BIT != 0 {
        -((a & 0x7fff_ffff) as i64)
    } else {
        (a & 0x7fff_ffff) as i64
    };
    let kb: i64 = if b & SIGN_BIT != 0 {
        -((b & 0x7fff_ffff) as i64)
    } else {
        (b & 0x7fff_ffff) as i64
    };
    proof {
        lemma_order_matches_value(a, b);
    }
    ka < kb
}

/// Ordered, non-signalling `x < y` in every float lane, as a mask: a lane
/// with a NaN operand compares false.
pub fn vlt_vo_vf_vf(x: VFloat, y: VFloat) -> (r: VInt)
    ensures
        forall|i: int| 0 <= i < 4 ==> #[trigger] r@[i] == mask_lane(float_lt(x@[i], y@[i])),
{
    VInt {
        lanes: [
            if lt_lane(x.lanes[0], y.lanes[0]) { -1 } else { 0 },
            if lt_lane(x.lanes[1], y.lanes[1]) { -1 } else { 0 },
            if lt_lane(x.lanes[2], y.lanes[2]) { -1 } else { 0 },
            if lt_lane(x.lanes[3], y.lanes[3]) { -1 } else { 0 },
        ],
    }
}

} // verus!
