//! A four-component binary32 vector in the style of GLSL's `vec4`, built on
//! the lane primitives. Components are held as bit patterns, in the order
//! x, y, z, w.
use vstd::prelude::*;

use crate::binary32::{magnitude, SIGN_BIT};
use crate::rounding::{is_floor_of, vfloor_vf_vf};
use crate::sleef::{
    float_lt, lemma_float_int_cast, vabs_vf_vf, vand_vi2_vo_vi2, vcast_vf_f, vlt_vo_vf_vf, vneg_vf_vf,
    vreinterpret_vf_vm, vreinterpret_vm_vf, VFloat,
};

verus! {

/// Four binary32 components x, y, z, w in one register-sized value.
#[derive(Clone, Copy, Debug)]
pub struct Vector4 {
    data: VFloat,
}

impl View for Vector4 {
    type V = Seq<u32>;

    /// The components' bit patterns, x first.
    closed spec fn view(&self) -> Seq<u32> {
        self.data@
    }
}

impl Vector4 {
    /// A vector with all four components set to `v`.
    pub fn from1(v: u32) -> (r: Vector4)
        ensures
            r@ == seq![v, v, v, v],
    {
        let r = Vector4 { data: vcast_vf_f(v) };
        assert(r@ =~= seq![v, v, v, v]);
        r
    }

    /// A vector with components `x`, `y`, `z`, `w`, in that order.
    pub fn from4(x: u32, y: u32, z: u32, w: u32) -> (r: Vector4)
        ensures
            r@ == seq![x, y, z, w],
    {
        let r = Vector4 { data: VFloat { lanes: [x, y, z, w] } };
        assert(r@ =~= seq![x, y, z, w]);
        r
    }

    /// The `x` component.
    pub fn x(&self) -> (r: u32)
        ensures
            r == self@[0],
    {
        self.data.lanes[0]
    }

    /// The `y` component.
    pub fn y(&self) -> (r: u32)
        ensures
            r == self@[1],
    {
        self.data.lanes[1]
    }

    /// The `z` component.
    pub fn z(&self) -> (r: u32)
        ensures
            r == self@[2],
    {
        self.data.lanes[2]
    }

    /// The `w` component.
    pub fn w(&self) -> (r: u32)
        ensures
            r == self@[3],
    {
        self.data.lanes[3]
    }

    /// Every component rounded towards negative infinity, as GLSL's `floor`.
    pub fn floor(&self) -> (r: Vector4)
        ensures
            forall|i: int| 0 <= i < 4 ==> is_floor_of(#[trigger] r@[i], self@[i]),
    {
        Vector4 { data: vfloor_vf_vf(self.data) }
    }

    /// Every component's absolute value, by clearing its sign bit, so that
    /// `abs(-0.0)` is `+0.0`.
    pub fn abs(&self) -> (r: Vector4)
        ensures
            forall|i: int| 0 <= i < 4 ==> #[trigger] r@[i] == magnitude(self@[i]),
    {
        Vector4 { data: vabs_vf_vf(self.data) }
    }

    /// Every component negated by flipping its sign bit; exact for both
    /// zeros and for NaN payloads.
    pub fn neg(&self) -> (r: Vector4)
        ensures
            forall|i: int| 0 <= i < 4 ==> #[trigger] r@[i] == self@[i] ^ SIGN_BIT,
    {
        Vector4 { data: vneg_vf_vf(self.data) }
    }

    /// The correction that turns a GLSL modulo into a Euclidean one. With
    /// `self` the result of `x mod divisor`, each component is
    /// `abs(divisor)` where `self` is below zero and `+0.0` elsewhere; adding
    /// it to `self` gives the non-negative remainder.
    pub fn euclidean_offset(&self, divisor: &Vector4) -> (r: Vector4)
        ensures
            forall|i: int|
                0 <= i < 4 ==> #[trigger] r@[i] == if float_lt(self@[i], 0u32) {
                    magnitude(divisor@[i])
                } else {
                    0u32
                },
    {
        let below_zero = vlt_vo_vf_vf(self.data, vcast_vf_f(0));
        let size = vreinterpret_vm_vf(vabs_vf_vf(divisor.data));
        let r = Vector4 { data: vreinterpret_vf_vm(vand_vi2_vo_vi2(below_zero, size)) };
        assert forall|i: int| 0 <= i < 4 implies #[trigger] r@[i] == if float_lt(self@[i], 0u32) {
            magnitude(divisor@[i])
        } else {
            0u32
        } by {
            lemma_float_int_cast(magnitude(divisor@[i]), 0);
        }
        r
    }
}

/// Reading back the components of a vector made from four values gives
/// those values, in order.
pub proof fn law_components_round_trip(x: u32, y: u32, z: u32, w: u32, v: Vector4)
    requires
        v@ == seq![x, y, z, w],
    ensures
        v@[0] == x && v@[1] == y && v@[2] == z && v@[3] == w,
{
}

/// A vector made from one value has that value in every component.
pub proof fn law_broadcast(s: u32, v: Vector4)
    requires
        v@ == seq![s, s, s, s],
    ensures
        forall|i: int| 0 <= i < 4 ==> #[trigger] v@[i] == s,
{
}

/// Negating twice gives the vector back, bit for bit.
pub proof fn law_neg_involutive(a: Vector4, n: Vector4, nn: Vector4)
    requires
        forall|i: int| 0 <= i < 4 ==> #[trigger] n@[i] == a@[i] ^ SIGN_BIT,
        forall|i: int| 0 <= i < 4 ==> #[trigger] nn@[i] == n@[i] ^ SIGN_BIT,
    ensures
        forall|i: int| 0 <= i < 4 ==> #[trigger] nn@[i] == a@[i],
{
    assert forall|i: int| 0 <= i < 4 implies #[trigger] nn@[i] == a@[i] by {
        lemma_double_flip(a@[i]);
    }
}

proof fn lemma_double_flip(b: u32)
    by (bit_vector)
    ensures
        (b ^ SIGN_BIT) ^ SIGN_BIT == b,
{
}

/// The floor of a vector's floor is that floor, bit for bit, in every
/// component.
pub proof fn law_floor_idempotent(v: Vector4, f: Vector4, ff: Vector4)
    requires
        forall|i: int| 0 <= i < 4 ==> is_floor_of(#[trigger] f@[i], v@[i]),
        forall|i: int| 0 <= i < 4 ==> is_floor_of(#[trigger] ff@[i], f@[i]),
    ensures
        forall|i: int| 0 <= i < 4 ==> #[trigger] ff@[i] == f@[i],
{
    assert forall|i: int| 0 <= i < 4 implies #[trigger] ff@[i] == f@[i] by {
        crate::rounding::law_floor_bits_idempotent(v@[i], f@[i], ff@[i]);
    }
}

} // verus!
