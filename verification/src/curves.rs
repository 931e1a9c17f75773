//! The BN254 (a.k.a. BN256) G1 group, exposed as a verified curve-point type.
//!
//! The group of points of BN254 G1 has prime order `r` and cofactor 1, and is
//! generated by the standard base point (1, 2).  The model used throughout the
//! contracts of this crate is therefore the cyclic group `Z_r`: every point is
//! identified by its index (its discrete logarithm with respect to the
//! standard generator), an integer in `[0, r)`.  The index of a point and the
//! affine coordinates attached to an index are uninterpreted functions; the
//! trusted wrappers around the arkworks arithmetic state how each operation
//! acts on indices and coordinates, and everything else is proved from those
//! contracts.

use vstd::prelude::*;
use vstd::arithmetic::div_mod::{
    lemma_add_mod_noop, lemma_mod_mod, lemma_mod_twice, lemma_mul_mod_noop_left,
    lemma_small_mod,
};
use crate::bytes::{le_bytes, le_int, lemma_le_bytes_int, lemma_le_bytes_len,
    lemma_le_int_bytes, lemma_pow2_256};

verus! {

/// The order `r` of the BN254 G1 group (and of its scalar field).
pub open spec fn group_order() -> int {
    21888242871839275222246405745257275088548364400416034343698204186575808495617int
}

/// The modulus `q` of the base field of BN254.
pub open spec fn base_order() -> int {
    21888242871839275222246405745257275088696311157297823662689037894645226208583int
}

/// The width of an uncompressed curve-point encoding: a tag byte and two
/// 32-byte coordinates.
pub const UNCOMPRESSED_CURVE_POINT_BYTEWIDTH: usize = 65;

/// The width of a compressed curve-point encoding: a tag byte, a 32-byte
/// x-coordinate, and a parity byte.
pub const COMPRESSED_CURVE_POINT_BYTEWIDTH: usize = 34;

/// The width of a scalar encoding: 32 little-endian bytes.
pub const SCALAR_ELEM_BYTEWIDTH: usize = 32;

/// An opaque holder of an `ark_bn254` G1 point.  Verus never looks inside;
/// the trusted wrappers below are its only interface.
#[verifier::external_body]
pub struct PointRepr {
    p: ark_bn254::G1Projective,
}

impl Clone for PointRepr {
    /// Relies on the held `ark_bn254` point being `Copy`: the clone is the
    /// very same value.
    #[verifier::external_body]
    fn clone(&self) -> (r: Self)
        ensures
            r == *self,
    {
        PointRepr { p: self.p }
    }
}

impl Copy for PointRepr {

}

/// An opaque holder of an `ark_bn254` scalar-field element.
#[verifier::external_body]
pub struct ScalarRepr {
    s: ark_bn254::Fr,
}

impl Clone for ScalarRepr {
    /// Relies on the held `ark_bn254` scalar being `Copy`: the clone is the
    /// very same value.
    #[verifier::external_body]
    fn clone(&self) -> (r: Self)
        ensures
            r == *self,
    {
        ScalarRepr { s: self.s }
    }
}

impl Copy for ScalarRepr {

}

/// An opaque holder of an `ark_bn254` base-field element.
#[verifier::external_body]
pub struct FqRepr {
    x: ark_bn254::Fq,
}

impl Clone for FqRepr {
    /// Relies on the held `ark_bn254` element being `Copy`: the clone is the
    /// very same value.
    #[verifier::external_body]
    fn clone(&self) -> (r: Self)
        ensures
            r == *self,
    {
        FqRepr { x: self.x }
    }
}

impl Copy for FqRepr {

}

/// Whether a held `ark_bn254` value denotes a point of the BN254 G1 group,
/// in a representation reachable through the arkworks API.  Every trusted
/// wrapper below requires it of its arguments and ensures it of its results.
pub uninterp spec fn pt_ok(p: PointRepr) -> bool;

/// The index (discrete logarithm with respect to the standard generator) of
/// the group element denoted by `p`; an integer in `[0, group_order())`.
pub uninterp spec fn pt_index(p: PointRepr) -> int;

/// Whether a held `ark_bn254::Fq` value is a canonical base-field element.
pub uninterp spec fn fq_ok(x: FqRepr) -> bool;

/// The integer in `[0, base_order())` denoted by a base-field element.
pub uninterp spec fn fq_int(x: FqRepr) -> int;

/// Whether a held `ark_bn254::Fr` value is a canonical scalar-field element.
pub uninterp spec fn fr_ok(s: ScalarRepr) -> bool;

/// The integer in `[0, group_order())` denoted by a scalar-field element.
pub uninterp spec fn fr_int(s: ScalarRepr) -> int;

/// The affine x-coordinate of the non-identity group element of index `i`.
pub uninterp spec fn x_of_index(i: int) -> int;

/// The affine y-coordinate of the non-identity group element of index `i`.
pub uninterp spec fn y_of_index(i: int) -> int;

/// The index of the group element with affine coordinates `(x, y)`.
pub uninterp spec fn index_of_affine(x: int, y: int) -> int;

/// What it means for an index to describe a group element consistently with
/// the coordinate model: indices are in range, and a non-identity element
/// carries affine coordinates that satisfy the curve equation
/// `y^2 = x^3 + 3` and determine the element.
pub open spec fn index_ok(i: int) -> bool {
    &&& 0 <= i < group_order()
    &&& i != 0 ==> {
        &&& 0 <= x_of_index(i) < base_order()
        &&& 0 <= y_of_index(i) < base_order()
        &&& on_curve(x_of_index(i), y_of_index(i))
        &&& index_of_affine(x_of_index(i), y_of_index(i)) == i
    }
}

/// The affine curve equation of BN254: `y^2 = x^3 + 3` over the base field.
pub open spec fn on_curve(x: int, y: int) -> bool {
    (y * y) % base_order() == (x * x * x + 3) % base_order()
}

/// Whether `y` is a square root of `v` in the base field.
pub open spec fn is_root(y: int, v: int) -> bool {
    0 <= y < base_order() && (y * y) % base_order() == v % base_order()
}

/// The right-hand side `x^3 + 3` of the curve equation at `x`.
pub open spec fn curve_rhs(x: int) -> int {
    x * x * x + 3
}

/// The compressed 34-byte encoding of the group element of index `i`:
/// a tag byte (1 for the identity, 0 otherwise), the affine x-coordinate
/// little endian, and the parity of the affine y-coordinate.
pub open spec fn compressed_bytes(i: int) -> Seq<u8> {
    if i == 0 {
        Seq::new(34, |j: int| 1u8)
    } else {
        seq![0u8] + le_bytes(x_of_index(i), 32) + seq![(y_of_index(i) % 2) as u8]
    }
}

/// The uncompressed 65-byte encoding of the group element of index `i`:
/// a tag byte (1 for the identity, 0 otherwise) and the affine coordinates
/// little endian.
pub open spec fn uncompressed_bytes(i: int) -> Seq<u8> {
    if i == 0 {
        Seq::new(65, |j: int| 1u8)
    } else {
        seq![0u8] + le_bytes(x_of_index(i), 32) + le_bytes(y_of_index(i), 32)
    }
}

/// Whether a 34-byte string denotes a point: either the identity tag, or an
/// x-coordinate for which the curve equation has a root.
pub open spec fn compressed_decodable(s: Seq<u8>) -> bool {
    s[0] == 1 || exists|y: int| #[trigger] is_root(y, curve_rhs(le_int(s.subrange(1, 33)) % base_order()))
}

/// Whether a 65-byte string denotes a point: either the identity tag, or a
/// pair of coordinates that satisfies the curve equation.
pub open spec fn uncompressed_decodable(s: Seq<u8>) -> bool {
    s[0] == 1 || on_curve(
        le_int(s.subrange(1, 33)) % base_order(),
        le_int(s.subrange(33, 65)) % base_order(),
    )
}

/// The index a compressed 34-byte string with a non-identity tag decodes
/// to, when it is decodable: the x-coordinate is read modulo `q`; of the two
/// roots of the curve equation, the smaller is taken when the exclusive-or
/// of its low bit with the sign byte is zero, the larger otherwise.
pub open spec fn compressed_decode_index(s: Seq<u8>) -> int {
    let xv = le_int(s.subrange(1, 33)) % base_order();
    let y1 = min_root(curve_rhs(xv));
    let yv = if ((y1 % 2) as u8) ^ s[33] == 0 {
        y1
    } else {
        (base_order() - y1) % base_order()
    };
    index_of_affine(xv, yv)
}

/// The index an uncompressed 65-byte string with a non-identity tag decodes
/// to, when its coordinates lie on the curve: both are read modulo `q`.
pub open spec fn uncompressed_decode_index(s: Seq<u8>) -> int {
    index_of_affine(
        le_int(s.subrange(1, 33)) % base_order(),
        le_int(s.subrange(33, 65)) % base_order(),
    )
}

/// A point of the BN254 G1 group.
///
/// The view of a point is its index: the discrete logarithm with respect to
/// the standard generator, an integer in `[0, group_order())`.  The identity
/// has index 0 and the standard generator has index 1.
#[derive(Clone, Copy)]
pub struct CurvePoint {
    inner: PointRepr,
}

impl View for CurvePoint {
    type V = int;

    closed spec fn view(&self) -> int {
        pt_index(self.inner)
    }
}

impl CurvePoint {
    #[verifier::type_invariant]
    spec fn type_inv(self) -> bool {
        pt_ok(self.inner) && index_ok(pt_index(self.inner))
    }

    /// The additive identity of the group.
    pub fn zero() -> (r: CurvePoint)
        ensures
            r@ == 0,
    {
        CurvePoint { inner: pt_zero() }
    }

    /// The standard base point (1, 2) of BN254 G1.
    pub fn generator() -> (r: CurvePoint)
        ensures
            r@ == 1,
    {
        CurvePoint { inner: pt_generator() }
    }

    /// The group sum of `self` and `other`.
    pub fn add(&self, other: &CurvePoint) -> (r: CurvePoint)
        ensures
            r@ == (self@ + other@) % group_order(),
    {
        proof {
            use_type_invariant(self);
            use_type_invariant(other);
        }
        CurvePoint { inner: pt_add(&self.inner, &other.inner) }
    }

    /// The point doubled.
    pub fn double(&self) -> (r: CurvePoint)
        ensures
            r@ == (2 * self@) % group_order(),
    {
        proof {
            use_type_invariant(self);
        }
        CurvePoint { inner: pt_double(&self.inner) }
    }

    /// The additive inverse of the point.
    pub fn neg(&self) -> (r: CurvePoint)
        ensures
            r@ == (group_order() - self@) % group_order(),
    {
        proof {
            use_type_invariant(self);
        }
        CurvePoint { inner: pt_neg(&self.inner) }
    }

    /// The group difference of `self` and `other`.
    pub fn sub(&self, other: &CurvePoint) -> (r: CurvePoint)
        ensures
            r@ == (self@ - other@) % group_order(),
    {
        proof {
            use_type_invariant(self);
            use_type_invariant(other);
        }
        CurvePoint { inner: pt_sub(&self.inner, &other.inner) }
    }

    /// The scalar multiple `s * self`.
    pub fn scalar_mul(&self, s: &Scalar) -> (r: CurvePoint)
        ensures
            r@ == (s@ * self@) % group_order(),
    {
        proof {
            use_type_invariant(self);
            use_type_invariant(s);
        }
        CurvePoint { inner: pt_scalar_mul(&self.inner, &s.inner) }
    }

    /// The affine coordinates of the point; `None` exactly for the identity.
    pub fn affine_coordinates(&self) -> (r: Option<(BaseField, BaseField)>)
        ensures
            index_ok(self@),
            (r is None) == (self@ == 0),
            r matches Some(xy) ==> xy.0@ == x_of_index(self@) && xy.1@ == y_of_index(self@),
    {
        proof {
            use_type_invariant(self);
        }
        let z = pt_zero();
        if pt_eq(&self.inner, &z) {
            None
        } else {
            let xy = pt_affine_xy(&self.inner);
            Some((BaseField { inner: xy.0 }, BaseField { inner: xy.1 }))
        }
    }

    /// The projective coordinates of the point, canonicalized: the identity
    /// maps to `(0, 1, 0)` and any other point to its affine pair with
    /// `z = 1`.
    pub fn projective_coordinates(&self) -> (r: (BaseField, BaseField, BaseField))
        ensures
            index_ok(self@),
            self@ == 0 ==> r.0@ == 0 && r.1@ == 1 && r.2@ == 0,
            self@ != 0 ==> r.0@ == x_of_index(self@) && r.1@ == y_of_index(self@) && r.2@ == 1,
    {
        match self.affine_coordinates() {
            Some(xy) => (xy.0, xy.1, BaseField::from_u64(1)),
            None => (BaseField::from_u64(0), BaseField::from_u64(1), BaseField::from_u64(0)),
        }
    }

    /// Whether the point lies on the curve `y^2 = x^3 + 3` (the identity
    /// counts as on the curve).  Every `CurvePoint` denotes a group element
    /// of BN254 G1, so this always holds: points produced by sampling,
    /// arithmetic or decoding are members of the curve.
    pub fn is_on_curve(&self) -> (r: bool)
        ensures
            r,
    {
        proof {
            use_type_invariant(self);
        }
        match self.affine_coordinates() {
            None => true,
            Some(xy) => {
                let x = xy.0;
                let y = xy.1;
                proof {
                    use_type_invariant(&x);
                    use_type_invariant(&y);
                }
                let y2 = fq_mul(&y.inner, &y.inner);
                let x2 = fq_mul(&x.inner, &x.inner);
                let x3 = fq_mul(&x2, &x.inner);
                let b = fq_from_u64(3);
                let rhs = fq_add(&x3, &b);
                let r = fq_eq(&y2, &rhs);
                proof {
                    let q = base_order();
                    let xv = x@;
                    lemma_mul_mod_noop_left(xv * xv, xv, q);
                    lemma_add_mod_noop(xv * xv * xv, 3, q);
                    lemma_small_mod(3nat, q as nat);
                    lemma_mod_twice(xv * xv * xv, q);
                }
                r
            },
        }
    }

    /// The compressed 34-byte encoding of the point: tag, x-coordinate,
    /// y-parity.  The identity encodes to 34 one-bytes.
    pub fn to_bytes_compressed(&self) -> (r: Vec<u8>)
        ensures
            r@ == compressed_bytes(self@),
            r@.len() == 34,
            index_ok(self@),
    {
        match self.affine_coordinates() {
            None => ones(34),
            Some(xy) => {
                let xb = xy.0.to_le_bytes();
                let yb = xy.1.to_le_bytes();
                let parity = yb[0] & 1;
                let mut out: Vec<u8> = Vec::new();
                out.push(0u8);
                out.extend_from_slice(xb.as_slice());
                out.push(parity);
                proof {
                    let i = self@;
                    let y = y_of_index(i);
                    let b0 = (y % 256) as u8;
                    assert(yb@[0] == b0);
                    assert(b0 & 1 == b0 % 2) by (bit_vector);
                    lemma_mod_mod(y, 2, 128);
                    assert(out@ =~= compressed_bytes(i));
                }
                out
            },
        }
    }

    /// The uncompressed 65-byte encoding of the point: tag, x-coordinate,
    /// y-coordinate.  The identity encodes to 65 one-bytes.
    pub fn to_bytes_uncompressed(&self) -> (r: Vec<u8>)
        ensures
            r@ == uncompressed_bytes(self@),
            r@.len() == 65,
            index_ok(self@),
    {
        match self.affine_coordinates() {
            None => ones(65),
            Some(xy) => {
                let xb = xy.0.to_le_bytes();
                let yb = xy.1.to_le_bytes();
                let mut out: Vec<u8> = Vec::new();
                out.push(0u8);
                out.extend_from_slice(xb.as_slice());
                out.extend_from_slice(yb.as_slice());
                proof {
                    assert(out@ =~= uncompressed_bytes(self@));
                }
                out
            },
        }
    }

    /// Decodes a compressed 34-byte encoding.  Returns `None` exactly when
    /// the bytes denote no point (an x-coordinate whose curve equation has
    /// no root).  Decoding an encoding produced by `to_bytes_compressed`
    /// gives the encoded point back.
    pub fn from_bytes_compressed(bytes: &[u8]) -> (r: Option<CurvePoint>)
        requires
            bytes@.len() == 34,
        ensures
            (r is Some) == compressed_decodable(bytes@),
            bytes@[0] == 1 ==> r is Some && (r->Some_0)@ == 0,
            r matches Some(p) ==> index_ok(p@),
            bytes@[0] != 1 && r is Some ==> (r->Some_0)@ == compressed_decode_index(bytes@),
            forall|i: int|
                index_ok(i) && bytes@ == compressed_bytes(i) ==> r is Some && (r->Some_0)@ == i,
    {
        if bytes[0] == 1 {
            let p = CurvePoint::zero();
            proof {
                assert forall|i: int|
                    index_ok(i) && bytes@ == compressed_bytes(i) implies p@ == i by {
                    if i != 0 {
                        lemma_le_bytes_len(x_of_index(i), 32);
                        assert(compressed_bytes(i)[0] == 0);
                    }
                }
            }
            Some(p)
        } else {
            let xslice = vstd::slice::slice_subrange(bytes, 1, 33);
            let x = fq_from_le_bytes_mod_order(xslice);
            proof {
                lemma_decode_x(bytes@, xslice@, fq_int(x));
            }
            match pt_ys_from_x(&x) {
                None => {
                    proof {
                        assert forall|i: int|
                            index_ok(i) && bytes@ == compressed_bytes(i) implies false by {
                            lemma_compressed_x_match(bytes@, i, fq_int(x));
                            assert(is_root(y_of_index(i), curve_rhs(fq_int(x))));
                        }
                    }
                    None
                },
                Some(ys) => {
                    let y1b = fq_to_le_bytes(&ys.0);
                    let y1_parity = y1b[0] & 1;
                    let sign = bytes[33];
                    let pick_first = (y1_parity ^ sign) == 0;
                    let y = if pick_first { ys.0 } else { ys.1 };
                    proof {
                        let v1 = fq_int(ys.0);
                        lemma_le_int_bytes(y1b@);
                        assert(y1b@ == le_bytes(v1, 32));
                        let c0 = (v1 % 256) as u8;
                        assert(y1b@[0] == c0);
                        assert(c0 & 1 == c0 % 2) by (bit_vector);
                        lemma_mod_mod(v1, 2, 128);
                        assert(y1_parity == (v1 % 2) as u8);
                    }
                    let p = pt_from_affine(&x, &y);
                    proof {
                        let v1 = fq_int(ys.0);
                        let m = min_root(curve_rhs(fq_int(x)));
                        assert(is_root(m, curve_rhs(fq_int(x))) && (forall|z: int|
                            is_root(z, curve_rhs(fq_int(x))) ==> m <= z)) by {
                            assert(is_root(v1, curve_rhs(fq_int(x))) && (forall|z: int|
                                is_root(z, curve_rhs(fq_int(x))) ==> v1 <= z));
                        }
                        assert(m == v1);
                        assert(pt_index(p) == compressed_decode_index(bytes@));
                        assert forall|i: int|
                            index_ok(i) && bytes@ == compressed_bytes(i) implies pt_index(p) == i by {
                            lemma_compressed_x_match(bytes@, i, fq_int(x));
                            let yi = y_of_index(i);
                            let v1 = fq_int(ys.0);
                            let v2 = fq_int(ys.1);
                            assert(is_root(yi, curve_rhs(fq_int(x))));
                            assert(yi == v1 || yi == v2);
                            lemma_le_bytes_len(x_of_index(i), 32);
                            assert(bytes@[33] == (yi % 2) as u8);
                            let sgn = (yi % 2) as u8;
                            if v1 != v2 {
                                assert(v2 == (base_order() - v1) % base_order());
                                if v1 == 0 {
                                    lemma_small_mod(0nat, base_order() as nat);
                                    assert(base_order() % base_order() == 0) by {
                                        vstd::arithmetic::div_mod::lemma_mod_self_0(base_order());
                                    }
                                    assert(false);
                                }
                                lemma_small_mod((base_order() - v1) as nat, base_order() as nat);
                                assert(v2 == base_order() - v1);
                                lemma_add_mod_noop(v1, v2, 2);
                                assert(base_order() % 2 == 1);
                                assert(v1 % 2 != v2 % 2);
                            }
                            let par1 = (v1 % 2) as u8;
                            assert(par1 ^ sgn == 0 <==> par1 == sgn) by (bit_vector);
                            if pick_first {
                                assert(fq_int(y) == v1);
                                assert(yi == v1);
                            } else {
                                assert(fq_int(y) == v2);
                                assert(yi == v2);
                            }
                            assert(pt_index(p) == index_of_affine(x_of_index(i), yi));
                        }
                    }
                    Some(CurvePoint { inner: p })
                },
            }
        }
    }

    /// Decodes an uncompressed 65-byte encoding.  Returns `None` exactly
    /// when the coordinates fail the curve equation.  Decoding an encoding
    /// produced by `to_bytes_uncompressed` gives the encoded point back.
    pub fn from_bytes_uncompressed(bytes: &[u8]) -> (r: Option<CurvePoint>)
        requires
            bytes@.len() == 65,
        ensures
            (r is Some) == uncompressed_decodable(bytes@),
            bytes@[0] == 1 ==> r is Some && (r->Some_0)@ == 0,
            r matches Some(p) ==> index_ok(p@),
            bytes@[0] != 1 && r is Some ==> (r->Some_0)@ == uncompressed_decode_index(bytes@),
            forall|i: int|
                index_ok(i) && bytes@ == uncompressed_bytes(i) ==> r is Some && (r->Some_0)@
                    == i,
    {
        if bytes[0] == 1 {
            let p = CurvePoint::zero();
            proof {
                assert forall|i: int|
                    index_ok(i) && bytes@ == uncompressed_bytes(i) implies p@ == i by {
                    if i != 0 {
                        lemma_le_bytes_len(x_of_index(i), 32);
                        lemma_le_bytes_len(y_of_index(i), 32);
                        assert(uncompressed_bytes(i)[0] == 0);
                    }
                }
            }
            Some(p)
        } else {
            let xslice = vstd::slice::slice_subrange(bytes, 1, 33);
            let yslice = vstd::slice::slice_subrange(bytes, 33, 65);
            let x = fq_from_le_bytes_mod_order(xslice);
            let y = fq_from_le_bytes_mod_order(yslice);
            let y2 = fq_mul(&y, &y);
            let x2 = fq_mul(&x, &x);
            let x3 = fq_mul(&x2, &x);
            let b = fq_from_u64(3);
            let rhs = fq_add(&x3, &b);
            let good = fq_eq(&y2, &rhs);
            proof {
                let q = base_order();
                let xv = fq_int(x);
                let yv = fq_int(y);
                lemma_mul_mod_noop_left(xv * xv, xv, q);
                lemma_add_mod_noop(xv * xv * xv, 3, q);
                lemma_small_mod(3nat, q as nat);
                lemma_mod_twice(xv * xv * xv, q);
                assert(good == on_curve(xv, yv));
            }
            if good {
                let p = pt_from_affine(&x, &y);
                proof {
                    assert forall|i: int|
                        index_ok(i) && bytes@ == uncompressed_bytes(i) implies pt_index(p)
                            == i by {
                        lemma_uncompressed_xy_match(bytes@, i, fq_int(x), fq_int(y));
                        assert(pt_index(p) == index_of_affine(x_of_index(i), y_of_index(i)));
                    }
                }
                Some(CurvePoint { inner: p })
            } else {
                proof {
                    assert forall|i: int|
                        index_ok(i) && bytes@ == uncompressed_bytes(i) implies false by {
                        lemma_uncompressed_xy_match(bytes@, i, fq_int(x), fq_int(y));
                    }
                }
                None
            }
        }
    }
}

impl PartialEq for CurvePoint {
    /// Group equality: two points are equal exactly when they denote the same
    /// group element, whatever their internal projective representation.
    fn eq(&self, other: &CurvePoint) -> (r: bool) {
        proof {
            use_type_invariant(self);
            use_type_invariant(other);
        }
        pt_eq(&self.inner, &other.inner)
    }
}

impl vstd::std_specs::cmp::PartialEqSpecImpl for CurvePoint {
    open spec fn obeys_eq_spec() -> bool {
        true
    }

    open spec fn eq_spec(&self, other: &CurvePoint) -> bool {
        self@ == other@
    }
}

/// For a 34-byte string that starts with a 0 tag, the decoded x value is the
/// little-endian integer of bytes 1..33 reduced modulo `q`; when the string
/// is `compressed_bytes(i)` for a consistent non-zero index, that value is
/// `x_of_index(i)` itself.
proof fn lemma_decode_x(s: Seq<u8>, xs: Seq<u8>, xv: int)
    requires
        s.len() == 34,
        xs == s.subrange(1, 33),
        xv == le_int(xs) % base_order(),
    ensures
        forall|i: int|
            index_ok(i) && i != 0 && s == compressed_bytes(i) ==> xv == x_of_index(i),
{
    assert forall|i: int|
        index_ok(i) && i != 0 && s == compressed_bytes(i) implies xv == x_of_index(i) by {
        lemma_le_bytes_len(x_of_index(i), 32);
        assert(xs =~= le_bytes(x_of_index(i), 32));
        lemma_pow2_256();
        lemma_le_bytes_int(x_of_index(i), 32);
        lemma_small_mod(x_of_index(i) as nat, base_order() as nat);
    }
}

/// When a 34-byte string equals `compressed_bytes(i)` for a consistent
/// non-zero index and `xv` is its decoded x value, then `xv` is the
/// x-coordinate of `i`, `y_of_index(i)` is a root of the curve equation at
/// `xv`, and the sign byte holds the parity of `y_of_index(i)`.
proof fn lemma_compressed_x_match(s: Seq<u8>, i: int, xv: int)
    requires
        s.len() == 34,
        s[0] != 1,
        index_ok(i),
        s == compressed_bytes(i),
        xv == le_int(s.subrange(1, 33)) % base_order(),
    ensures
        i != 0,
        xv == x_of_index(i),
        is_root(y_of_index(i), curve_rhs(xv)),
        s[33] == (y_of_index(i) % 2) as u8,
{
    if i == 0 {
        assert(compressed_bytes(0)[0] == 1);
    }
    lemma_le_bytes_len(x_of_index(i), 32);
    assert(s.subrange(1, 33) =~= le_bytes(x_of_index(i), 32));
    lemma_pow2_256();
    lemma_le_bytes_int(x_of_index(i), 32);
    lemma_small_mod(x_of_index(i) as nat, base_order() as nat);
    assert(s[33] == (y_of_index(i) % 2) as u8);
}

/// The uncompressed analogue of `lemma_compressed_x_match`.
proof fn lemma_uncompressed_xy_match(s: Seq<u8>, i: int, xv: int, yv: int)
    requires
        s.len() == 65,
        s[0] != 1,
        index_ok(i),
        s == uncompressed_bytes(i),
        xv == le_int(s.subrange(1, 33)) % base_order(),
        yv == le_int(s.subrange(33, 65)) % base_order(),
    ensures
        i != 0,
        xv == x_of_index(i),
        yv == y_of_index(i),
        on_curve(xv, yv),
{
    if i == 0 {
        assert(uncompressed_bytes(0)[0] == 1);
    }
    lemma_le_bytes_len(x_of_index(i), 32);
    lemma_le_bytes_len(y_of_index(i), 32);
    assert(s.subrange(1, 33) =~= le_bytes(x_of_index(i), 32));
    assert(s.subrange(33, 65) =~= le_bytes(y_of_index(i), 32));
    lemma_pow2_256();
    lemma_le_bytes_int(x_of_index(i), 32);
    lemma_le_bytes_int(y_of_index(i), 32);
    lemma_small_mod(x_of_index(i) as nat, base_order() as nat);
    lemma_small_mod(y_of_index(i) as nat, base_order() as nat);
}

/// A vector of `n` one-bytes.
fn ones(n: usize) -> (r: Vec<u8>)
    ensures
        r@ == Seq::new(n as nat, |j: int| 1u8),
{
    let mut v: Vec<u8> = Vec::new();
    let mut i: usize = 0;
    while i < n
        invariant
            i <= n,
            v@.len() == i,
            forall|j: int| 0 <= j < i ==> v@[j] == 1u8,
        decreases n - i,
    {
        v.push(1u8);
        i = i + 1;
    }
    proof {
        assert(v@ =~= Seq::new(n as nat, |j: int| 1u8));
    }
    v
}

/// A scalar: an element of the scalar field `F_r` of BN254, whose order is
/// `group_order()`.  The view of a scalar is the integer in
/// `[0, group_order())` it denotes.
#[derive(Clone, Copy)]
pub struct Scalar {
    inner: ScalarRepr,
}

impl View for Scalar {
    type V = int;

    closed spec fn view(&self) -> int {
        fr_int(self.inner)
    }
}

impl Scalar {
    #[verifier::type_invariant]
    spec fn type_inv(self) -> bool {
        fr_ok(self.inner) && 0 <= fr_int(self.inner) < group_order()
    }

    /// The scalar denoted by a small unsigned integer.
    pub fn from_u64(v: u64) -> (r: Scalar)
        ensures
            r@ == v as int,
    {
        Scalar { inner: fr_from_u64(v) }
    }

    /// The sum of two scalars in `F_r`.
    pub fn add(&self, other: &Scalar) -> (r: Scalar)
        ensures
            r@ == (self@ + other@) % group_order(),
    {
        proof {
            use_type_invariant(self);
            use_type_invariant(other);
        }
        Scalar { inner: fr_add(&self.inner, &other.inner) }
    }

    /// The additive inverse in `F_r`.
    pub fn neg(&self) -> (r: Scalar)
        ensures
            r@ == (group_order() - self@) % group_order(),
    {
        proof {
            use_type_invariant(self);
        }
        Scalar { inner: fr_neg(&self.inner) }
    }

    /// The scalar denoted by a little-endian byte string, reduced modulo the
    /// field order.
    pub fn from_le_bytes_mod_order(bytes: &[u8]) -> (r: Scalar)
        ensures
            r@ == le_int(bytes@) % group_order(),
    {
        Scalar { inner: fr_from_le_bytes_mod_order(bytes) }
    }

    /// The 32-byte little-endian encoding of the canonical representative.
    pub fn to_le_bytes(&self) -> (r: Vec<u8>)
        ensures
            r@.len() == 32,
            le_int(r@) == self@,
            r@ == le_bytes(self@, 32),
            0 <= self@ < group_order(),
    {
        proof {
            use_type_invariant(self);
        }
        let out = fr_to_le_bytes(&self.inner);
        proof {
            lemma_le_int_bytes(out@);
        }
        out
    }
}

impl PartialEq for Scalar {
    /// Equality of the denoted field elements.
    fn eq(&self, other: &Scalar) -> (r: bool) {
        proof {
            use_type_invariant(self);
            use_type_invariant(other);
        }
        fr_eq(&self.inner, &other.inner)
    }
}

impl vstd::std_specs::cmp::PartialEqSpecImpl for Scalar {
    open spec fn obeys_eq_spec() -> bool {
        true
    }

    open spec fn eq_spec(&self, other: &Scalar) -> bool {
        self@ == other@
    }
}

/// An element of the base field `F_q` of BN254, whose order is
/// `base_order()`.  The view is the integer in `[0, base_order())` it
/// denotes.
#[derive(Clone, Copy)]
pub struct BaseField {
    inner: FqRepr,
}

impl View for BaseField {
    type V = int;

    closed spec fn view(&self) -> int {
        fq_int(self.inner)
    }
}

impl BaseField {
    #[verifier::type_invariant]
    spec fn type_inv(self) -> bool {
        fq_ok(self.inner) && 0 <= fq_int(self.inner) < base_order()
    }

    /// The base-field element denoted by a small unsigned integer.
    pub fn from_u64(v: u64) -> (r: BaseField)
        ensures
            r@ == v as int,
    {
        BaseField { inner: fq_from_u64(v) }
    }

    /// The 32-byte little-endian encoding of the canonical representative.
    pub fn to_le_bytes(&self) -> (r: Vec<u8>)
        ensures
            r@.len() == 32,
            le_int(r@) == self@,
            r@ == le_bytes(self@, 32),
            0 <= self@ < base_order(),
    {
        proof {
            use_type_invariant(self);
        }
        let out = fq_to_le_bytes(&self.inner);
        proof {
            lemma_le_int_bytes(out@);
        }
        out
    }
}

impl PartialEq for BaseField {
    /// Equality of the denoted field elements.
    fn eq(&self, other: &BaseField) -> (r: bool) {
        proof {
            use_type_invariant(self);
            use_type_invariant(other);
        }
        fq_eq(&self.inner, &other.inner)
    }
}

impl vstd::std_specs::cmp::PartialEqSpecImpl for BaseField {
    open spec fn obeys_eq_spec() -> bool {
        true
    }

    open spec fn eq_spec(&self, other: &BaseField) -> bool {
        self@ == other@
    }
}

/// Relies on `ark_ec`'s `Projective::default`, the identity of BN254 G1.
#[verifier::external_body]
fn pt_zero() -> (r: PointRepr)
    ensures
        pt_ok(r),
        index_ok(pt_index(r)),
        pt_index(r) == 0,
{
    PointRepr { p: <ark_bn254::G1Projective as core::default::Default>::default() }
}

/// Relies on `ark_ec`'s `AffineRepr::generator`, the standard base point of
/// BN254 G1; the group index is taken with respect to this point.
#[verifier::external_body]
fn pt_generator() -> (r: PointRepr)
    ensures
        pt_ok(r),
        index_ok(pt_index(r)),
        pt_index(r) == 1,
{
    PointRepr {
        p: ark_bn254::G1Projective::from(
            <ark_bn254::G1Affine as ark_ec::AffineRepr>::generator(),
        ),
    }
}

/// Relies on `ark_ec`'s group addition for short-Weierstrass projective
/// points: in the cyclic group of order `r`, adding elements adds their
/// indices modulo `r`.
#[verifier::external_body]
fn pt_add(a: &PointRepr, b: &PointRepr) -> (r: PointRepr)
    requires
        pt_ok(*a),
        pt_ok(*b),
    ensures
        pt_ok(r),
        index_ok(pt_index(r)),
        pt_index(r) == (pt_index(*a) + pt_index(*b)) % group_order(),
{
    PointRepr { p: a.p + b.p }
}

/// Relies on `ark_ec`'s `Group::double`: doubling a group element doubles
/// its index modulo the group order.
#[verifier::external_body]
fn pt_double(p: &PointRepr) -> (r: PointRepr)
    requires
        pt_ok(*p),
    ensures
        pt_ok(r),
        index_ok(pt_index(r)),
        pt_index(r) == (2 * pt_index(*p)) % group_order(),
{
    PointRepr { p: ark_ec::Group::double(&p.p) }
}

/// Relies on `ark_ec`'s negation for projective points: the inverse of the
/// element of index `i` has index `-i` modulo the group order.
#[verifier::external_body]
fn pt_neg(p: &PointRepr) -> (r: PointRepr)
    requires
        pt_ok(*p),
    ensures
        pt_ok(r),
        index_ok(pt_index(r)),
        pt_index(r) == (group_order() - pt_index(*p)) % group_order(),
{
    PointRepr { p: -p.p }
}

/// Relies on `ark_ec`'s subtraction for projective points.
#[verifier::external_body]
fn pt_sub(a: &PointRepr, b: &PointRepr) -> (r: PointRepr)
    requires
        pt_ok(*a),
        pt_ok(*b),
    ensures
        pt_ok(r),
        index_ok(pt_index(r)),
        pt_index(r) == (pt_index(*a) - pt_index(*b)) % group_order(),
{
    PointRepr { p: a.p - b.p }
}

/// Relies on `ark_ec`'s scalar multiplication (`Mul<Fr>` for projective
/// points): multiplying the element of index `i` by a scalar `s` yields the
/// element of index `s * i` modulo the group order.
#[verifier::external_body]
fn pt_scalar_mul(p: &PointRepr, s: &ScalarRepr) -> (r: PointRepr)
    requires
        pt_ok(*p),
        fr_ok(*s),
    ensures
        pt_ok(r),
        index_ok(pt_index(r)),
        pt_index(r) == (fr_int(*s) * pt_index(*p)) % group_order(),
{
    PointRepr { p: p.p * s.s }
}

/// Relies on `ark_ec`'s `PartialEq` for projective points, which compares
/// the denoted group elements (cross-multiplied coordinates), not
/// representations.
#[verifier::external_body]
fn pt_eq(a: &PointRepr, b: &PointRepr) -> (r: bool)
    requires
        pt_ok(*a),
        pt_ok(*b),
    ensures
        r == (pt_index(*a) == pt_index(*b)),
{
    a.p == b.p
}

/// Relies on `ark_ec`'s `CurveGroup::into_affine`: the affine coordinates of
/// a non-identity group element.
#[verifier::external_body]
fn pt_affine_xy(p: &PointRepr) -> (r: (FqRepr, FqRepr))
    requires
        pt_ok(*p),
        pt_index(*p) != 0,
    ensures
        fq_ok(r.0),
        fq_ok(r.1),
        fq_int(r.0) == x_of_index(pt_index(*p)),
        fq_int(r.1) == y_of_index(pt_index(*p)),
{
    let affine = ark_ec::CurveGroup::into_affine(p.p);
    (FqRepr { x: affine.x }, FqRepr { x: affine.y })
}

/// Relies on the public projective representation of `ark_ec` short-
/// Weierstrass points: a pair `(x, y)` on the curve, with `z = 1`, denotes
/// the group element with those affine coordinates (the cofactor of BN254 G1
/// is 1, so every curve point is a group element).
#[verifier::external_body]
fn pt_from_affine(x: &FqRepr, y: &FqRepr) -> (r: PointRepr)
    requires
        fq_ok(*x),
        fq_ok(*y),
        on_curve(fq_int(*x), fq_int(*y)),
    ensures
        pt_ok(r),
        index_ok(pt_index(r)),
        pt_index(r) != 0,
        pt_index(r) == index_of_affine(fq_int(*x), fq_int(*y)),
        x_of_index(pt_index(r)) == fq_int(*x),
        y_of_index(pt_index(r)) == fq_int(*y),
{
    PointRepr {
        p: ark_bn254::G1Projective {
            x: x.x,
            y: y.x,
            z: <ark_bn254::Fq as ark_ff::Field>::ONE,
        },
    }
}

/// Relies on `ark_ec`'s `Affine::get_ys_from_x_unchecked`: the two square
/// roots of `x^3 + 3`, sorted as integers, if any exist.  The base field has
/// prime order, so a square has exactly the two roots `y` and `q - y`, and
/// the returned pair carries them both.
#[verifier::external_body]
fn pt_ys_from_x(x: &FqRepr) -> (r: Option<(FqRepr, FqRepr)>)
    requires
        fq_ok(*x),
    ensures
        (r is Some) == exists|y: int| is_root(y, curve_rhs(fq_int(*x))),
        r matches Some(ys) ==> {
            &&& fq_ok(ys.0)
            &&& fq_ok(ys.1)
            &&& is_root(fq_int(ys.0), curve_rhs(fq_int(*x)))
            &&& is_root(fq_int(ys.1), curve_rhs(fq_int(*x)))
            &&& fq_int(ys.0) <= fq_int(ys.1)
            &&& fq_int(ys.1) == (base_order() - fq_int(ys.0)) % base_order()
            &&& forall|y: int|
                is_root(y, curve_rhs(fq_int(*x))) ==> y == fq_int(ys.0) || y == fq_int(ys.1)
        },
{
    match ark_bn254::G1Affine::get_ys_from_x_unchecked(x.x) {
        None => None,
        Some(ys) => Some((FqRepr { x: ys.0 }, FqRepr { x: ys.1 })),
    }
}

/// Relies on `ark_ff`'s `From<u64>` for `Fr`: the canonical embedding of a
/// 64-bit integer, which is below the field order.
#[verifier::external_body]
fn fr_from_u64(v: u64) -> (r: ScalarRepr)
    ensures
        fr_ok(r),
        0 <= fr_int(r) < group_order(),
        fr_int(r) == v as int,
{
    ScalarRepr { s: ark_bn254::Fr::from(v) }
}

/// Relies on `ark_ff`'s field addition for `Fr`.
#[verifier::external_body]
fn fr_add(a: &ScalarRepr, b: &ScalarRepr) -> (r: ScalarRepr)
    requires
        fr_ok(*a),
        fr_ok(*b),
    ensures
        fr_ok(r),
        0 <= fr_int(r) < group_order(),
        fr_int(r) == (fr_int(*a) + fr_int(*b)) % group_order(),
{
    ScalarRepr { s: a.s + b.s }
}

/// Relies on `ark_ff`'s field negation for `Fr`.
#[verifier::external_body]
fn fr_neg(a: &ScalarRepr) -> (r: ScalarRepr)
    requires
        fr_ok(*a),
    ensures
        fr_ok(r),
        0 <= fr_int(r) < group_order(),
        fr_int(r) == (group_order() - fr_int(*a)) % group_order(),
{
    ScalarRepr { s: -a.s }
}

/// Relies on `ark_ff`'s `PartialEq` for `Fr`, equality of field elements.
#[verifier::external_body]
fn fr_eq(a: &ScalarRepr, b: &ScalarRepr) -> (r: bool)
    requires
        fr_ok(*a),
        fr_ok(*b),
    ensures
        r == (fr_int(*a) == fr_int(*b)),
{
    a.s == b.s
}

/// Relies on `ark_ff`'s `PrimeField::from_le_bytes_mod_order` for `Fr`: the
/// bytes are read as a little-endian integer and reduced modulo the order.
#[verifier::external_body]
fn fr_from_le_bytes_mod_order(bytes: &[u8]) -> (r: ScalarRepr)
    ensures
        fr_ok(r),
        0 <= fr_int(r) < group_order(),
        fr_int(r) == le_int(bytes@) % group_order(),
{
    ScalarRepr { s: <ark_bn254::Fr as ark_ff::PrimeField>::from_le_bytes_mod_order(bytes) }
}

/// Relies on `ark_ff`'s `PrimeField::into_bigint` and
/// `BigInteger::to_bytes_le` for `Fr`: the canonical representative written
/// little endian in exactly 32 bytes.
#[verifier::external_body]
fn fr_to_le_bytes(s: &ScalarRepr) -> (r: Vec<u8>)
    requires
        fr_ok(*s),
    ensures
        r@.len() == 32,
        le_int(r@) == fr_int(*s),
{
    ark_ff::BigInteger::to_bytes_le(&ark_ff::PrimeField::into_bigint(s.s))
}

/// Relies on `ark_ff`'s `From<u64>` for `Fq`.
#[verifier::external_body]
fn fq_from_u64(v: u64) -> (r: FqRepr)
    ensures
        fq_ok(r),
        0 <= fq_int(r) < base_order(),
        fq_int(r) == v as int,
{
    FqRepr { x: ark_bn254::Fq::from(v) }
}

/// Relies on `ark_ff`'s field addition for `Fq`.
#[verifier::external_body]
fn fq_add(a: &FqRepr, b: &FqRepr) -> (r: FqRepr)
    requires
        fq_ok(*a),
        fq_ok(*b),
    ensures
        fq_ok(r),
        0 <= fq_int(r) < base_order(),
        fq_int(r) == (fq_int(*a) + fq_int(*b)) % base_order(),
{
    FqRepr { x: a.x + b.x }
}

/// Relies on `ark_ff`'s field multiplication for `Fq`.
#[verifier::external_body]
fn fq_mul(a: &FqRepr, b: &FqRepr) -> (r: FqRepr)
    requires
        fq_ok(*a),
        fq_ok(*b),
    ensures
        fq_ok(r),
        0 <= fq_int(r) < base_order(),
        fq_int(r) == (fq_int(*a) * fq_int(*b)) % base_order(),
{
    FqRepr { x: a.x * b.x }
}

/// Relies on `ark_ff`'s `PartialEq` for `Fq`, equality of field elements.
#[verifier::external_body]
fn fq_eq(a: &FqRepr, b: &FqRepr) -> (r: bool)
    requires
        fq_ok(*a),
        fq_ok(*b),
    ensures
        r == (fq_int(*a) == fq_int(*b)),
{
    a.x == b.x
}

/// Relies on `ark_ff`'s `PrimeField::from_le_bytes_mod_order` for `Fq`.
#[verifier::external_body]
fn fq_from_le_bytes_mod_order(bytes: &[u8]) -> (r: FqRepr)
    ensures
        fq_ok(r),
        0 <= fq_int(r) < base_order(),
        fq_int(r) == le_int(bytes@) % base_order(),
{
    FqRepr { x: <ark_bn254::Fq as ark_ff::PrimeField>::from_le_bytes_mod_order(bytes) }
}

/// Relies on `ark_ff`'s `PrimeField::into_bigint` and
/// `BigInteger::to_bytes_le` for `Fq`: the canonical representative written
/// little endian in exactly 32 bytes.
#[verifier::external_body]
fn fq_to_le_bytes(x: &FqRepr) -> (r: Vec<u8>)
    requires
        fq_ok(*x),
    ensures
        r@.len() == 32,
        le_int(r@) == fq_int(*x),
{
    ark_ff::BigInteger::to_bytes_le(&ark_ff::PrimeField::into_bigint(x.x))
}


/// The scalar that the `k`-th field-element draw takes from the ChaCha20
/// stream of `seed`: an integer in `[0, group_order())`.  Each draw reads
/// stream words and rejects values at or above the field order, so the
/// sequence of drawn scalars is a function of the seed alone.
pub uninterp spec fn chacha_scalar(seed: Seq<u8>, k: int) -> int;

/// The bound on rejection-sampling attempts of `CurvePoint::random`.  An
/// attempt succeeds when the sampled x-coordinate lands on the curve, which
/// happens for about half of all field elements; the bound is never reached
/// in practice and exists so that sampling provably terminates.
pub const MAX_SAMPLE_ATTEMPTS: usize = 65536;

/// The candidate x-coordinate of attempt `k` of `CurvePoint::random` on the
/// SHAKE256 stream of `seed` starting at `pos`: 64 stream bytes read little
/// endian, reduced modulo `q`.  Each attempt consumes 68 stream bytes: 64
/// for the candidate and 4 for the parity draw.
pub open spec fn attempt_x(seed: Seq<u8>, pos: int, k: int) -> int {
    le_int(crate::utils::stream_bytes(seed, pos + 68 * k, 64)) % base_order()
}

/// The parity drawn by attempt `k`: the low bit of the four stream bytes
/// after the candidate, read little endian.
pub open spec fn attempt_parity(seed: Seq<u8>, pos: int, k: int) -> int {
    le_int(crate::utils::stream_bytes(seed, pos + 68 * k + 64, 4)) % 2
}

/// Whether attempt `k` succeeds: the curve equation has a root at the
/// candidate x-coordinate.
pub open spec fn attempt_ok(seed: Seq<u8>, pos: int, k: int) -> bool {
    exists|y: int| is_root(y, curve_rhs(attempt_x(seed, pos, k)))
}

/// The smaller of the two square roots of `v` in the base field, when `v`
/// is a square.
pub open spec fn min_root(v: int) -> int {
    choose|y: int| is_root(y, v) && (forall|z: int| is_root(z, v) ==> y <= z)
}

/// The y-coordinate attempt `k` would pick: the root of the curve equation
/// whose parity matches the drawn parity.
pub open spec fn attempt_y(seed: Seq<u8>, pos: int, k: int) -> int {
    let y1 = min_root(curve_rhs(attempt_x(seed, pos, k)));
    if y1 % 2 == attempt_parity(seed, pos, k) {
        y1
    } else {
        (base_order() - y1) % base_order()
    }
}

/// Whether sampling from position `pos` succeeds within the attempt bound.
pub open spec fn rand_ok(seed: Seq<u8>, pos: int) -> bool {
    exists|k: int| 0 <= k < MAX_SAMPLE_ATTEMPTS && attempt_ok(seed, pos, k)
}

/// The number of failing attempts before the first success.
pub open spec fn rand_attempts(seed: Seq<u8>, pos: int) -> int {
    choose|k: int|
        0 <= k < MAX_SAMPLE_ATTEMPTS && attempt_ok(seed, pos, k) && (forall|j: int|
            0 <= j < k ==> !attempt_ok(seed, pos, j))
}

/// The index of the point sampled from position `pos` (meaningful when
/// `rand_ok` holds).
pub open spec fn rand_index(seed: Seq<u8>, pos: int) -> int {
    let k = rand_attempts(seed, pos);
    index_of_affine(attempt_x(seed, pos, k), attempt_y(seed, pos, k))
}

/// The stream position after one sampling: 68 bytes per attempt made.
pub open spec fn rand_end_pos(seed: Seq<u8>, pos: int) -> int {
    if rand_ok(seed, pos) {
        pos + 68 * (rand_attempts(seed, pos) + 1)
    } else {
        pos + 68 * (MAX_SAMPLE_ATTEMPTS as int)
    }
}

impl Scalar {
    /// Draws the next scalar from a seeded ChaCha20 stream, uniformly from
    /// `[0, group_order())`.
    ///
    /// Relies on `ark_ff`'s `UniformRand` for `Fr` over `rand_chacha`'s
    /// `ChaCha20Rng`: the draw masks random words to the field's bit width
    /// and rejects values at or above the order, so the `k`-th draw is a
    /// function of the seed and `k` alone, identical on every platform.
    #[verifier::external_body]
    pub fn rand(rng: &mut crate::utils::ChaCha20RngWrapper) -> (r: Scalar)
        ensures
            crate::utils::chacha_seed(*final(rng)) == crate::utils::chacha_seed(*old(rng)),
            crate::utils::chacha_count(*final(rng)) == crate::utils::chacha_count(*old(rng))
                + 1,
            r@ == chacha_scalar(
                crate::utils::chacha_seed(*old(rng)),
                crate::utils::chacha_count(*old(rng)),
            ),
            0 <= r@ < group_order(),
    {
        Scalar { inner: ScalarRepr { s: ark_ff::UniformRand::rand(&mut rng.item) } }
    }
}

impl CurvePoint {
    /// Samples a point uniformly from the group by rejection: draw a
    /// candidate x-coordinate from the stream (64 bytes, reduced modulo
    /// `q`), draw a parity bit (4 bytes), and if the curve equation has a
    /// root at the candidate, return the point whose y-root matches the
    /// parity; otherwise try again.  Returns `None` only if
    /// `MAX_SAMPLE_ATTEMPTS` attempts all miss the curve, which a random
    /// stream does with probability about `2^-MAX_SAMPLE_ATTEMPTS`.
    pub fn random(rng: &mut crate::utils::Sha3XofReaderWrapper) -> (r: Option<CurvePoint>)
        ensures
            crate::utils::xof_seed(*final(rng)) == crate::utils::xof_seed(*old(rng)),
            crate::utils::xof_pos(*final(rng)) == rand_end_pos(
                crate::utils::xof_seed(*old(rng)),
                crate::utils::xof_pos(*old(rng)),
            ),
            (r is Some) == rand_ok(
                crate::utils::xof_seed(*old(rng)),
                crate::utils::xof_pos(*old(rng)),
            ),
            r matches Some(p) ==> p@ == rand_index(
                crate::utils::xof_seed(*old(rng)),
                crate::utils::xof_pos(*old(rng)),
            ) && index_ok(p@),
    {
        let ghost seed = crate::utils::xof_seed(*rng);
        let ghost pos0 = crate::utils::xof_pos(*rng);
        let mut k: usize = 0;
        while k < MAX_SAMPLE_ATTEMPTS
            invariant
                seed == crate::utils::xof_seed(*old(rng)),
                pos0 == crate::utils::xof_pos(*old(rng)),
                crate::utils::xof_seed(*rng) == seed,
                crate::utils::xof_pos(*rng) == pos0 + 68 * k,
                0 <= k <= MAX_SAMPLE_ATTEMPTS,
                forall|j: int| 0 <= j < k ==> !attempt_ok(seed, pos0, j),
            decreases MAX_SAMPLE_ATTEMPTS - k,
        {
            let mut buf: Vec<u8> = zeroes(64);
            rng.fill_bytes(&mut buf);
            let x = fq_from_le_bytes_mod_order(buf.as_slice());
            let par32 = rng.next_u32();
            let want_parity = (par32 % 2) as u8;
            proof {
                assert(buf@ =~= crate::utils::stream_bytes(seed, pos0 + 68 * (k as int), 64));
                assert(fq_int(x) == attempt_x(seed, pos0, k as int));
                assert(par32 % 2 == attempt_parity(seed, pos0, k as int));
            }
            match pt_ys_from_x(&x) {
                Some(ys) => {
                    let y1b = fq_to_le_bytes(&ys.0);
                    let y1_parity = y1b[0] & 1;
                    let y = if (y1_parity ^ want_parity) == 0 {
                        ys.0
                    } else {
                        ys.1
                    };
                    let p = pt_from_affine(&x, &y);
                    proof {
                        let ki = k as int;
                        let v1 = fq_int(ys.0);
                        let v2 = fq_int(ys.1);
                        // the wrapped pair carries the minimal root first
                        assert(is_root(v1, curve_rhs(fq_int(x))) && (forall|z: int|
                            is_root(z, curve_rhs(fq_int(x))) ==> v1 <= z));
                        let m = min_root(curve_rhs(fq_int(x)));
                        assert(is_root(m, curve_rhs(fq_int(x))) && (forall|z: int|
                            is_root(z, curve_rhs(fq_int(x))) ==> m <= z)) by {
                            assert(is_root(v1, curve_rhs(fq_int(x))) && (forall|z: int|
                                is_root(z, curve_rhs(fq_int(x))) ==> v1 <= z));
                        }
                        assert(m == v1);
                        // the attempt count is the chosen minimal one
                        assert(attempt_ok(seed, pos0, ki));
                        let kk = rand_attempts(seed, pos0);
                        assert(0 <= kk < MAX_SAMPLE_ATTEMPTS && attempt_ok(seed, pos0, kk)
                            && (forall|j: int| 0 <= j < kk ==> !attempt_ok(seed, pos0, j))) by {
                            assert(0 <= ki < MAX_SAMPLE_ATTEMPTS && attempt_ok(seed, pos0, ki)
                                && (forall|j: int| 0 <= j < ki ==> !attempt_ok(seed, pos0, j)));
                        }
                        assert(kk == ki);
                        // the chosen root is the one of matching parity
                        lemma_le_int_bytes(y1b@);
                        let c0 = (v1 % 256) as u8;
                        assert(y1b@[0] == c0);
                        assert(c0 & 1 == c0 % 2) by (bit_vector);
                        lemma_mod_mod(v1, 2, 128);
                        assert(y1_parity == (v1 % 2) as u8);
                        let wp = attempt_parity(seed, pos0, ki);
                        assert(want_parity == wp as u8);
                        assert(y1_parity ^ want_parity == 0 <==> y1_parity == want_parity)
                            by (bit_vector);
                        assert(fq_int(y) == attempt_y(seed, pos0, ki));
                    }
                    return Some(CurvePoint { inner: p });
                },
                None => {
                },
            }
            k = k + 1;
        }
        proof {
            assert(!rand_ok(seed, pos0));
        }
        None
    }
}


/// The stream position at which the `j`-th consecutive sampling starts, for
/// a reader that begins at position 0.
pub open spec fn gen_pos(seed: Seq<u8>, j: int) -> int
    decreases j,
{
    if j <= 0 {
        0
    } else {
        rand_end_pos(seed, gen_pos(seed, j - 1))
    }
}

/// The index of the `j`-th point sampled consecutively from the SHAKE256
/// stream of `seed`.
pub open spec fn gen_index(seed: Seq<u8>, j: int) -> int {
    rand_index(seed, gen_pos(seed, j))
}

/// Whether `n` consecutive samplings from the stream of `seed` all succeed
/// within the attempt bound.
pub open spec fn gens_ok(seed: Seq<u8>, n: int) -> bool {
    forall|j: int| 0 <= j < n ==> rand_ok(seed, #[trigger] gen_pos(seed, j))
}

/// A vector of `n` zero bytes.
fn zeroes(n: usize) -> (r: Vec<u8>)
    ensures
        r@.len() == n,
{
    let mut v: Vec<u8> = Vec::new();
    let mut i: usize = 0;
    while i < n
        invariant
            i <= n,
            v@.len() == i,
        decreases n - i,
    {
        v.push(0u8);
        i = i + 1;
    }
    v
}

} // verus!
