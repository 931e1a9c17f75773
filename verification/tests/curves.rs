//! Tests of the BN254 G1 point type: group laws, coordinates, sampling and
//! serialization.

use hyrax::curves::{
    BaseField, CurvePoint, Scalar, COMPRESSED_CURVE_POINT_BYTEWIDTH, SCALAR_ELEM_BYTEWIDTH,
    UNCOMPRESSED_CURVE_POINT_BYTEWIDTH,
};
use hyrax::utils::Sha3XofReaderWrapper;

fn xof_rng() -> Sha3XofReaderWrapper {
    let seed: [u8; 32] = [7; 32];
    Sha3XofReaderWrapper::new(&seed)
}

#[test]
fn test_bn256_implementation() {
    let zero = CurvePoint::zero();
    let g = CurvePoint::generator();
    // doubling works
    assert!(g.double() == g.add(&g));

    // the generator better not be equal to twice itself!
    assert!(g != g.double());

    // equality is group equality, not a comparison of projective coordinates
    assert!(g.double().sub(&g) == g);

    // scalar multiplication
    let scalar = Scalar::from_u64(4);
    let g4 = g.add(&g).add(&g).add(&g);
    assert!(g.scalar_mul(&scalar) == g4);
    // also by negated scalars
    assert!(g.scalar_mul(&scalar.neg()) == g4.neg());

    // the affine coordinates of the identity
    assert!(zero.affine_coordinates().is_none());
    // .. and of the generator
    let (x, y) = g.affine_coordinates().unwrap();
    assert!(x == BaseField::from_u64(1));
    assert!(y == BaseField::from_u64(2));

    // the projective coordinates of the identity
    let (x, y, z) = zero.projective_coordinates();
    assert!(x == BaseField::from_u64(0));
    assert!(y != BaseField::from_u64(0));
    assert!(z == BaseField::from_u64(0));
    // .. and of the generator
    let (_x, _y, z) = g.projective_coordinates();
    assert!(z != BaseField::from_u64(0));

    // repeated addition accumulates
    let mut acc = zero;
    acc = acc.add(&g);
    acc = acc.add(&g);
    assert!(acc == g.double());

    // subtraction from the identity negates
    let mut acc = zero;
    acc = acc.sub(&g);
    assert!(acc == g.neg());

    // sampling gives some other point
    let r = CurvePoint::random(&mut xof_rng()).unwrap();
    assert!(r != g);
}

/// Sampling is deterministic in the stream seed, and consecutive samples
/// differ.
#[test]
fn test_random_is_deterministic_in_the_seed() {
    let mut rng1 = xof_rng();
    let mut rng2 = xof_rng();
    let p1 = CurvePoint::random(&mut rng1).unwrap();
    let p2 = CurvePoint::random(&mut rng2).unwrap();
    assert!(p1 == p2);
    let p3 = CurvePoint::random(&mut rng1).unwrap();
    assert!(p3 != p1);
}

/// Points produced by sampling and arithmetic lie on the curve.
#[test]
fn test_curve_membership() {
    let g = CurvePoint::generator();
    assert!(CurvePoint::zero().is_on_curve());
    assert!(g.is_on_curve());
    let r = CurvePoint::random(&mut xof_rng()).unwrap();
    assert!(r.is_on_curve());
    assert!(r.double().is_on_curve());
    assert!(r.add(&g).is_on_curve());
    assert!(r.neg().is_on_curve());
    assert!(r.scalar_mul(&Scalar::from_u64(123456789)).is_on_curve());
}

/// The identity encodes to the designated tag byte and decodes back; its
/// coordinate accessors canonicalize.
#[test]
fn test_identity_encoding() {
    let zero = CurvePoint::zero();
    let compressed = zero.to_bytes_compressed();
    assert_eq!(compressed.len(), 34);
    assert_eq!(compressed[0], 1);
    let decoded = CurvePoint::from_bytes_compressed(&[1u8; 34]).unwrap();
    assert!(decoded == zero);
    assert!(zero.affine_coordinates().is_none());
    let (x, y, z) = zero.projective_coordinates();
    assert!(x == BaseField::from_u64(0));
    assert!(y == BaseField::from_u64(1));
    assert!(z == BaseField::from_u64(0));
    // any content after the identity tag is accepted
    let mut arbitrary = [9u8; 65];
    arbitrary[0] = 1;
    let decoded = CurvePoint::from_bytes_uncompressed(&arbitrary).unwrap();
    assert!(decoded == zero);
}

/// The compressed encoding of the generator spells out its affine data:
/// tag 0, x = 1 little endian, and the parity of y = 2.
#[test]
fn test_generator_compressed_encoding() {
    let bytes = CurvePoint::generator().to_bytes_compressed();
    assert_eq!(bytes.len(), 34);
    assert_eq!(bytes[0], 0);
    assert_eq!(bytes[1], 1);
    for k in 2..33 {
        assert_eq!(bytes[k], 0);
    }
    assert_eq!(bytes[33], 0);
}

/// The uncompressed encoding of the generator: tag 0, x = 1, y = 2.
#[test]
fn test_generator_uncompressed_encoding() {
    let bytes = CurvePoint::generator().to_bytes_uncompressed();
    assert_eq!(bytes.len(), 65);
    assert_eq!(bytes[0], 0);
    assert_eq!(bytes[1], 1);
    for k in 2..33 {
        assert_eq!(bytes[k], 0);
    }
    assert_eq!(bytes[33], 2);
    for k in 34..65 {
        assert_eq!(bytes[k], 0);
    }
}

/// Serialization round-trips on sampled points, the generator and the
/// identity, in both encodings.
#[test]
fn test_serialization_round_trips() {
    let mut rng = xof_rng();
    let mut points = vec![CurvePoint::zero(), CurvePoint::generator()];
    for _ in 0..4 {
        points.push(CurvePoint::random(&mut rng).unwrap());
    }
    assert_eq!(COMPRESSED_CURVE_POINT_BYTEWIDTH, 34);
    assert_eq!(UNCOMPRESSED_CURVE_POINT_BYTEWIDTH, 65);
    assert_eq!(SCALAR_ELEM_BYTEWIDTH, 32);
    for p in points {
        let compressed = p.to_bytes_compressed();
        assert_eq!(compressed.len(), COMPRESSED_CURVE_POINT_BYTEWIDTH);
        let decoded = CurvePoint::from_bytes_compressed(&compressed).unwrap();
        assert!(decoded == p);
        let uncompressed = p.to_bytes_uncompressed();
        assert_eq!(uncompressed.len(), UNCOMPRESSED_CURVE_POINT_BYTEWIDTH);
        let decoded = CurvePoint::from_bytes_uncompressed(&uncompressed).unwrap();
        assert!(decoded == p);
    }
}

/// Flipping the parity byte of a compressed non-identity point decodes to
/// the negated point, not the original.
#[test]
fn test_compressed_parity_selects_the_root() {
    let p = CurvePoint::random(&mut xof_rng()).unwrap();
    let mut bytes = p.to_bytes_compressed();
    bytes[33] ^= 1;
    let flipped = CurvePoint::from_bytes_compressed(&bytes).unwrap();
    assert!(flipped != p);
    assert!(flipped == p.neg());
}

/// An uncompressed encoding whose coordinates miss the curve is rejected.
#[test]
fn test_uncompressed_rejects_points_off_the_curve() {
    // x = 1, y = 5: 25 != 1 + 3
    let mut bytes = [0u8; 65];
    bytes[1] = 1;
    bytes[33] = 5;
    assert!(CurvePoint::from_bytes_uncompressed(&bytes).is_none());
}

/// Scalar encodings: little-endian bytes round-trip through the field.
#[test]
fn test_scalar_byte_encodings() {
    let s = Scalar::from_u64(0x0123456789abcdef);
    let bytes = s.to_le_bytes();
    assert_eq!(bytes.len(), 32);
    assert_eq!(bytes[0], 0xef);
    assert_eq!(bytes[7], 0x01);
    let back = Scalar::from_le_bytes_mod_order(&bytes);
    assert!(back == s);
    let one = Scalar::from_le_bytes_mod_order(&[1u8]);
    assert!(one == Scalar::from_u64(1));
}

/// Scalar field arithmetic: addition and negation cancel.
#[test]
fn test_scalar_add_neg() {
    let a = Scalar::from_u64(41);
    let b = Scalar::from_u64(1);
    assert!(a.add(&b) == Scalar::from_u64(42));
    assert!(a.add(&a.neg()) == Scalar::from_u64(0));
}

/// The SHAKE256 stream is deterministic and the readers advance through it.
#[test]
fn test_xof_stream_determinism() {
    let mut r1 = xof_rng();
    let mut r2 = xof_rng();
    let a1 = r1.next_u32();
    let a2 = r2.next_u32();
    assert_eq!(a1, a2);
    let mut buf1 = vec![0u8; 16];
    let mut buf2 = vec![0u8; 16];
    r1.fill_bytes(&mut buf1);
    r2.fill_bytes(&mut buf2);
    assert_eq!(buf1, buf2);
    assert_eq!(r1.next_u32(), r2.next_u32());
    // a reader with another seed gives another stream
    let other_seed: [u8; 32] = [8; 32];
    let mut r3 = Sha3XofReaderWrapper::new(&other_seed);
    let b = r3.next_u32();
    assert_ne!(a1, b);
}
