use vstd::prelude::*;
use crate::distance::{is_nan, is_nan_spec, key_of_bits, magnitude, signed, SIGN_BIT};
use crate::estimator::Bounce;

verus! {

/// The sign of a dot product of two directions.
#[derive(Clone, Copy, Debug, PartialEq, Eq, Structural)]
pub enum Sign {
    /// The directions oppose each other.
    Negative,
    /// The directions are at right angles, or one of them has no length.
    Zero,
    /// The directions agree.
    Positive,
}

/// The bit pattern of the number one.
pub const ONE_BITS: u64 = 0x3FF0_0000_0000_0000;

/// The bit pattern of ten to the minus seven, below which the size of a
/// component counts as nothing.
pub const TINY_BITS: u64 = 0x3E7A_D7F2_9ABC_AF48;

/// The light-scattering models.
#[derive(Clone, Copy, Debug, PartialEq, Eq, Structural)]
pub enum MaterialKind {
    /// Diffuse: scatters about the normal.
    Lambertian,
    /// Mirror-like: reflects, with some fuzz.
    Metal,
    /// Dielectric: reflects or refracts.
    Glass,
}

impl Sign {
    /// The sign of the dot product with one of the directions turned round.
    pub open spec fn negated(self) -> Sign {
        match self {
            Sign::Negative => Sign::Positive,
            Sign::Zero => Sign::Zero,
            Sign::Positive => Sign::Negative,
        }
    }

    /// The sign of the value with this bit pattern; what is not a number is
    /// neither below zero nor above it, and counts as zero.
    pub open spec fn of_bits_spec(bits: u64) -> Sign {
        if is_nan_spec(bits) || magnitude(bits) == 0 {
            Sign::Zero
        } else if bits >= SIGN_BIT {
            Sign::Negative
        } else {
            Sign::Positive
        }
    }

    #[verifier::when_used_as_spec(of_bits_spec)]
    pub fn of_bits(bits: u64) -> (sign: Sign)
        ensures
            sign == Sign::of_bits_spec(bits),
    {
        if is_nan(bits) || bits == 0 || bits == SIGN_BIT {
            Sign::Zero
        } else if bits >= SIGN_BIT {
            Sign::Negative
        } else {
            Sign::Positive
        }
    }
}

/// The bit pattern with its sign bit turned: that of the value negated.
pub open spec fn flipped(bits: u64) -> u64 {
    if bits >= SIGN_BIT {
        (bits - SIGN_BIT) as u64
    } else {
        (bits + SIGN_BIT) as u64
    }
}

/// The sign of a negated value is the sign negated.
pub proof fn lemma_sign_of_flipped(bits: u64)
    ensures
        Sign::of_bits_spec(flipped(bits)) == Sign::of_bits_spec(bits).negated(),
{
}

/// A ray strikes the front face of a surface where its direction opposes
/// the outward normal.
pub open spec fn is_front_face(dot_outward: Sign) -> bool {
    dot_outward == Sign::Negative
}

/// The sign of the dot product of a ray's direction with the normal that is
/// stored for a hit: the outward normal on the front face, else the outward
/// normal turned round.
pub open spec fn dot_stored(dot_outward: Sign) -> Sign {
    if is_front_face(dot_outward) {
        dot_outward
    } else {
        dot_outward.negated()
    }
}

/// Whether a ray strikes a surface from outside, given the sign of the dot
/// product of its direction with the outward normal.
#[verifier::when_used_as_spec(is_front_face)]
pub fn front_face(dot_outward: Sign) -> (front: bool)
    ensures
        front == is_front_face(dot_outward),
{
    match dot_outward {
        Sign::Negative => true,
        _ => false,
    }
}

/// A ray strikes the front face exactly where the dot product of its
/// direction with the outward normal is a number below zero.
pub proof fn lemma_front_face_is_negative_dot(dot_bits: u64)
    ensures
        is_front_face(Sign::of_bits_spec(dot_bits)) <==> !is_nan_spec(dot_bits) && signed(dot_bits)
            < 0,
{
}

/// The stored normal never points along the ray: it faces the ray or lies
/// at right angles to it.
pub proof fn lemma_stored_normal_faces_ray(dot_outward: Sign)
    ensures
        dot_stored(dot_outward) != Sign::Positive,
        is_front_face(dot_outward) <==> dot_outward == Sign::Negative,
{
}

/// What a material of this kind does with a ray whose outgoing direction has
/// the given sign of dot product with the normal: metal swallows a ray that
/// would leave into the surface or along it; everything else is sent on.
pub open spec fn scatter_spec(kind: MaterialKind, dot_outgoing: Sign) -> Bounce {
    if kind == MaterialKind::Metal && dot_outgoing != Sign::Positive {
        Bounce::Absorbed
    } else {
        Bounce::Scattered
    }
}

#[verifier::when_used_as_spec(scatter_spec)]
pub fn scatter_outcome(kind: MaterialKind, dot_outgoing: Sign) -> (bounce: Bounce)
    ensures
        bounce == scatter_spec(kind, dot_outgoing),
{
    match kind {
        MaterialKind::Metal => match dot_outgoing {
            Sign::Positive => Bounce::Scattered,
            _ => Bounce::Absorbed,
        },
        _ => Bounce::Scattered,
    }
}

/// Diffuse and dielectric surfaces never swallow a ray, and no material
/// turns a hit into a miss.
pub proof fn lemma_only_metal_absorbs(kind: MaterialKind, dot_outgoing: Sign)
    ensures
        kind != MaterialKind::Metal ==> scatter_spec(kind, dot_outgoing) == Bounce::Scattered,
        scatter_spec(kind, dot_outgoing) != Bounce::Miss,
{
}

/// A direction is near zero where the size of each of its three components,
/// given by bit pattern, is below ten to the minus seven.
pub open spec fn near_zero_spec(x: u64, y: u64, z: u64) -> bool {
    magnitude(x) < TINY_BITS && magnitude(y) < TINY_BITS && magnitude(z) < TINY_BITS
}

/// Whether a scatter direction is too short to be used, so that the normal
/// takes its place.
#[verifier::when_used_as_spec(near_zero_spec)]
pub fn near_zero(x: u64, y: u64, z: u64) -> (tiny: bool)
    ensures
        tiny == near_zero_spec(x, y, z),
{
    let mx: u64 = if x >= SIGN_BIT { x - SIGN_BIT } else { x };
    let my: u64 = if y >= SIGN_BIT { y - SIGN_BIT } else { y };
    let mz: u64 = if z >= SIGN_BIT { z - SIGN_BIT } else { z };
    mx < TINY_BITS && my < TINY_BITS && mz < TINY_BITS
}

/// The fuzz that a metal keeps of the one it is made with: the same where
/// it is a number below one, else one.
pub open spec fn clamp_fuzz_spec(fuzz: u64) -> u64 {
    if !is_nan_spec(fuzz) && signed(fuzz) < signed(ONE_BITS) {
        fuzz
    } else {
        ONE_BITS
    }
}

#[verifier::when_used_as_spec(clamp_fuzz_spec)]
pub fn clamp_fuzz(fuzz: u64) -> (kept: u64)
    ensures
        kept == clamp_fuzz_spec(fuzz),
{
    if !is_nan(fuzz) && key_of_bits(fuzz) < key_of_bits(ONE_BITS) {
        fuzz
    } else {
        ONE_BITS
    }
}

/// The fuzz of a metal is a number, and at most one.
pub proof fn lemma_fuzz_at_most_one(fuzz: u64)
    ensures
        !is_nan_spec(clamp_fuzz_spec(fuzz)),
        signed(clamp_fuzz_spec(fuzz)) <= signed(ONE_BITS),
{
}

} // verus!
