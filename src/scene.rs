use vstd::prelude::*;

verus! {

/// A primitive whose faces are swapped: hits on it report the opposite
/// `front_face`. Used on one-sided lights so that their emitting face points
/// into the scene.
pub struct FlipFace<T>(pub T);

/// A diffuse material whose colour comes from the texture `albedo`; it
/// scatters along a cosine-weighted distribution around the normal.
pub struct Lambertian<T> {
    pub albedo: T,
}

/// An emitting material: it never scatters, and gives off the colour of the
/// texture `emit` from its front face only.
pub struct DiffuseLight<T> {
    pub emit: T,
}

/// An equal-weight mixture of two densities over directions: each sample is
/// drawn from one of the two, chosen by a fair coin.
pub struct MixturePdf<P0, P1> {
    pub p0: P0,
    pub p1: P1,
}

} // verus!
