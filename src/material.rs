use rand::Rng;
use vstd::prelude::*;

verus! {

/// The kinds of material a surface can have.
#[derive(Clone, Copy, Debug, PartialEq, Eq, Structural)]
pub enum MaterialKind {
    /// Lambertian reflection, tinted by an albedo.
    Diffuse,
    /// Mirror reflection blurred by a fuzz factor.
    Metallic,
    /// Refraction with partial reflection, as glass.
    Dielectric,
}

/// The kind of material a generated scene gives a small sphere for a draw
/// out of a hundred: eighty diffuse, ten metallic and ten dielectric.
pub open spec fn kind_for_draw(draw: u32) -> MaterialKind {
    if draw < 80 {
        MaterialKind::Diffuse
    } else if draw < 90 {
        MaterialKind::Metallic
    } else {
        MaterialKind::Dielectric
    }
}

/// The kind of material for `draw`, a number below a hundred.
pub fn material_kind_for(draw: u32) -> (k: MaterialKind)
    requires
        draw < 100,
    ensures
        k == kind_for_draw(draw),
{
    if draw < 80 {
        MaterialKind::Diffuse
    } else if draw < 90 {
        MaterialKind::Metallic
    } else {
        MaterialKind::Dielectric
    }
}

/// Relies on rand::Rng::gen_range on the thread-local generator: a number in
/// `0..bound`; it panics on an empty range.
#[verifier::external_body]
fn random_below(bound: u32) -> (r: u32)
    requires
        bound > 0,
    ensures
        r < bound,
{
    rand::thread_rng().gen_range(0..bound)
}

/// A material kind drawn at random with the weights of `kind_for_draw`.
pub fn random_material_kind() -> (k: MaterialKind)
    ensures
        exists|draw: u32| draw < 100 && k == kind_for_draw(draw),
{
    let draw = random_below(100);
    material_kind_for(draw)
}

} // verus!
