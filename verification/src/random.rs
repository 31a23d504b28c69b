//! Random vertex colours, for telling triangles apart.

use vstd::prelude::*;
use crate::color::Color;
use crate::geometry::{Model, Vertex};
use rand::Rng;
use rand::SeedableRng;
use rand_xorshift::XorShiftRng;

verus! {

/// `rand_xorshift::XorShiftRng`, a small fast generator, as an opaque value.
#[verifier::external_type_specification]
#[verifier::external_body]
pub struct ExXorShiftRng(rand_xorshift::XorShiftRng);

/// `Rng::random_range` over all channel values: some channel value, drawn from the
/// generator. Nothing is assumed of which.
#[verifier::external_body]
fn random_channel(rng: &mut XorShiftRng) -> (channel: u8) {
    rng.random_range(0..=255u8)
}

/// `SeedableRng::try_from_os_rng`: a generator seeded by the operating system, or
/// nothing where the system gives no entropy.
#[verifier::external_body]
fn os_seeded_rng() -> (rng: Option<XorShiftRng>) {
    XorShiftRng::try_from_os_rng().ok()
}

/// An opaque colour with random red, green and blue.
pub fn random_color(rng: &mut XorShiftRng) -> (color: Color)
    ensures
        color.a == 255,
{
    let r: u8 = random_channel(rng);
    let g: u8 = random_channel(rng);
    let b: u8 = random_channel(rng);
    Color::new(r, g, b, 255)
}

/// `after` is `before` with every vertex given some opaque colour: the positions,
/// normals and texture coordinates are those of `before`.
pub open spec fn is_recolored(before: Seq<Vertex>, after: Seq<Vertex>) -> bool {
    &&& after.len() == before.len()
    &&& forall|i: int|
        0 <= i < before.len() ==> {
            &&& (#[trigger] after[i]).position == before[i].position
            &&& after[i].normal == before[i].normal
            &&& after[i].uv == before[i].uv
            &&& after[i].color is Some
            &&& after[i].color->0.a == 255
        }
}

/// A copy of the model in which every vertex has a random colour from `rng`.
pub fn recolor(model: &Model, rng: &mut XorShiftRng) -> (colored: Model)
    ensures
        is_recolored(model.vertices@, colored.vertices@),
{
    let mut vertices: Vec<Vertex> = Vec::with_capacity(model.vertices.len());
    let mut i: usize = 0;
    while i < model.vertices.len()
        invariant
            i <= model.vertices@.len(),
            is_recolored(model.vertices@.take(i as int), vertices@),
        decreases model.vertices@.len() - i,
    {
        let mut vertex: Vertex = model.vertices[i];
        vertex.color = Some(random_color(rng));
        vertices.push(vertex);
        i = i + 1;
    }
    assert(model.vertices@.take(model.vertices@.len() as int) == model.vertices@);
    Model { vertices }
}

/// A copy of the model in which every vertex has a random colour, from a generator
/// that the operating system seeds. Where the system gives no entropy the copy has
/// the colours of the model.
pub fn randomize_model_colors(model: &Model) -> (colored: Model)
    ensures
        is_recolored(model.vertices@, colored.vertices@) || colored.vertices@ == model.vertices@,
{
    match os_seeded_rng() {
        Some(mut rng) => recolor(model, &mut rng),
        None => Model::from_vertices(model.vertices.as_slice()),
    }
}

} // verus!
