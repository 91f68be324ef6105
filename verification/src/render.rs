//! The integrator's path and the split of the sample budget.
//!
//! The light along a ray is the light that the surface it strikes gives
//! off, plus the light along the scattered ray, attenuated. `trace_path`
//! follows a ray from strike to strike and records, for each, the two
//! colours that this sum needs; the sum itself is real arithmetic and is the
//! caller's.

use vstd::prelude::*;
use crate::hit::{Hit, HitRecord, Ray};
use crate::material::{DiffuseLight, Scatter, SolidColor};
use crate::scalar::{Scalar, INFINITY};
use crate::vec3::{Color, Vec3};

verus! {

/// The key of 0.001, the least parameter at which a strike counts: nearer
/// ones are the surface that the ray has just left.
pub const T_NEAR: Scalar = 0x3f50_624d_d2f1_a9fc;

/// The key of positive infinity: no strike is too far.
pub const T_FAR: Scalar = INFINITY;

/// The number of samples that each of `workers` workers takes so that
/// together they take at least `total`: `total / workers`, rounded up.
pub open spec fn share(total: nat, workers: nat) -> nat
    recommends
        workers > 0,
{
    if total % workers == 0 {
        total / workers
    } else {
        total / workers + 1
    }
}

/// The samples that each worker takes of a budget of `total`.
pub fn samples_per_worker(total: usize, workers: usize) -> (each: usize)
    requires
        workers > 0,
    ensures
        each == share(total as nat, workers as nat),
{
    if total % workers == 0 {
        total / workers
    } else {
        proof {
            // a remainder means at least two workers, so that the quotient is at most half of `total`
            assert(total % 1 == 0);
            vstd::arithmetic::div_mod::lemma_div_is_ordered_by_denominator(total as int, 2, workers as int);
        }
        total / workers + 1
    }
}

/// The shares cover the budget, and no smaller share would: the workers
/// together take at least `total` samples and fewer than `total + workers`.
pub proof fn lemma_share_covers(total: nat, workers: nat)
    requires
        workers > 0,
    ensures
        share(total, workers) * workers >= total,
        share(total, workers) * workers < total + workers,
        share(total, workers) == 0 <==> total == 0,
{
    let q = total / workers;
    let r = total % workers;
    assert(total == q * workers + r) by {
        vstd::arithmetic::div_mod::lemma_fundamental_div_mod(total as int, workers as int);
        assert(workers * q == q * workers) by (nonlinear_arith);
    }
    assert((q + 1) * workers == q * workers + workers) by (nonlinear_arith);
    if q == 0 && r == 0 {
        assert(total == 0);
    }
    if total == 0 {
        assert(q == 0 && r == 0) by (nonlinear_arith)
            requires
                total == q * workers + r,
                total == 0,
                workers > 0,
                q >= 0,
                r >= 0,
        ;
    }
    if q > 0 {
        assert(q * workers >= workers) by (nonlinear_arith)
            requires
                q >= 1,
                workers > 0,
        ;
    }
}

/// Where a path ends.
#[derive(Debug, Copy, Clone, PartialEq, Eq, Structural)]
pub enum PathEnd {
    /// The path was cut off at its greatest depth: no light comes this way.
    Exhausted,
    /// The ray struck nothing: the light of the background comes this way.
    Missed,
    /// The surface scattered nothing: only what it gives off comes this way.
    Absorbed { emitted: Color },
}

/// One scattering on a path: the light that the surface gives off, and the
/// colour by which it attenuates the light from further along.
#[derive(Debug, Copy, Clone, PartialEq, Eq, Structural)]
pub struct Bounce {
    pub emitted: Color,
    pub attenuation: Color,
}

/// A path: its scatterings from the eye outwards, and its end. The light
/// along it is found from the end backwards: from the light at the end, each
/// scattering makes `emitted + attenuation * light`.
pub struct LightPath {
    pub bounces: Vec<Bounce>,
    pub end: PathEnd,
}

/// Why a path could not be followed.
#[derive(Debug, Copy, Clone, PartialEq, Eq, Structural)]
pub enum RenderError {
    /// After this many scatterings the ray struck a surface whose record
    /// names no material of the scene.
    MissingMaterial { bounce: usize },
}

impl LightPath {
    /// A path of at most `depth` scatterings. One that was cut off has
    /// exactly `depth` of them.
    pub open spec fn within(&self, depth: usize) -> bool {
        &&& self.bounces@.len() <= depth
        &&& self.end == PathEnd::Exhausted <==> self.bounces@.len() == depth
    }
}

/// The material that the strike `rec` names in `materials`, if it names one.
pub open spec fn material_of(rec: HitRecord, count: nat) -> Option<int> {
    match rec.material {
        Some(index) => if index < count {
            Some(index as int)
        } else {
            None
        },
        None => None,
    }
}

/// How a path through a steady world begins. `first` is what the ray
/// strikes first.
///
/// - No strike: the path has no scattering and ends as missed.
/// - A strike that names no material: there is no path, and the fault lies
///   before the first scattering.
/// - A strike on a surface that scatters nothing: the path has no
///   scattering and ends with what that surface gives off at the strike. A
///   surface that absorbs every ray always ends the path so.
/// - A strike on a surface that scatters: what that surface gives off at
///   the strike is what the first scattering records, and a later fault lies
///   after the first scattering.
pub open spec fn begins<M: Scatter>(
    traced: Result<LightPath, RenderError>,
    first: Option<HitRecord>,
    materials: Seq<M>,
) -> bool {
    match first {
        None => traced matches Ok(path) && path.bounces@.len() == 0 && path.end == PathEnd::Missed,
        Some(rec) => match material_of(rec, materials.len()) {
            None => traced == Err::<LightPath, RenderError>(RenderError::MissingMaterial { bounce: 0 }),
            Some(index) => {
                let glow = materials[index].emission(rec.u, rec.v, rec.point);
                match traced {
                    Ok(path) => if path.bounces@.len() == 0 {
                        path.end == (PathEnd::Absorbed { emitted: glow })
                    } else {
                        path.bounces@[0].emitted == glow && !materials[index].absorbs()
                    },
                    Err(RenderError::MissingMaterial { bounce }) => bounce >= 1 && !materials[index].absorbs(),
                }
            },
        },
    }
}

/// The first strike was on a surface that scattered, and `bounces` begins
/// with what that surface gives off at the strike.
pub open spec fn goes_on<M: Scatter>(first: Option<HitRecord>, materials: Seq<M>, bounces: Seq<Bounce>) -> bool {
    &&& first matches Some(rec) && material_of(rec, materials.len()) matches Some(index) && !materials[index].absorbs()
        && bounces.len() >= 1 && bounces[0].emitted == materials[index].emission(rec.u, rec.v, rec.point)
}

/// Follows `ray` through `world` for at most `depth` scatterings. Each
/// strike is looked for from `T_NEAR` to `T_FAR`. The material of a strike is
/// the entry of `materials` that the record names; a strike must name one.
/// A path of depth 0 is cut off before it begins.
pub fn trace_path<W: Hit, M: Scatter>(ray: Ray, world: &W, materials: &Vec<M>, depth: usize) -> (traced: Result<
    LightPath,
    RenderError,
>)
    ensures
        traced matches Ok(path) ==> path.within(depth),
        traced matches Err(RenderError::MissingMaterial { bounce }) ==> bounce < depth,
        depth > 0 && world.steady() ==> begins(traced, world.strike(ray, T_NEAR, T_FAR), materials@),
{
    let mut bounces: Vec<Bounce> = Vec::new();
    let mut current = ray;
    let mut left = depth;
    let ghost first = world.strike(ray, T_NEAR, T_FAR);
    while left > 0
        invariant
            left <= depth,
            bounces@.len() == depth - left,
            left == depth ==> current == ray,
            first == world.strike(ray, T_NEAR, T_FAR),
            left < depth && world.steady() ==> goes_on(first, materials@, bounces@),
        decreases left,
    {
        let mut hitrec = HitRecord::default();
        if !world.hit(current, T_NEAR, T_FAR, &mut hitrec) {
            return Ok(LightPath { bounces, end: PathEnd::Missed });
        }
        let ghost struck = hitrec;
        let index = match hitrec.material {
            Some(index) => index,
            None => {
                return Err(RenderError::MissingMaterial { bounce: depth - left });
            },
        };
        if index >= materials.len() {
            return Err(RenderError::MissingMaterial { bounce: depth - left });
        }
        let material = &materials[index];
        let emitted = material.emitted(hitrec.u, hitrec.v, hitrec.point);
        let mut ray_scattered = Ray::default();
        let mut attenuation = Vec3::default();
        if !material.scatter(current, &mut hitrec, &mut attenuation, &mut ray_scattered) {
            return Ok(LightPath { bounces, end: PathEnd::Absorbed { emitted } });
        }
        proof {
            if left == depth && world.steady() {
                assert(first == Some(struck));
                assert(material_of(struck, materials@.len()) == Some(index as int));
            }
        }
        bounces.push(Bounce { emitted, attenuation });
        current = ray_scattered;
        left -= 1;
    }
    Ok(LightPath { bounces, end: PathEnd::Exhausted })
}

/// In a scene lit by nothing but lights of one colour each, a path of any
/// depth but 0 shows the light that the ray strikes first and nothing else:
/// it has no scattering, and ends with the colour of that light, or as
/// missed where the ray strikes nothing.
pub proof fn lemma_path_to_a_light(
    traced: Result<LightPath, RenderError>,
    first: Option<HitRecord>,
    materials: Seq<DiffuseLight<SolidColor>>,
)
    requires
        begins(traced, first, materials),
    ensures
        match first {
            None => traced matches Ok(path) && path.bounces@.len() == 0 && path.end == PathEnd::Missed,
            Some(rec) => match material_of(rec, materials.len()) {
                None => traced == Err::<LightPath, RenderError>(RenderError::MissingMaterial { bounce: 0 }),
                Some(index) => traced matches Ok(path) && path.bounces@.len() == 0 && path.end == (
                PathEnd::Absorbed { emitted: materials[index].emit.color }),
            },
        },
{
}

} // verus!
