use vstd::prelude::*;

verus! {

/// What the scene does with one ray, as far as the integrator needs to know.
#[derive(Debug)]
pub enum Interaction<R, C> {
    /// The ray hits nothing; `sky` is the sky model's radiance for it.
    Miss { sky: C },
    /// The ray hits a surface that emits `emitted` and scatters nothing.
    Absorbed { emitted: C },
    /// The ray hits a surface that emits `emitted` and sends light on along
    /// `next`, weighted channel by channel with `attenuation`.
    Scattered { emitted: C, attenuation: C, next: R },
}

/// `c` is a radiance that tracing `ray` at bounce `depth` can return.
///
/// At the bounce limit the answer is `black`. Otherwise it follows what
/// `interact` reports: the sky on a miss, the emission on an absorbing hit,
/// and `shade(emitted, attenuation, incoming)` on a scattering hit, where
/// `incoming` is traced along the scattered ray one bounce deeper.
pub open spec fn traced<R, C, FI: Fn(R) -> Interaction<R, C>, FC: Fn(C, C, C) -> C>(
    interact: FI,
    shade: FC,
    black: C,
    max_bounces: u32,
    ray: R,
    depth: u32,
    c: C,
) -> bool
    decreases max_bounces - depth,
{
    if depth >= max_bounces {
        c == black
    } else {
        exists|i: Interaction<R, C>|
            #![trigger interact.ensures((ray,), i)]
            interact.ensures((ray,), i) && match i {
                Interaction::Miss { sky } => c == sky,
                Interaction::Absorbed { emitted } => c == emitted,
                Interaction::Scattered { emitted, attenuation, next } => exists|incoming: C|
                    #![trigger shade.ensures((emitted, attenuation, incoming), c)]
                    traced(interact, shade, black, max_bounces, next, (depth + 1) as u32, incoming)
                        && shade.ensures((emitted, attenuation, incoming), c),
            }
    }
}

/// The scene's answer for a ray is a function of the ray.
pub open spec fn interaction_is_function<R, C, FI: Fn(R) -> Interaction<R, C>>(
    interact: FI,
) -> bool {
    forall|ray: R, i1: Interaction<R, C>, i2: Interaction<R, C>|
        #![trigger interact.ensures((ray,), i1), interact.ensures((ray,), i2)]
        interact.ensures((ray,), i1) && interact.ensures((ray,), i2) ==> i1 == i2
}

/// Traces one ray through the scene and returns the radiance it carries
/// back, following scattered rays until the bounce limit.
pub fn trace_ray<R, C: Copy, FI, FC>(
    interact: &FI,
    shade: &FC,
    black: C,
    max_bounces: u32,
    ray: R,
    depth: u32,
) -> (r: C) where FI: Fn(R) -> Interaction<R, C>, FC: Fn(C, C, C) -> C
    requires
        forall|q: R| interact.requires((q,)),
        forall|e: C, a: C, l: C| shade.requires((e, a, l)),
    ensures
        traced(*interact, *shade, black, max_bounces, ray, depth, r),
        depth >= max_bounces ==> r == black,
    decreases max_bounces - depth,
{
    if depth >= max_bounces {
        return black;
    }
    let i = interact(ray);
    match i {
        Interaction::Miss { sky } => sky,
        Interaction::Absorbed { emitted } => emitted,
        Interaction::Scattered { emitted, attenuation, next } => {
            let incoming = trace_ray(interact, shade, black, max_bounces, next, depth + 1);
            let c = shade(emitted, attenuation, incoming);
            assert(traced(*interact, *shade, black, max_bounces, next, (depth + 1) as u32, incoming)
                && shade.ensures((emitted, attenuation, incoming), c));
            c
        },
    }
}

/// A ray that misses every primitive, traced below the bounce limit, brings
/// back exactly the sky's radiance for it.
pub proof fn lemma_miss_returns_sky<R, C, FI: Fn(R) -> Interaction<R, C>, FC: Fn(C, C, C) -> C>(
    interact: FI,
    shade: FC,
    black: C,
    max_bounces: u32,
    ray: R,
    depth: u32,
    sky: C,
    c: C,
)
    requires
        interaction_is_function(interact),
        interact.ensures((ray,), Interaction::Miss { sky }),
        depth < max_bounces,
        traced(interact, shade, black, max_bounces, ray, depth, c),
    ensures
        c == sky,
{
    let i = choose|i: Interaction<R, C>|
        #![trigger interact.ensures((ray,), i)]
        interact.ensures((ray,), i) && match i {
            Interaction::Miss { sky } => c == sky,
            Interaction::Absorbed { emitted } => c == emitted,
            Interaction::Scattered { emitted, attenuation, next } => exists|incoming: C|
                #![trigger shade.ensures((emitted, attenuation, incoming), c)]
                traced(interact, shade, black, max_bounces, next, (depth + 1) as u32, incoming)
                    && shade.ensures((emitted, attenuation, incoming), c),
        };
    assert(i == Interaction::<R, C>::Miss { sky });
}

} // verus!
