use photon::integrator::{trace_ray, Interaction};

// Rays are numbered: 0 escapes to the sky, 1 hits a lamp, 2 bounces
// towards ray 0, 3 bounces towards ray 2, 4 bounces back onto itself.
fn interact(ray: u32) -> Interaction<u32, f64> {
    match ray {
        0 => Interaction::Miss { sky: 0.5 },
        1 => Interaction::Absorbed { emitted: 4.0 },
        2 => Interaction::Scattered { emitted: 0.1, attenuation: 0.5, next: 0 },
        3 => Interaction::Scattered { emitted: 0.0, attenuation: 0.5, next: 2 },
        _ => Interaction::Scattered { emitted: 1.0, attenuation: 0.5, next: 4 },
    }
}

fn shade(emitted: f64, attenuation: f64, incoming: f64) -> f64 {
    emitted + attenuation * incoming
}

#[test]
fn miss_returns_sky() {
    assert_eq!(trace_ray(&interact, &shade, 0.0, 12, 0, 0), 0.5);
    assert_eq!(trace_ray(&interact, &shade, 0.0, 12, 0, 11), 0.5);
}

#[test]
fn absorbing_hit_returns_emission() {
    assert_eq!(trace_ray(&interact, &shade, 0.0, 12, 1, 0), 4.0);
}

#[test]
fn scattering_attenuates_what_comes_back() {
    assert_eq!(trace_ray(&interact, &shade, 0.0, 12, 2, 0), 0.35);
    assert_eq!(trace_ray(&interact, &shade, 0.0, 12, 3, 0), 0.175);
}

#[test]
fn bounce_limit_cuts_paths_to_black() {
    assert_eq!(trace_ray(&interact, &shade, 0.0, 0, 0, 0), 0.0);
    assert_eq!(trace_ray(&interact, &shade, 0.0, 5, 1, 5), 0.0);
    assert_eq!(trace_ray(&interact, &shade, 0.0, 1, 2, 0), 0.1);
    // a path that would bounce forever: 1 + 0.5 + 0.25 after three bounces
    assert_eq!(trace_ray(&interact, &shade, 0.0, 3, 4, 0), 1.75);
}
