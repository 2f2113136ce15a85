use soft_shadow::cache::ShadowCache;
use soft_shadow::element::Frac;
use soft_shadow::params::{IntRect, Radii, ShadowParameters};
use soft_shadow::registry::{ShaderRegistry, ShadowShader};
use soft_shadow::snap::Scale;

fn setup() -> (ShaderRegistry, ShadowCache) {
    let mut reg = ShaderRegistry::new();
    reg.install(ShadowShader(7));
    (reg, ShadowCache::new())
}

fn params(x: i32, r: u8) -> (IntRect, Radii) {
    (IntRect::new(x, 0, 100, 60), Radii::new(r, r, r, r))
}

// Cache hit stability: two calls with identical inputs return element
// lists equal by value, and the second call performs no rebuild (the
// build counter does not move).
#[test]
fn hit_returns_stored_without_rebuild() {
    let (reg, mut cache) = setup();
    let alive = vec![1u64];
    let (geo, radius) = params(0, 8);
    let first = ShadowShader::shadow_elements(
        &reg, &mut cache, &alive, 1, geo, radius, Scale::new(1, 1), Frac::whole(1),
    );
    assert_eq!(cache.builds(), 1);
    let second = ShadowShader::shadow_elements(
        &reg, &mut cache, &alive, 1, geo, radius, Scale::new(1, 1), Frac::whole(1),
    );
    assert_eq!(cache.builds(), 1);
    assert_eq!(first, second);
    assert_eq!(cache.len(), 1);
}

// Cache invalidation: changing any field of the parameters between calls
// forces a rebuild.
#[test]
fn parameter_change_forces_rebuild() {
    let (reg, mut cache) = setup();
    let alive = vec![1u64];
    let scale = Scale::new(1, 1);
    let alpha = Frac::whole(1);
    let (geo, radius) = params(0, 8);
    ShadowShader::shadow_elements(&reg, &mut cache, &alive, 1, geo, radius, scale, alpha);
    assert_eq!(cache.builds(), 1);
    // Geometry position changed.
    let (geo2, _) = params(5, 8);
    ShadowShader::shadow_elements(&reg, &mut cache, &alive, 1, geo2, radius, scale, alpha);
    assert_eq!(cache.builds(), 2);
    // One corner radius changed.
    let radius2 = Radii::new(8, 8, 8, 9);
    ShadowShader::shadow_elements(&reg, &mut cache, &alive, 1, geo2, radius2, scale, alpha);
    assert_eq!(cache.builds(), 3);
    // Back to the now-stored parameters: a hit again.
    ShadowShader::shadow_elements(&reg, &mut cache, &alive, 1, geo2, radius2, scale, alpha);
    assert_eq!(cache.builds(), 3);
    // Only one row for the key throughout.
    assert_eq!(cache.len(), 1);
}

// Dead-key purge: once a key is no longer alive, a call for any other
// key removes its row.
#[test]
fn dead_key_is_purged() {
    let (reg, mut cache) = setup();
    let scale = Scale::new(1, 1);
    let alpha = Frac::whole(1);
    let (geo, radius) = params(0, 8);
    let both = vec![1u64, 2];
    ShadowShader::shadow_elements(&reg, &mut cache, &both, 1, geo, radius, scale, alpha);
    ShadowShader::shadow_elements(&reg, &mut cache, &both, 2, geo, radius, scale, alpha);
    assert_eq!(cache.len(), 2);
    assert!(cache.contains_key(1));

    // Key 1 dies; a call with key 2 must drop its row.
    let only_two = vec![2u64];
    ShadowShader::shadow_elements(&reg, &mut cache, &only_two, 2, geo, radius, scale, alpha);
    assert!(!cache.contains_key(1));
    assert!(cache.contains_key(2));
    assert_eq!(cache.len(), 1);
    // And key 2's row was a hit, not a rebuild.
    assert_eq!(cache.builds(), 2);
}

// The direct cache entry point behaves like the wrapper.
#[test]
fn get_or_build_direct() {
    let mut cache = ShadowCache::new();
    let alive = vec![9u64];
    let (geo, radius) = params(0, 4);
    let p = ShadowParameters::new(geo, radius);
    let out = cache.get_or_build(&alive, 9, p, Scale::new(1, 1), Frac::whole(1), 42);
    assert!(!out.is_empty());
    assert_eq!(out[0].shader, 42);
    assert_eq!(cache.builds(), 1);
}

// Rebuilds are deterministic: two independent caches given equal inputs
// return element lists equal by value, in the same order.
#[test]
fn rebuild_deterministic_across_caches() {
    let (reg, mut cache_a) = setup();
    let (_, mut cache_b) = setup();
    let alive = vec![3u64];
    let (geo, radius) = params(0, 8);
    let a = ShadowShader::shadow_elements(
        &reg, &mut cache_a, &alive, 3, geo, radius, Scale::new(3, 2), Frac::new(1, 2),
    );
    let b = ShadowShader::shadow_elements(
        &reg, &mut cache_b, &alive, 3, geo, radius, Scale::new(3, 2), Frac::new(1, 2),
    );
    assert_eq!(a, b);
}

// A degenerate surface caches an empty element list.
#[test]
fn degenerate_surface_cached_empty() {
    let (reg, mut cache) = setup();
    let alive = vec![1u64];
    let out = ShadowShader::shadow_elements(
        &reg,
        &mut cache,
        &alive,
        1,
        IntRect::new(0, 0, 0, 0),
        Radii::new(8, 8, 8, 8),
        Scale::new(1, 1),
        Frac::whole(1),
    );
    assert!(out.is_empty());
    assert_eq!(cache.len(), 1);
}
