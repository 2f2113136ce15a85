//! The per-rendering-context shader registry: it holds the one compiled
//! shadow shader program handle, installed once at renderer initialization
//! and shared read-only by every cache entry of that context.

use vstd::prelude::*;

use crate::cache::{cache_hit, entry_of, has_key, ShadowCache};
use crate::element::{elements_match, DrawableElement, Frac};
use crate::geometry::{geometry_matches, ShadowGeometry};
use crate::params::{IntRect, Radii, ShadowParameters};
use crate::snap::Scale;

verus! {

/// A handle to the compiled shadow shader program of one rendering
/// context. The handle is an opaque identifier managed by the renderer;
/// this crate only stores and hands it back, never interprets it.
#[derive(Clone, Copy, Debug, PartialEq, Eq, Structural)]
pub struct ShadowShader(pub u64);

/// Holds the shadow shader installed on a rendering context, if any.
pub struct ShaderRegistry {
    /// The installed program, or nothing before shader initialization.
    pub slot: Option<ShadowShader>,
}

impl ShaderRegistry {
    /// Has a shader been installed?
    pub open spec fn installed(self) -> bool {
        self.slot is Some
    }

    /// The installed shader.
    pub open spec fn program(self) -> ShadowShader
        recommends
            self.installed(),
    {
        match self.slot {
            Some(s) => s,
            None => ShadowShader(0),
        }
    }

    /// An empty registry: no shader installed yet.
    pub fn new() -> (r: ShaderRegistry)
        ensures
            !r.installed(),
    {
        ShaderRegistry { slot: None }
    }

    /// Installs (or replaces) the context's shadow shader.
    pub fn install(&mut self, s: ShadowShader)
        ensures
            final(self).installed(),
            final(self).program() == s,
    {
        self.slot = Some(s);
    }

    /// Whether a shader has been installed; callers outside verified code
    /// must check this before asking for the shader.
    pub fn is_installed(&self) -> (r: bool)
        ensures
            r == self.installed(),
    {
        match self.slot {
            Some(_) => true,
            None => false,
        }
    }
}

impl ShadowShader {
    /// Looks up the shader previously installed on the rendering context.
    /// Asking before installation is a renderer-initialization ordering
    /// bug, not a runtime condition: the contract excludes it, and
    /// unverified callers check `is_installed` first and fail hard.
    pub fn get(registry: &ShaderRegistry) -> (r: ShadowShader)
        requires
            registry.installed(),
        ensures
            r == registry.program(),
    {
        match registry.slot {
            Some(s) => s,
            None => ShadowShader(0),
        }
    }

    /// Computes (or returns from cache) the drawable shadow elements for
    /// one surface: sweep dead keys, hit the cache when the stored
    /// parameters equal these, rebuild otherwise.
    pub fn shadow_elements(
        registry: &ShaderRegistry,
        cache: &mut ShadowCache,
        alive: &Vec<u64>,
        key: u64,
        geo: IntRect,
        radius: Radii,
        scale: Scale,
        alpha: Frac,
    ) -> (out: Vec<DrawableElement>)
        requires
            registry.installed(),
            old(cache).wf(),
            scale.valid(),
            geo.bounded(),
            old(cache).build_count() < u64::MAX,
        ensures
            final(cache).wf(),
            forall|k2: u64|
                has_key(final(cache).rows(), k2) ==> alive@.contains(k2) || k2 == key,
            has_key(final(cache).rows(), key),
            entry_of(final(cache).rows(), key).params == (ShadowParameters { geo, radius }),
            entry_of(final(cache).rows(), key).elements@ == out@,
            forall|m: int|
                0 <= m < old(cache).rows().len() && alive@.contains(
                    (#[trigger] old(cache).rows()[m]).key,
                ) && old(cache).rows()[m].key != key ==> final(cache).rows().contains(
                    old(cache).rows()[m],
                ),
            forall|j: int|
                #![trigger final(cache).rows()[j]]
                0 <= j < final(cache).rows().len() && final(cache).rows()[j].key != key
                    ==> old(cache).rows().contains(final(cache).rows()[j]),
            cache_hit(
                old(cache).rows(),
                alive@,
                key,
                ShadowParameters { geo, radius },
            ) ==> {
                &&& final(cache).build_count() == old(cache).build_count()
                &&& out@ == entry_of(old(cache).rows(), key).elements@
            },
            !cache_hit(
                old(cache).rows(),
                alive@,
                key,
                ShadowParameters { geo, radius },
            ) ==> {
                &&& final(cache).build_count() == old(cache).build_count() + 1
                &&& exists|g: ShadowGeometry|
                    geometry_matches(g, geo, radius, scale) && elements_match(
                        out@,
                        g,
                        registry.program().0,
                        alpha,
                    )
            },
    {
        let shader = ShadowShader::get(registry);
        let params = ShadowParameters { geo, radius };
        cache.get_or_build(alive, key, params, scale, alpha, shader.0)
    }
}

} // verus!
