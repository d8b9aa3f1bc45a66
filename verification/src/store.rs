use vstd::prelude::*;
use crate::import::{
    apply_capability_profile, is_non_primary_wled_topic, is_segment_light_topic, plan_one_light,
    spec_apply_capability_profile, spec_is_stale_light_topic, spec_light_import, LightArchetype,
    LightCapabilities, LightImportView,
};
use crate::strmap::StrMap;
use crate::types::{HaDeviceRegistryEntry, HaEntityRegistryEntry, HaState, HaStateAttributes};

verus! {

/// The Hue resources imported for one Home Assistant light (its device,
/// light and connectivity, which the light's entity id names): whether it
/// is on, its name, the product data its device was created with, its
/// archetype and its capabilities.
pub struct ImportedLight {
    pub is_on: bool,
    pub name: String,
    pub model_id: String,
    pub manufacturer_name: String,
    pub product_name: String,
    pub archetype: LightArchetype,
    pub capabilities: LightCapabilities,
}

pub struct ImportedLightView {
    pub is_on: bool,
    pub name: Seq<char>,
    pub model_id: Seq<char>,
    pub manufacturer_name: Seq<char>,
    pub product_name: Seq<char>,
    pub archetype: LightArchetype,
    pub capabilities: LightCapabilities,
}

impl View for ImportedLight {
    type V = ImportedLightView;

    open spec fn view(&self) -> ImportedLightView {
        ImportedLightView {
            is_on: self.is_on,
            name: self.name@,
            model_id: self.model_id@,
            manufacturer_name: self.manufacturer_name@,
            product_name: self.product_name@,
            archetype: self.archetype,
            capabilities: self.capabilities,
        }
    }
}

/// The views of a map of imported lights.
pub open spec fn lights_view(m: Map<Seq<char>, ImportedLight>) -> Map<Seq<char>, ImportedLightView> {
    m.map_values(|r: ImportedLight| r@)
}

/// The light stored under `k`, if any.
pub open spec fn light_at(m: Map<Seq<char>, ImportedLightView>, k: Seq<char>) -> Option<ImportedLightView> {
    if m.dom().contains(k) {
        Some(m[k])
    } else {
        None
    }
}

/// The imported lights left once the stale ones (WLED segments, and WLED
/// lights another light of their device stands for) are removed.
pub open spec fn spec_purge_stale(
    m: Map<Seq<char>, ImportedLightView>,
    reg: Seq<HaEntityRegistryEntry>,
    primary: Map<Seq<char>, String>,
) -> Map<Seq<char>, ImportedLightView> {
    m.restrict(m.dom().filter(|t: Seq<char>| !spec_is_stale_light_topic(Some(t), reg, primary)))
}

/// A light after an import of it: a light met for the first time is created
/// with the import's product data and its profile applied to `fresh` (the
/// capabilities a new Hue light starts with); a known light takes the
/// import's on/off, name and archetype and has its profile applied again,
/// keeping its product data.
pub open spec fn spec_import_light(
    prev: Option<ImportedLightView>,
    imp: LightImportView,
    attrs: HaStateAttributes,
    fresh: LightCapabilities,
) -> ImportedLightView {
    match prev {
        Some(r) => ImportedLightView {
            is_on: imp.is_on,
            name: imp.friendly_name,
            archetype: imp.profile.archetype,
            capabilities: spec_apply_capability_profile(r.capabilities, attrs, imp.profile, imp.is_on),
            ..r
        },
        None => ImportedLightView {
            is_on: imp.is_on,
            name: imp.friendly_name,
            model_id: imp.model_id,
            manufacturer_name: imp.manufacturer_name,
            product_name: imp.friendly_name,
            archetype: imp.profile.archetype,
            capabilities: spec_apply_capability_profile(fresh, attrs, imp.profile, imp.is_on),
        },
    }
}

/// The imported lights after the first `n` states are imported, in order.
pub open spec fn spec_import_states(
    m: Map<Seq<char>, ImportedLightView>,
    states: Seq<HaState>,
    reg: Seq<HaEntityRegistryEntry>,
    devs: Seq<HaDeviceRegistryEntry>,
    primary: Map<Seq<char>, String>,
    fresh: LightCapabilities,
    n: int,
) -> Map<Seq<char>, ImportedLightView>
    decreases n,
{
    if n <= 0 {
        m
    } else {
        let prev = spec_import_states(m, states, reg, devs, primary, fresh, n - 1);
        match spec_light_import(states[n - 1], reg, devs, primary) {
            Some(imp) => prev.insert(
                imp.entity_id,
                spec_import_light(light_at(prev, imp.entity_id), imp, states[n - 1].attributes, fresh),
            ),
            None => prev,
        }
    }
}

/// The imported lights after a light sync: the stale lights are removed,
/// then every state is imported in order.
pub open spec fn spec_sync_lights(
    m: Map<Seq<char>, ImportedLightView>,
    states: Seq<HaState>,
    reg: Seq<HaEntityRegistryEntry>,
    devs: Seq<HaDeviceRegistryEntry>,
    primary: Map<Seq<char>, String>,
    fresh: LightCapabilities,
) -> Map<Seq<char>, ImportedLightView> {
    spec_import_states(
        spec_purge_stale(m, reg, primary),
        states,
        reg,
        devs,
        primary,
        fresh,
        states.len() as int,
    )
}

/// Removes the stale lights: WLED segments, and WLED lights that another
/// light of their device stands for.
pub fn purge_stale_lights(
    lights: &mut StrMap<ImportedLight>,
    entity_registry: &[HaEntityRegistryEntry],
    wled_primary: &StrMap<String>,
)
    requires
        old(lights).wf(),
        wled_primary.wf(),
    ensures
        final(lights).wf(),
        lights_view(final(lights)@) == spec_purge_stale(
            lights_view(old(lights)@),
            entity_registry@,
            wled_primary@,
        ),
{
    let ghost orig = old(lights)@;
    let ghost reg = entity_registry@;
    let ghost primary = wled_primary@;
    let mut rest: StrMap<ImportedLight> = StrMap::new();
    std::mem::swap(lights, &mut rest);
    while rest.len() > 0
        invariant
            rest.wf(),
            lights.wf(),
            wled_primary.wf(),
            reg == entity_registry@,
            primary == wled_primary@,
            forall|k: Seq<char>| #[trigger]
                lights@.dom().contains(k) <==> (orig.dom().contains(k) && !spec_is_stale_light_topic(
                    Some(k),
                    reg,
                    primary,
                ) && !rest@.dom().contains(k)),
            forall|k: Seq<char>| #[trigger] lights@.dom().contains(k) ==> lights@[k] == orig[k],
            forall|k: Seq<char>| #[trigger]
                rest@.dom().contains(k) ==> orig.dom().contains(k) && rest@[k] == orig[k],
        decreases rest.key_list().len(),
    {
        proof {
            rest.lemma_lists();
            assert(rest.key_list().contains(rest.key_list()[0]));
        }
        let ghost before = rest@;
        let (k, v) = rest.remove_at(0);
        let ghost kv = k@;
        assert(before.dom().contains(kv));
        let stale = is_segment_light_topic(k.as_str()) || is_non_primary_wled_topic(
            k.as_str(),
            entity_registry,
            wled_primary,
        );
        if !stale {
            lights.insert(k, v);
        }
    }
    proof {
        rest.lemma_lists();
        assert forall|k: Seq<char>| !rest@.dom().contains(k) by {
            if rest@.dom().contains(k) {
                assert(rest.key_list().contains(k));
            }
        }
        assert(lights_view(lights@) =~= spec_purge_stale(lights_view(orig), reg, primary));
    }
}

/// Syncs the imported lights with Home Assistant: the stale lights are
/// removed, then every state is imported in order; `fresh` is what a new
/// Hue light's capabilities start as.
pub fn sync_imported_lights(
    lights: &mut StrMap<ImportedLight>,
    states: &[HaState],
    entity_registry: &[HaEntityRegistryEntry],
    device_registry: &[HaDeviceRegistryEntry],
    wled_primary: &StrMap<String>,
    fresh: LightCapabilities,
)
    requires
        old(lights).wf(),
        wled_primary.wf(),
    ensures
        final(lights).wf(),
        lights_view(final(lights)@) == spec_sync_lights(
            lights_view(old(lights)@),
            states@,
            entity_registry@,
            device_registry@,
            wled_primary@,
            fresh,
        ),
{
    purge_stale_lights(lights, entity_registry, wled_primary);
    let ghost x = lights_view(lights@);
    let mut i: usize = 0;
    while i < states.len()
        invariant
            lights.wf(),
            wled_primary.wf(),
            i <= states@.len(),
            lights_view(lights@) == spec_import_states(
                x,
                states@,
                entity_registry@,
                device_registry@,
                wled_primary@,
                fresh,
                i as int,
            ),
        decreases states@.len() - i,
    {
        let st = &states[i];
        match plan_one_light(st, entity_registry, device_registry, wled_primary) {
            Some(imp) => {
                let ghost prev = lights_view(lights@);
                let rec = match lights.get(imp.entity_id.as_str()) {
                    Some(r) => {
                        let mut caps = r.capabilities;
                        apply_capability_profile(&mut caps, &st.attributes, &imp.profile, imp.is_on);
                        ImportedLight {
                            is_on: imp.is_on,
                            name: imp.friendly_name.clone(),
                            model_id: r.model_id.clone(),
                            manufacturer_name: r.manufacturer_name.clone(),
                            product_name: r.product_name.clone(),
                            archetype: imp.profile.archetype,
                            capabilities: caps,
                        }
                    },
                    None => {
                        let mut caps = fresh;
                        apply_capability_profile(&mut caps, &st.attributes, &imp.profile, imp.is_on);
                        ImportedLight {
                            is_on: imp.is_on,
                            name: imp.friendly_name.clone(),
                            model_id: imp.model_id.clone(),
                            manufacturer_name: imp.manufacturer_name.clone(),
                            product_name: imp.friendly_name.clone(),
                            archetype: imp.profile.archetype,
                            capabilities: caps,
                        }
                    },
                };
                assert(rec@ == spec_import_light(light_at(prev, imp@.entity_id), imp@, st.attributes, fresh));
                let ghost rv = rec@;
                lights.insert(imp.entity_id.clone(), rec);
                assert(lights_view(lights@) =~= prev.insert(imp@.entity_id, rv));
            },
            None => {},
        }
        i += 1;
    }
}

// ---- What the import does to one light ----

/// What the first `n` states do to the light stored under `k`, starting
/// from `v`.
pub open spec fn key_import(
    states: Seq<HaState>,
    reg: Seq<HaEntityRegistryEntry>,
    devs: Seq<HaDeviceRegistryEntry>,
    primary: Map<Seq<char>, String>,
    fresh: LightCapabilities,
    k: Seq<char>,
    v: Option<ImportedLightView>,
    n: int,
) -> Option<ImportedLightView>
    decreases n,
{
    if n <= 0 {
        v
    } else {
        let prev = key_import(states, reg, devs, primary, fresh, k, v, n - 1);
        match spec_light_import(states[n - 1], reg, devs, primary) {
            Some(imp) => if imp.entity_id == k {
                Some(spec_import_light(prev, imp, states[n - 1].attributes, fresh))
            } else {
                prev
            },
            None => prev,
        }
    }
}

/// The last of the first `n` states that imports `k`, with its attributes.
pub open spec fn last_import_of(
    states: Seq<HaState>,
    reg: Seq<HaEntityRegistryEntry>,
    devs: Seq<HaDeviceRegistryEntry>,
    primary: Map<Seq<char>, String>,
    k: Seq<char>,
    n: int,
) -> Option<(LightImportView, HaStateAttributes)>
    decreases n,
{
    if n <= 0 {
        None
    } else {
        match spec_light_import(states[n - 1], reg, devs, primary) {
            Some(imp) => if imp.entity_id == k {
                Some((imp, states[n - 1].attributes))
            } else {
                last_import_of(states, reg, devs, primary, k, n - 1)
            },
            None => last_import_of(states, reg, devs, primary, k, n - 1),
        }
    }
}

/// The first of the first `n` states that imports `k`.
pub open spec fn first_import_of(
    states: Seq<HaState>,
    reg: Seq<HaEntityRegistryEntry>,
    devs: Seq<HaDeviceRegistryEntry>,
    primary: Map<Seq<char>, String>,
    k: Seq<char>,
    n: int,
) -> Option<LightImportView>
    decreases n,
{
    if n <= 0 {
        None
    } else {
        let earlier = first_import_of(states, reg, devs, primary, k, n - 1);
        if earlier is Some {
            earlier
        } else {
            match spec_light_import(states[n - 1], reg, devs, primary) {
                Some(imp) => if imp.entity_id == k {
                    Some(imp)
                } else {
                    None
                },
                None => None,
            }
        }
    }
}

/// Whether a dimming delta and a colour-temperature delta survive a
/// profile being applied.
pub open spec fn delta_mask(imp: LightImportView) -> (bool, bool) {
    (
        !imp.profile.onoff_only && imp.profile.supports_dimming,
        !imp.profile.onoff_only && imp.profile.supports_color_temperature,
    )
}

/// Whether the deltas survive every import of `k` among the first `n`
/// states.
pub open spec fn deltas_kept(
    states: Seq<HaState>,
    reg: Seq<HaEntityRegistryEntry>,
    devs: Seq<HaDeviceRegistryEntry>,
    primary: Map<Seq<char>, String>,
    k: Seq<char>,
    n: int,
) -> (bool, bool)
    decreases n,
{
    if n <= 0 {
        (true, true)
    } else {
        let rest = deltas_kept(states, reg, devs, primary, k, n - 1);
        match spec_light_import(states[n - 1], reg, devs, primary) {
            Some(imp) => if imp.entity_id == k {
                (rest.0 && delta_mask(imp).0, rest.1 && delta_mask(imp).1)
            } else {
                rest
            },
            None => rest,
        }
    }
}

/// `c` with its deltas cut down to those that `mask` keeps.
pub open spec fn masked(c: LightCapabilities, mask: (bool, bool)) -> LightCapabilities {
    LightCapabilities {
        has_dimming_delta: c.has_dimming_delta && mask.0,
        has_color_temperature_delta: c.has_color_temperature_delta && mask.1,
        ..c
    }
}

/// The light under `k` after the first `n` states, in closed form.
pub open spec fn key_import_closed(
    states: Seq<HaState>,
    reg: Seq<HaEntityRegistryEntry>,
    devs: Seq<HaDeviceRegistryEntry>,
    primary: Map<Seq<char>, String>,
    fresh: LightCapabilities,
    k: Seq<char>,
    v: Option<ImportedLightView>,
    n: int,
) -> Option<ImportedLightView> {
    match last_import_of(states, reg, devs, primary, k, n) {
        None => v,
        Some((imp, attrs)) => {
            let first = first_import_of(states, reg, devs, primary, k, n)->0;
            let c0 = match v {
                Some(r) => r.capabilities,
                None => fresh,
            };
            let caps = spec_apply_capability_profile(
                masked(c0, deltas_kept(states, reg, devs, primary, k, n)),
                attrs,
                imp.profile,
                imp.is_on,
            );
            Some(
                match v {
                    Some(r) => ImportedLightView {
                        is_on: imp.is_on,
                        name: imp.friendly_name,
                        archetype: imp.profile.archetype,
                        capabilities: caps,
                        ..r
                    },
                    None => ImportedLightView {
                        is_on: imp.is_on,
                        name: imp.friendly_name,
                        model_id: first.model_id,
                        manufacturer_name: first.manufacturer_name,
                        product_name: first.friendly_name,
                        archetype: imp.profile.archetype,
                        capabilities: caps,
                    },
                },
            )
        },
    }
}

/// Applying a profile reads only the deltas of the capabilities it starts
/// from, and only those the profile keeps.
proof fn lemma_apply_reads_kept_deltas(
    c1: LightCapabilities,
    c2: LightCapabilities,
    attrs: HaStateAttributes,
    imp: LightImportView,
)
    requires
        (c1.has_dimming_delta && delta_mask(imp).0) == (c2.has_dimming_delta && delta_mask(imp).0),
        (c1.has_color_temperature_delta && delta_mask(imp).1) == (c2.has_color_temperature_delta
            && delta_mask(imp).1),
    ensures
        spec_apply_capability_profile(c1, attrs, imp.profile, imp.is_on)
            == spec_apply_capability_profile(c2, attrs, imp.profile, imp.is_on),
        spec_apply_capability_profile(c1, attrs, imp.profile, imp.is_on).has_dimming_delta == (
        c1.has_dimming_delta && delta_mask(imp).0),
        spec_apply_capability_profile(c1, attrs, imp.profile, imp.is_on).has_color_temperature_delta
            == (c1.has_color_temperature_delta && delta_mask(imp).1),
{
}

/// `key_import` in closed form.
proof fn lemma_key_import_closed(
    states: Seq<HaState>,
    reg: Seq<HaEntityRegistryEntry>,
    devs: Seq<HaDeviceRegistryEntry>,
    primary: Map<Seq<char>, String>,
    fresh: LightCapabilities,
    k: Seq<char>,
    v: Option<ImportedLightView>,
    n: int,
)
    ensures
        key_import(states, reg, devs, primary, fresh, k, v, n) == key_import_closed(
            states,
            reg,
            devs,
            primary,
            fresh,
            k,
            v,
            n,
        ),
        last_import_of(states, reg, devs, primary, k, n) is Some ==> first_import_of(
            states,
            reg,
            devs,
            primary,
            k,
            n,
        ) is Some,
    decreases n,
{
    if n > 0 {
        lemma_key_import_closed(states, reg, devs, primary, fresh, k, v, n - 1);
        let step = spec_light_import(states[n - 1], reg, devs, primary);
        if step is Some && step->0.entity_id == k {
            let imp = step->0;
            let attrs = states[n - 1].attributes;
            let prev = key_import(states, reg, devs, primary, fresh, k, v, n - 1);
            let c0 = match v {
                Some(r) => r.capabilities,
                None => fresh,
            };
            let m = deltas_kept(states, reg, devs, primary, k, n);
            match last_import_of(states, reg, devs, primary, k, n - 1) {
                None => {
                    lemma_deltas_kept_includes_last(states, reg, devs, primary, k, n - 1);
                    let pc = match prev {
                        Some(r) => r.capabilities,
                        None => fresh,
                    };
                    assert(pc == c0);
                    assert(m == delta_mask(imp));
                    lemma_apply_reads_kept_deltas(masked(c0, m), c0, attrs, imp);
                },
                Some((pimp, pattrs)) => {
                    let pm = deltas_kept(states, reg, devs, primary, k, n - 1);
                    let pcaps = spec_apply_capability_profile(masked(c0, pm), pattrs, pimp.profile, pimp.is_on);
                    assert(prev->0.capabilities == pcaps);
                    lemma_apply_reads_kept_deltas(masked(c0, pm), masked(c0, pm), pattrs, pimp);
                    lemma_deltas_kept_includes_last(states, reg, devs, primary, k, n - 1);
                    lemma_apply_reads_kept_deltas(pcaps, masked(c0, m), attrs, imp);
                },
            }
        }
    }
}

/// The deltas kept over the first `n` states include the mask of the last
/// import of `k`.
proof fn lemma_deltas_kept_includes_last(
    states: Seq<HaState>,
    reg: Seq<HaEntityRegistryEntry>,
    devs: Seq<HaDeviceRegistryEntry>,
    primary: Map<Seq<char>, String>,
    k: Seq<char>,
    n: int,
)
    ensures
        last_import_of(states, reg, devs, primary, k, n) matches Some((imp, _)) ==> {
            let m = deltas_kept(states, reg, devs, primary, k, n);
            &&& (m.0 ==> delta_mask(imp).0)
            &&& (m.1 ==> delta_mask(imp).1)
        },
        last_import_of(states, reg, devs, primary, k, n) is None ==> deltas_kept(
            states,
            reg,
            devs,
            primary,
            k,
            n,
        ) == (true, true) && first_import_of(states, reg, devs, primary, k, n) is None,
    decreases n,
{
    if n > 0 {
        lemma_deltas_kept_includes_last(states, reg, devs, primary, k, n - 1);
    }
}

/// Importing the same states twice into one light gives what importing
/// them once gives.
proof fn lemma_key_import_idempotent(
    states: Seq<HaState>,
    reg: Seq<HaEntityRegistryEntry>,
    devs: Seq<HaDeviceRegistryEntry>,
    primary: Map<Seq<char>, String>,
    fresh: LightCapabilities,
    k: Seq<char>,
    v: Option<ImportedLightView>,
    n: int,
)
    ensures
        key_import(
            states,
            reg,
            devs,
            primary,
            fresh,
            k,
            key_import(states, reg, devs, primary, fresh, k, v, n),
            n,
        ) == key_import(states, reg, devs, primary, fresh, k, v, n),
{
    let w = key_import(states, reg, devs, primary, fresh, k, v, n);
    lemma_key_import_closed(states, reg, devs, primary, fresh, k, v, n);
    lemma_key_import_closed(states, reg, devs, primary, fresh, k, w, n);
    if let Some((imp, attrs)) = last_import_of(states, reg, devs, primary, k, n) {
        let m = deltas_kept(states, reg, devs, primary, k, n);
        let c0 = match v {
            Some(r) => r.capabilities,
            None => fresh,
        };
        let wc = w->0.capabilities;
        lemma_deltas_kept_includes_last(states, reg, devs, primary, k, n);
        lemma_apply_reads_kept_deltas(masked(c0, m), masked(c0, m), attrs, imp);
        lemma_apply_reads_kept_deltas(masked(wc, m), masked(c0, m), attrs, imp);
    }
}

/// Importing states changes each light as `key_import` says.
proof fn lemma_import_states_per_key(
    m: Map<Seq<char>, ImportedLightView>,
    states: Seq<HaState>,
    reg: Seq<HaEntityRegistryEntry>,
    devs: Seq<HaDeviceRegistryEntry>,
    primary: Map<Seq<char>, String>,
    fresh: LightCapabilities,
    n: int,
)
    ensures
        forall|k: Seq<char>| #[trigger]
            light_at(spec_import_states(m, states, reg, devs, primary, fresh, n), k) == key_import(
                states,
                reg,
                devs,
                primary,
                fresh,
                k,
                light_at(m, k),
                n,
            ),
    decreases n,
{
    if n > 0 {
        lemma_import_states_per_key(m, states, reg, devs, primary, fresh, n - 1);
        let prev = spec_import_states(m, states, reg, devs, primary, fresh, n - 1);
        let cur = spec_import_states(m, states, reg, devs, primary, fresh, n);
        assert forall|k: Seq<char>| #[trigger]
            light_at(cur, k) == key_import(states, reg, devs, primary, fresh, k, light_at(m, k), n) by {
            assert(light_at(prev, k) == key_import(states, reg, devs, primary, fresh, k, light_at(m, k), n - 1));
        }
    }
}

/// Two maps that store the same light under every key are equal.
proof fn lemma_same_lights(a: Map<Seq<char>, ImportedLightView>, b: Map<Seq<char>, ImportedLightView>)
    requires
        forall|k: Seq<char>| #[trigger] light_at(a, k) == light_at(b, k),
    ensures
        a == b,
{
    assert forall|k: Seq<char>| a.dom().contains(k) <==> b.dom().contains(k) by {
        assert(light_at(a, k) == light_at(b, k));
    }
    assert forall|k: Seq<char>| a.dom().contains(k) implies a[k] == b[k] by {
        assert(light_at(a, k) == light_at(b, k));
    }
    assert(a =~= b);
}

/// Syncing the lights a second time, from the same Home Assistant states
/// and registries, changes nothing: the imported lights are exactly those
/// the first sync left.
pub proof fn lemma_sync_lights_idempotent(
    m: Map<Seq<char>, ImportedLightView>,
    states: Seq<HaState>,
    reg: Seq<HaEntityRegistryEntry>,
    devs: Seq<HaDeviceRegistryEntry>,
    primary: Map<Seq<char>, String>,
    fresh: LightCapabilities,
)
    ensures
        spec_sync_lights(spec_sync_lights(m, states, reg, devs, primary, fresh), states, reg, devs, primary, fresh)
            == spec_sync_lights(m, states, reg, devs, primary, fresh),
{
    let n = states.len() as int;
    let x = spec_purge_stale(m, reg, primary);
    let y = spec_import_states(x, states, reg, devs, primary, fresh, n);
    let py = spec_purge_stale(y, reg, primary);
    let z = spec_import_states(py, states, reg, devs, primary, fresh, n);
    lemma_import_states_per_key(x, states, reg, devs, primary, fresh, n);
    lemma_import_states_per_key(py, states, reg, devs, primary, fresh, n);
    assert forall|k: Seq<char>| #[trigger] light_at(z, k) == light_at(y, k) by {
        if spec_is_stale_light_topic(Some(k), reg, primary) {
            assert(light_at(py, k) is None);
            assert(light_at(x, k) is None);
        } else {
            assert(light_at(py, k) == light_at(y, k));
            lemma_key_import_idempotent(states, reg, devs, primary, fresh, k, light_at(x, k), n);
        }
    }
    lemma_same_lights(z, y);
}

} // verus!
