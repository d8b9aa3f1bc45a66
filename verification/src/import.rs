use vstd::prelude::*;
use crate::order::{lemma_ranked_lt_total, lemma_ranked_lt_transitive, ranked_leq, ranked_lt, is_least_of};
use crate::strmap::StrMap;
use crate::text::{
    opt_view, str_starts_with,
    all_digits, all_digits_from, chars_lt, chars_of, contains_seq, has_prefix, has_prefix_exec,
    str_contains, str_eq, strings_view, utf8_len,
};
use crate::types::{mirek_reported, lemma_current_mirek_from_attributes};
use crate::types::{
    find_first_entry, find_last_entry, first_entry, last_entry, lemma_first_entry_is_last_entry,
    registry_ids_unique, HaArea, HaDeviceRegistryEntry, HaEntityRegistryEntry, HaState,
    HaStateAttributes,
};
use crate::wled::{parse_segment_index, spec_parse_segment_index};
use crate::runtime::GradientMode;
use crate::wled::{device_group, group_wled_lights_by_device, lemma_group_member_device};

verus! {

/// The entity id names the main WLED light (`light.wled`, or
/// `light.wled_` followed only by digits).
pub open spec fn is_preferred_wled_id(a: Seq<char>) -> bool {
    ||| a == "light.wled"@
    ||| has_prefix(a, "light.wled_"@) && all_digits(a.skip("light.wled_"@.len() as int))
}

/// How the lights of one WLED device compete to stand for it: preferred
/// ids first, then ids without `_segment_`, then shorter ids (in bytes),
/// then by entity id.
pub open spec fn primary_rank(a: Seq<char>) -> (int, int, int) {
    (
        if is_preferred_wled_id(a) {
            0
        } else {
            1
        },
        if contains_seq(a, "_segment_"@) {
            1
        } else {
            0
        },
        utf8_len(a),
    )
}

pub open spec fn primary_rank_fn() -> spec_fn(Seq<char>) -> (int, int, int) {
    |a: Seq<char>| primary_rank(a)
}

/// The order in which the lights of one WLED device compete to stand for it.
pub open spec fn primary_leq() -> spec_fn(Seq<char>, Seq<char>) -> bool {
    ranked_leq(primary_rank_fn())
}

/// The rank of an entity id, as `primary_rank` gives it.
fn primary_rank_exec(a: &String) -> (r: (u8, u8, usize))
    ensures
        primary_rank(a@) == (r.0 as int, r.1 as int, r.2 as int),
{
    let chars = chars_of(a.as_str());
    let prefix = chars_of("light.wled_");
    let preferred = str_eq(a.as_str(), "light.wled") || (has_prefix_exec(&chars, &prefix)
        && all_digits_from(&chars, prefix.len()));
    let segment = str_contains(a.as_str(), "_segment_");
    let len = a.as_str().len();
    (
        if preferred {
            0
        } else {
            1
        },
        if segment {
            1
        } else {
            0
        },
        len,
    )
}

/// Whether `a` wins over `b` for standing for their WLED device.
pub fn primary_lt(a: &String, b: &String) -> (r: bool)
    ensures
        r == ranked_lt(primary_rank_fn(), a@, b@),
{
    let ra = primary_rank_exec(a);
    let rb = primary_rank_exec(b);
    if ra.0 != rb.0 {
        return ra.0 < rb.0;
    }
    if ra.1 != rb.1 {
        return ra.1 < rb.1;
    }
    if ra.2 != rb.2 {
        return ra.2 < rb.2;
    }
    let ca = chars_of(a.as_str());
    let cb = chars_of(b.as_str());
    chars_lt(&ca, &cb)
}

/// The position of the light that wins in a non-empty list.
fn least_by_primary(v: &Vec<String>) -> (i: usize)
    requires
        v.len() > 0,
    ensures
        i < v.len(),
        is_least_of(primary_leq(), v@[i as int]@, strings_view(v@)),
{
    let ghost rank = primary_rank_fn();
    let ghost sv = strings_view(v@);
    let mut best: usize = 0;
    let mut t: usize = 1;
    while t < v.len()
        invariant
            rank == primary_rank_fn(),
            sv == strings_view(v@),
            best < t <= v.len(),
            forall|u: int| 0 <= u < t ==> #[trigger] ranked_leq(rank)(sv[best as int], sv[u]),
        decreases v.len() - t,
    {
        if primary_lt(&v[t], &v[best]) {
            proof {
                assert forall|u: int| 0 <= u < t + 1 implies #[trigger] ranked_leq(rank)(
                    sv[t as int],
                    sv[u],
                ) by {
                    if u < t && sv[best as int] != sv[u] {
                        assert(ranked_leq(rank)(sv[best as int], sv[u]));
                        assert(ranked_lt(rank, sv[best as int], sv[u]));
                        lemma_ranked_lt_transitive(rank, sv[t as int], sv[best as int], sv[u]);
                    }
                }
            }
            best = t;
        } else {
            proof {
                if sv[best as int] != sv[t as int] {
                    lemma_ranked_lt_total(rank, sv[best as int], sv[t as int]);
                }
                assert(ranked_leq(rank)(sv[best as int], sv[t as int]));
            }
        }
        t += 1;
    }
    assert(sv[best as int] == v@[best as int]@);
    assert(sv.contains(sv[best as int]));
    best
}

/// For every WLED device, the light that stands for it: the least of its
/// WLED-like lights in `primary_leq` order.
pub fn compute_primary_wled_entity_by_device(
    states: &[HaState],
    entity_registry: &[HaEntityRegistryEntry],
) -> (m: StrMap<String>)
    ensures
        m.wf(),
        is_primary_map_for(m@, states@, entity_registry@),
{
    let ghost st = states@;
    let ghost reg = entity_registry@;
    let by_device = group_wled_lights_by_device(states, entity_registry);
    let ghost keys = by_device.key_list();
    proof {
        by_device.lemma_lists();
        assert forall|k: int| 0 <= k < keys.len() implies strings_view(
            #[trigger] by_device.value_list()[k]@,
        ) == device_group(st, reg, keys[k]) by {
            assert(keys.contains(keys[k]));
            assert(by_device@.dom().contains(keys[k]));
            assert(by_device@[keys[k]] == by_device.value_list()[k]);
        }
        assert forall|k: int| 0 <= k < keys.len() implies device_group(st, reg, #[trigger] keys[k]).len() > 0 by {
            assert(keys.contains(keys[k]));
            assert(by_device@.dom().contains(keys[k]));
        }
    }
    let mut m: StrMap<String> = StrMap::new();
    let mut j: usize = 0;
    while j < by_device.len()
        invariant
            j <= keys.len(),
            keys == by_device.key_list(),
            keys.no_duplicates(),
            forall|k: int|
                0 <= k < keys.len() ==> strings_view(#[trigger] by_device.value_list()[k]@)
                    == device_group(st, reg, keys[k]),
            forall|k: int| 0 <= k < keys.len() ==> device_group(st, reg, #[trigger] keys[k]).len() > 0,
            m.wf(),
            forall|d: Seq<char>| #[trigger]
                m@.dom().contains(d) <==> (exists|k: int| 0 <= k < j && keys[k] == d),
            forall|d: Seq<char>| #[trigger]
                m@.dom().contains(d) ==> is_least_of(primary_leq(), m@[d]@, device_group(st, reg, d)),
        decreases keys.len() - j,
    {
        let entities = by_device.value_at(j);
        let best = least_by_primary(entities);
        let d = by_device.key_at(j).clone();
        let chosen = entities[best].clone();
        let ghost dv = d@;
        m.insert(d, chosen);
        proof {
            assert forall|d2: Seq<char>| #[trigger]
                m@.dom().contains(d2) <==> (exists|k: int| 0 <= k < j + 1 && keys[k] == d2) by {
                if d2 == dv {
                    assert(keys[j as int] == d2);
                }
            }
        }
        j += 1;
    }
    proof {
        assert forall|d: Seq<char>| #[trigger]
            m@.dom().contains(d) <==> device_group(st, reg, d).len() > 0 by {
            if device_group(st, reg, d).len() > 0 {
                assert(by_device@.dom().contains(d));
                assert(keys.contains(d));
            }
        }
    }
    m
}


/// The kind of Hue device a Home Assistant light is shown as.
#[derive(Clone, Copy, Debug, PartialEq, Eq, Structural)]
pub enum LightArchetype {
    HueLightstrip,
    ClassicBulb,
    UnknownArchetype,
}

/// What a Home Assistant light can do, as the bridge presents it.
#[derive(Clone, Copy, Debug, PartialEq, Eq, Structural)]
pub struct LightProfile {
    pub archetype: LightArchetype,
    pub onoff_only: bool,
    pub supports_dimming: bool,
    pub supports_color_temperature: bool,
    pub supports_color: bool,
    pub supports_gradient: bool,
}

/// The profile of a light: a WLED-like light is a dimmable colour gradient
/// strip; any other light keeps its reported capabilities and is a classic
/// bulb when it supports colour.
pub open spec fn spec_classify_light_profile(
    attrs: HaStateAttributes,
    entity_id: Seq<char>,
    platform: Option<Seq<char>>,
) -> LightProfile {
    if attrs.spec_is_wled_like(entity_id, platform) {
        LightProfile {
            archetype: LightArchetype::HueLightstrip,
            onoff_only: false,
            supports_dimming: true,
            supports_color_temperature: attrs.spec_supports_color_temperature(),
            supports_color: true,
            supports_gradient: true,
        }
    } else {
        LightProfile {
            archetype: if attrs.spec_supports_color() {
                LightArchetype::ClassicBulb
            } else {
                LightArchetype::UnknownArchetype
            },
            onoff_only: attrs.spec_is_onoff_only(),
            supports_dimming: attrs.spec_supports_dimming(),
            supports_color_temperature: attrs.spec_supports_color_temperature(),
            supports_color: attrs.spec_supports_color(),
            supports_gradient: false,
        }
    }
}

/// The platform named by an optional registry row.
pub open spec fn entry_platform(entry: Option<HaEntityRegistryEntry>) -> Option<Seq<char>> {
    match entry {
        Some(e) => opt_view(e.platform),
        None => None,
    }
}

/// Classifies a Home Assistant light.
pub fn classify_light_profile(state: &HaState, entry: Option<&HaEntityRegistryEntry>) -> (p:
    LightProfile)
    ensures
        p == spec_classify_light_profile(
            state.attributes,
            state.entity_id@,
            entry_platform(
                match entry {
                    Some(e) => Some(*e),
                    None => None,
                },
            ),
        ),
{
    let attrs = &state.attributes;
    let platform = match entry {
        Some(e) => match &e.platform {
            Some(p) => Some(p.as_str()),
            None => None,
        },
        None => None,
    };
    let is_wled = attrs.is_wled_like(state.entity_id.as_str(), platform);
    let supports_dimming = attrs.supports_dimming();
    let supports_color_temperature = attrs.supports_color_temperature();
    let supports_color = attrs.supports_color();
    let onoff_only = attrs.is_onoff_only();
    if is_wled {
        return LightProfile {
            archetype: LightArchetype::HueLightstrip,
            onoff_only: false,
            supports_dimming: true,
            supports_color_temperature,
            supports_color: true,
            supports_gradient: true,
        };
    }
    LightProfile {
        archetype: if supports_color {
            LightArchetype::ClassicBulb
        } else {
            LightArchetype::UnknownArchetype
        },
        onoff_only,
        supports_dimming,
        supports_color_temperature,
        supports_color,
        supports_gradient: false,
    }
}

/// The brightness a dimmable light is given: the reported brightness
/// (on Home Assistant's 0..=255 scale, shown as a percentage), or full or
/// zero by whether the light is on.
#[derive(Clone, Copy, Debug, PartialEq, Eq, Structural)]
pub enum DimmingLevel {
    Reported(u16),
    Full,
    Off,
}

/// Where a colour light's colour comes from: the reported colour, or the
/// D65 white point when the light reports none.
#[derive(Clone, Copy, Debug, PartialEq, Eq, Structural)]
pub enum ColorSource {
    Reported,
    WhitePoint,
}

/// The capability-bearing parts of a Hue light resource.
///
/// `color_temperature` is `Some(mirek)` when the light has a colour
/// temperature (the mirek being valid exactly when it is `Some`); the delta
/// flags say whether the light holds a dimming or colour-temperature delta;
/// `gradient` is the gradient the light holds, if any.
#[derive(Clone, Copy, Debug, PartialEq, Eq, Structural)]
pub struct LightCapabilities {
    pub archetype: LightArchetype,
    pub dimming: Option<DimmingLevel>,
    pub has_dimming_delta: bool,
    pub color_temperature: Option<Option<u16>>,
    pub has_color_temperature_delta: bool,
    pub color: Option<ColorSource>,
    pub gradient: Option<GradientCapability>,
}

/// A Hue light's gradient, but for the colours of its points (floats, which
/// the caller keeps): its mode, the modes it offers, how many points it can
/// take, how many it holds, and its pixel count.
#[derive(Clone, Copy, Debug, PartialEq, Eq, Structural)]
pub struct GradientCapability {
    pub mode: GradientMode,
    pub offers_interpolated_palette: bool,
    pub offers_interpolated_palette_mirrored: bool,
    pub offers_random_pixelated: bool,
    pub points_capable: u32,
    pub point_count: u32,
    pub pixel_count: u32,
}

/// The gradient a gradient-capable light is given: interpolated palette,
/// offering interpolated palette, its mirrored form and random pixelated,
/// able to take 10 points, holding one point (at the D65 white point), over
/// 60 pixels.
pub open spec fn spec_default_gradient() -> GradientCapability {
    GradientCapability {
        mode: GradientMode::InterpolatedPalette,
        offers_interpolated_palette: true,
        offers_interpolated_palette_mirrored: true,
        offers_random_pixelated: true,
        points_capable: 10,
        point_count: 1,
        pixel_count: 60,
    }
}

/// The gradient a gradient-capable light is given.
pub fn default_gradient() -> (g: GradientCapability)
    ensures
        g == spec_default_gradient(),
{
    GradientCapability {
        mode: GradientMode::InterpolatedPalette,
        offers_interpolated_palette: true,
        offers_interpolated_palette_mirrored: true,
        offers_random_pixelated: true,
        points_capable: 10,
        point_count: 1,
        pixel_count: 60,
    }
}

/// The light reports a colour (CIE xy, hue/saturation or RGB).
pub open spec fn reports_color(attrs: HaStateAttributes) -> bool {
    attrs.has_xy_color || attrs.has_hs_color || attrs.rgb_color is Some
}

/// The capabilities of `light` after a profile is applied to it.
pub open spec fn spec_apply_capability_profile(
    light: LightCapabilities,
    attrs: HaStateAttributes,
    profile: LightProfile,
    is_on: bool,
) -> LightCapabilities {
    if profile.onoff_only {
        LightCapabilities {
            archetype: profile.archetype,
            dimming: None,
            has_dimming_delta: false,
            color_temperature: None,
            has_color_temperature_delta: false,
            color: None,
            gradient: None,
        }
    } else {
        LightCapabilities {
            archetype: profile.archetype,
            dimming: if profile.supports_dimming {
                Some(
                    match attrs.brightness {
                        Some(b) => DimmingLevel::Reported(b),
                        None => if is_on {
                            DimmingLevel::Full
                        } else {
                            DimmingLevel::Off
                        },
                    },
                )
            } else {
                None
            },
            has_dimming_delta: profile.supports_dimming && light.has_dimming_delta,
            color_temperature: if profile.supports_color_temperature {
                Some(attrs.spec_current_mirek())
            } else {
                None
            },
            has_color_temperature_delta: profile.supports_color_temperature
                && light.has_color_temperature_delta,
            color: if profile.supports_color {
                Some(
                    if reports_color(attrs) {
                        ColorSource::Reported
                    } else {
                        ColorSource::WhitePoint
                    },
                )
            } else {
                None
            },
            gradient: if profile.supports_gradient {
                Some(spec_default_gradient())
            } else {
                None
            },
        }
    }
}

/// Brings a light's capabilities in line with its profile.
pub fn apply_capability_profile(
    light: &mut LightCapabilities,
    attrs: &HaStateAttributes,
    profile: &LightProfile,
    is_on: bool,
)
    ensures
        *final(light) == spec_apply_capability_profile(*old(light), *attrs, *profile, is_on),
{
    light.archetype = profile.archetype;
    if profile.onoff_only {
        light.dimming = None;
        light.color = None;
        light.gradient = None;
        light.color_temperature = None;
        light.has_color_temperature_delta = false;
        light.has_dimming_delta = false;
        return ;
    }
    if profile.supports_dimming {
        let level = match attrs.brightness {
            Some(b) => DimmingLevel::Reported(b),
            None => if is_on {
                DimmingLevel::Full
            } else {
                DimmingLevel::Off
            },
        };
        light.dimming = Some(level);
    } else {
        light.dimming = None;
        light.has_dimming_delta = false;
    }
    if profile.supports_color_temperature {
        light.color_temperature = Some(attrs.current_mirek());
    } else {
        light.color_temperature = None;
        light.has_color_temperature_delta = false;
    }
    if profile.supports_color {
        let reported = attrs.has_xy_color || attrs.has_hs_color || attrs.rgb_color.is_some();
        light.color = Some(
            if reported {
                ColorSource::Reported
            } else {
                ColorSource::WhitePoint
            },
        );
    } else {
        light.color = None;
    }
    light.gradient = if profile.supports_gradient {
        Some(default_gradient())
    } else {
        None
    };
}

/// Applying the same profile twice changes nothing more than applying it once.
pub proof fn lemma_apply_capability_profile_idempotent(
    light: LightCapabilities,
    attrs: HaStateAttributes,
    profile: LightProfile,
    is_on: bool,
)
    ensures
        spec_apply_capability_profile(
            spec_apply_capability_profile(light, attrs, profile, is_on),
            attrs,
            profile,
            is_on,
        ) == spec_apply_capability_profile(light, attrs, profile, is_on),
{
}

/// An on/off-only profile leaves a light with no dimming, colour, colour
/// temperature, gradient or deltas, whatever it held before.
pub proof fn lemma_onoff_only_clears_capabilities(
    light: LightCapabilities,
    attrs: HaStateAttributes,
    profile: LightProfile,
    is_on: bool,
)
    requires
        profile.onoff_only,
    ensures
        ({
            let l = spec_apply_capability_profile(light, attrs, profile, is_on);
            &&& l.dimming is None
            &&& !l.has_dimming_delta
            &&& l.color_temperature is None
            &&& !l.has_color_temperature_delta
            &&& l.color is None
            &&& l.gradient is None
            &&& l.archetype == profile.archetype
        }),
{
}

/// A WLED-like light is always shown as a dimmable colour gradient strip.
pub proof fn lemma_wled_light_is_gradient_strip(
    attrs: HaStateAttributes,
    entity_id: Seq<char>,
    platform: Option<Seq<char>>,
)
    requires
        attrs.spec_is_wled_like(entity_id, platform),
    ensures
        ({
            let p = spec_classify_light_profile(attrs, entity_id, platform);
            &&& p.archetype == LightArchetype::HueLightstrip
            &&& p.supports_gradient
            &&& p.supports_color
            &&& p.supports_dimming
            &&& !p.onoff_only
        }),
{
}


/// A light that is not WLED-like is shown as a classic bulb exactly when
/// it supports colour, and as of unknown archetype otherwise; it keeps the
/// capabilities its attributes report and gets no gradient.
pub proof fn lemma_plain_light_profile(
    attrs: HaStateAttributes,
    entity_id: Seq<char>,
    platform: Option<Seq<char>>,
)
    requires
        !attrs.spec_is_wled_like(entity_id, platform),
    ensures
        ({
            let p = spec_classify_light_profile(attrs, entity_id, platform);
            &&& (p.archetype == LightArchetype::ClassicBulb) == attrs.spec_supports_color()
            &&& (p.archetype == LightArchetype::UnknownArchetype) == !attrs.spec_supports_color()
            &&& p.supports_color == attrs.spec_supports_color()
            &&& p.supports_dimming == attrs.spec_supports_dimming()
            &&& p.supports_color_temperature == attrs.spec_supports_color_temperature()
            &&& p.onoff_only == attrs.spec_is_onoff_only()
            &&& !p.supports_gradient
        }),
{
}

/// A light whose profile supports colour temperature (and is not
/// on/off-only) takes the mirek its attributes report (from the Kelvin
/// attribute when present and non-zero, else the mirek attribute, within
/// 153..=500); any other light is left with no colour temperature.
pub proof fn lemma_profile_color_temperature(
    light: LightCapabilities,
    attrs: HaStateAttributes,
    profile: LightProfile,
    is_on: bool,
)
    ensures
        spec_apply_capability_profile(light, attrs, profile, is_on).color_temperature == (if !profile.onoff_only
            && profile.supports_color_temperature {
            Some(mirek_reported(attrs.color_temp_kelvin, attrs.color_temp))
        } else {
            None
        }),
{
    lemma_current_mirek_from_attributes(attrs);
}

/// A light's own area wins: when its registry row names an area, that is
/// its area, whatever area its device has; the area of the first device row
/// for its device counts only when the row names none.
pub proof fn lemma_own_area_wins(e: HaEntityRegistryEntry, devs: Seq<HaDeviceRegistryEntry>, i: int)
    ensures
        e.area_id matches Some(a) ==> spec_light_area(Some(e), devs) == Some(a@),
        e.area_id is None && e.device_id is Some && 0 <= i < devs.len() && devs[i].id@
            == e.device_id->0@ && (forall|j: int| 0 <= j < i ==> devs[j].id@ != e.device_id->0@)
            ==> spec_light_area(Some(e), devs) == opt_view(devs[i].area_id),
        e.area_id is None && e.device_id is None ==> spec_light_area(Some(e), devs) is None,
{
    if e.area_id is None && e.device_id is Some && 0 <= i < devs.len() && devs[i].id@
        == e.device_id->0@ && (forall|j: int| 0 <= j < i ==> devs[j].id@ != e.device_id->0@) {
        let d = e.device_id->0@;
        assert(is_first_device(devs, d, i));
        assert forall|j: int| is_first_device(devs, d, j) implies j == i by {
            if j < i {
                assert(devs[j].id@ != d);
            } else if j > i {
                assert(devs[i].id@ == d);
            }
        }
    }
}

/// An imported light is placed in the area its own registry row names,
/// whatever area its device has.
pub proof fn lemma_import_uses_own_area(
    st: HaState,
    reg: Seq<HaEntityRegistryEntry>,
    devs: Seq<HaDeviceRegistryEntry>,
    primary: Map<Seq<char>, String>,
    e: HaEntityRegistryEntry,
)
    requires
        spec_light_import(st, reg, devs, primary) is Some,
        first_entry(reg, st.entity_id@) == Some(e),
        e.area_id is Some,
    ensures
        spec_light_import(st, reg, devs, primary)->0.area_id == Some(e.area_id->0@),
{
    lemma_own_area_wins(e, devs, 0);
}

/// What `on` / `off` in a light's state mean; any other state is neither.
pub open spec fn spec_on_off(state: Seq<char>) -> Option<bool> {
    if state == "on"@ {
        Some(true)
    } else if state == "off"@ {
        Some(false)
    } else {
        None
    }
}

/// A light's state reads as on for exactly `on`, as off for exactly `off`,
/// and as neither for every other state (such as `unavailable`).
pub proof fn lemma_on_off_states(state: Seq<char>)
    ensures
        spec_on_off(state) == Some(true) <==> state == "on"@,
        spec_on_off(state) == Some(false) <==> state == "off"@,
        spec_on_off(state) is None <==> (state != "on"@ && state != "off"@),
{
    reveal_strlit("on");
    reveal_strlit("off");
    assert("on"@.len() != "off"@.len());
}

/// Reads a light's `on` / `off` state.
pub fn on_off(state: &str) -> (r: Option<bool>)
    ensures
        r == spec_on_off(state@),
{
    if str_eq(state, "on") {
        Some(true)
    } else if str_eq(state, "off") {
        Some(false)
    } else {
        None
    }
}

/// `devs[i]` is the first device-registry row with id `id`.
pub open spec fn is_first_device(devs: Seq<HaDeviceRegistryEntry>, id: Seq<char>, i: int) -> bool {
    &&& 0 <= i < devs.len()
    &&& devs[i].id@ == id
    &&& forall|j: int| 0 <= j < i ==> devs[j].id@ != id
}

/// The first device-registry row with id `id`.
pub open spec fn first_device(devs: Seq<HaDeviceRegistryEntry>, id: Seq<char>) -> Option<
    HaDeviceRegistryEntry,
> {
    if exists|i: int| is_first_device(devs, id, i) {
        Some(devs[choose|i: int| is_first_device(devs, id, i)])
    } else {
        None
    }
}

/// The area of a light: the area of its registry row, else the area of
/// the device that the row names.
pub open spec fn spec_light_area(
    entry: Option<HaEntityRegistryEntry>,
    devs: Seq<HaDeviceRegistryEntry>,
) -> Option<Seq<char>> {
    match entry {
        None => None,
        Some(e) => match e.area_id {
            Some(a) => Some(a@),
            None => match e.device_id {
                Some(d) => match first_device(devs, d@) {
                    Some(x) => opt_view(x.area_id),
                    None => None,
                },
                None => None,
            },
        },
    }
}

/// A Home Assistant light to be shown as a Hue light (with its device and
/// connectivity resources).
pub struct LightImport {
    pub entity_id: String,
    pub is_on: bool,
    pub friendly_name: String,
    pub model_id: String,
    pub manufacturer_name: String,
    pub profile: LightProfile,
    pub area_id: Option<String>,
}

pub struct LightImportView {
    pub entity_id: Seq<char>,
    pub is_on: bool,
    pub friendly_name: Seq<char>,
    pub model_id: Seq<char>,
    pub manufacturer_name: Seq<char>,
    pub profile: LightProfile,
    pub area_id: Option<Seq<char>>,
}

impl View for LightImport {
    type V = LightImportView;

    open spec fn view(&self) -> LightImportView {
        LightImportView {
            entity_id: self.entity_id@,
            is_on: self.is_on,
            friendly_name: self.friendly_name@,
            model_id: self.model_id@,
            manufacturer_name: self.manufacturer_name@,
            profile: self.profile,
            area_id: opt_view(self.area_id),
        }
    }
}

/// The light stands behind another light of the same WLED device.
pub open spec fn shadowed_by_primary(
    entry: Option<HaEntityRegistryEntry>,
    primary: Map<Seq<char>, String>,
    eid: Seq<char>,
) -> bool {
    match entry {
        Some(e) => match e.device_id {
            Some(d) => primary.dom().contains(d@) && primary[d@]@ != eid,
            None => false,
        },
        None => false,
    }
}

/// `primary` maps exactly the devices that have WLED-like lights, each to
/// the least of them in `primary_leq` order, as
/// `compute_primary_wled_entity_by_device` gives it.
pub open spec fn is_primary_map_for(
    primary: Map<Seq<char>, String>,
    states: Seq<HaState>,
    reg: Seq<HaEntityRegistryEntry>,
) -> bool {
    &&& forall|d: Seq<char>| #[trigger]
        primary.dom().contains(d) <==> device_group(states, reg, d).len() > 0
    &&& forall|d: Seq<char>| #[trigger]
        primary.dom().contains(d) ==> is_least_of(primary_leq(), primary[d]@, device_group(states, reg, d))
}

/// One Hue light per WLED device: with one registry row per entity, of the
/// WLED-like lights of a device exactly the one that stands for it is not
/// held back.
pub proof fn lemma_one_light_per_wled_device(
    primary: Map<Seq<char>, String>,
    states: Seq<HaState>,
    reg: Seq<HaEntityRegistryEntry>,
    d: Seq<char>,
    e: Seq<char>,
)
    requires
        registry_ids_unique(reg),
        is_primary_map_for(primary, states, reg),
        device_group(states, reg, d).contains(e),
    ensures
        primary.dom().contains(d),
        shadowed_by_primary(first_entry(reg, e), primary, e) <==> e != primary[d]@,
{
    assert(device_group(states, reg, d).len() > 0);
    lemma_group_member_device(states, reg, d, e);
    lemma_first_entry_is_last_entry(reg, e);
}

/// How one Home Assistant state is imported: only `light.` entities that
/// are not segment entities, are `on` or `off`, and are not shadowed by the
/// primary light of their WLED device.
pub open spec fn spec_light_import(
    st: HaState,
    reg: Seq<HaEntityRegistryEntry>,
    devs: Seq<HaDeviceRegistryEntry>,
    primary: Map<Seq<char>, String>,
) -> Option<LightImportView> {
    let eid = st.entity_id@;
    if !has_prefix(eid, "light."@) || spec_parse_segment_index(eid) is Some {
        None
    } else {
        match spec_on_off(st.state@) {
            None => None,
            Some(on) => {
                let entry = first_entry(reg, eid);
                if shadowed_by_primary(entry, primary, eid) {
                    None
                } else {
                    Some(
                        LightImportView {
                            entity_id: eid,
                            is_on: on,
                            friendly_name: match st.attributes.friendly_name {
                                Some(f) => f@,
                                None => eid,
                            },
                            model_id: match st.attributes.model {
                                Some(m) => m@,
                                None => "HA-LIGHT"@,
                            },
                            manufacturer_name: match st.attributes.manufacturer {
                                Some(m) => m@,
                                None => "Home Assistant"@,
                            },
                            profile: spec_classify_light_profile(
                                st.attributes,
                                eid,
                                entry_platform(entry),
                            ),
                            area_id: spec_light_area(entry, devs),
                        },
                    )
                }
            },
        }
    }
}

/// The imports of the first `n` states, in state order.
pub open spec fn planned_imports(
    states: Seq<HaState>,
    reg: Seq<HaEntityRegistryEntry>,
    devs: Seq<HaDeviceRegistryEntry>,
    primary: Map<Seq<char>, String>,
    n: int,
) -> Seq<LightImportView>
    decreases n,
{
    if n <= 0 {
        Seq::empty()
    } else {
        let rest = planned_imports(states, reg, devs, primary, n - 1);
        match spec_light_import(states[n - 1], reg, devs, primary) {
            Some(x) => rest.push(x),
            None => rest,
        }
    }
}

/// Only whole lights are imported: every planned import stands for a
/// `light.` entity that is no segment entity, is `on` or `off` as one of the
/// states says, and is not held back behind the light that stands for its
/// WLED device.
pub proof fn lemma_imports_are_whole_lights(
    states: Seq<HaState>,
    reg: Seq<HaEntityRegistryEntry>,
    devs: Seq<HaDeviceRegistryEntry>,
    primary: Map<Seq<char>, String>,
    n: int,
)
    requires
        0 <= n <= states.len(),
    ensures
        forall|j: int| #![trigger planned_imports(states, reg, devs, primary, n)[j]]
            0 <= j < planned_imports(states, reg, devs, primary, n).len() ==> {
                let x = planned_imports(states, reg, devs, primary, n)[j];
                &&& has_prefix(x.entity_id, "light."@)
                &&& spec_parse_segment_index(x.entity_id) is None
                &&& !shadowed_by_primary(first_entry(reg, x.entity_id), primary, x.entity_id)
                &&& exists|i: int|
                    0 <= i < n && #[trigger] states[i].entity_id@ == x.entity_id && spec_on_off(
                        states[i].state@,
                    ) == Some(x.is_on)
            },
    decreases n,
{
    if n > 0 {
        lemma_imports_are_whole_lights(states, reg, devs, primary, n - 1);
        let rest = planned_imports(states, reg, devs, primary, n - 1);
        let all = planned_imports(states, reg, devs, primary, n);
        assert forall|j: int| #![trigger all[j]] 0 <= j < all.len() implies {
            let x = all[j];
            &&& has_prefix(x.entity_id, "light."@)
            &&& spec_parse_segment_index(x.entity_id) is None
            &&& !shadowed_by_primary(first_entry(reg, x.entity_id), primary, x.entity_id)
            &&& exists|i: int|
                0 <= i < n && #[trigger] states[i].entity_id@ == x.entity_id && spec_on_off(
                    states[i].state@,
                ) == Some(x.is_on)
        } by {
            if j < rest.len() {
                assert(all[j] == rest[j]);
                let i = choose|i: int|
                    0 <= i < n - 1 && #[trigger] states[i].entity_id@ == rest[j].entity_id && spec_on_off(
                        states[i].state@,
                    ) == Some(rest[j].is_on);
                assert(0 <= i < n && states[i].entity_id@ == all[j].entity_id);
            } else {
                assert(states[n - 1].entity_id@ == all[j].entity_id);
            }
        }
    }
}

/// The area of a light, as `spec_light_area` gives it.
fn light_area(entry: Option<&HaEntityRegistryEntry>, devs: &[HaDeviceRegistryEntry]) -> (r: Option<
    String,
>)
    ensures
        opt_view(r) == spec_light_area(
            match entry {
                Some(e) => Some(*e),
                None => None,
            },
            devs@,
        ),
{
    let e = match entry {
        Some(e) => e,
        None => return None,
    };
    if let Some(a) = &e.area_id {
        return Some(a.clone());
    }
    let d = match &e.device_id {
        Some(d) => d,
        None => return None,
    };
    let mut i: usize = 0;
    while i < devs.len()
        invariant
            i <= devs@.len(),
            forall|j: int| 0 <= j < i ==> devs@[j].id@ != d@,
            entry == Some(e),
            e.area_id is None,
            e.device_id == Some(*d),
        decreases devs.len() - i,
    {
        if str_eq(devs[i].id.as_str(), d.as_str()) {
            proof {
                assert(is_first_device(devs@, d@, i as int));
                assert forall|j: int| is_first_device(devs@, d@, j) implies j == i by {
                    if j > i {
                        assert(devs@[i as int].id@ == d@);
                    }
                }
                assert(first_device(devs@, d@) == Some(devs@[i as int]));
            }
            let r = match &devs[i].area_id {
                Some(a) => Some(a.clone()),
                None => None,
            };
            assert(opt_view(r) == opt_view(devs@[i as int].area_id));
            assert(e.area_id is None);
            assert(e.device_id == Some(*d));
            return r;
        }
        i += 1;
    }
    None
}

/// The lights to import into the Hue model, in state order.
///
/// `wled_primary` maps each WLED device to the light that stands for it
/// (see `compute_primary_wled_entity_by_device`).
pub fn plan_light_imports(
    states: &[HaState],
    entity_registry: &[HaEntityRegistryEntry],
    device_registry: &[HaDeviceRegistryEntry],
    wled_primary: &StrMap<String>,
) -> (r: Vec<LightImport>)
    requires
        wled_primary.wf(),
    ensures
        r@.map_values(|x: LightImport| x@) == planned_imports(
            states@,
            entity_registry@,
            device_registry@,
            wled_primary@,
            states@.len() as int,
        ),
{
    let ghost st = states@;
    let ghost reg = entity_registry@;
    let ghost devs = device_registry@;
    let ghost primary = wled_primary@;
    let mut r: Vec<LightImport> = Vec::new();
    let mut i: usize = 0;
    while i < states.len()
        invariant
            i <= st.len(),
            st == states@,
            reg == entity_registry@,
            devs == device_registry@,
            primary == wled_primary@,
            wled_primary.wf(),
            r@.map_values(|x: LightImport| x@) == planned_imports(st, reg, devs, primary, i as int),
        decreases st.len() - i,
    {
        let ghost before = r@.map_values(|x: LightImport| x@);
        let s = &states[i];
        let planned = plan_one_light(s, entity_registry, device_registry, wled_primary);
        match planned {
            Some(x) => {
                let ghost xv = x@;
                r.push(x);
                assert(r@.map_values(|x: LightImport| x@) =~= before.push(xv));
            },
            None => {},
        }
        i += 1;
    }
    r
}

/// The import of one state, as `spec_light_import` gives it.
pub(crate) fn plan_one_light(
    s: &HaState,
    entity_registry: &[HaEntityRegistryEntry],
    device_registry: &[HaDeviceRegistryEntry],
    wled_primary: &StrMap<String>,
) -> (r: Option<LightImport>)
    requires
        wled_primary.wf(),
    ensures
        match r {
            Some(x) => spec_light_import(*s, entity_registry@, device_registry@, wled_primary@)
                == Some(x@),
            None => spec_light_import(*s, entity_registry@, device_registry@, wled_primary@) is None,
        },
{
    if !str_starts_with(s.entity_id.as_str(), "light.") {
        return None;
    }
    if parse_segment_index(s.entity_id.as_str()).is_some() {
        return None;
    }
    let is_on = match on_off(s.state.as_str()) {
        Some(b) => b,
        None => return None,
    };
    let entry: Option<&HaEntityRegistryEntry> = match find_first_entry(entity_registry, s.entity_id.as_str()) {
        Some(k) => Some(&entity_registry[k]),
        None => None,
    };
    let ghost entry_v = match entry {
        Some(e) => Some(*e),
        None => None,
    };
    assert(entry_v == first_entry(entity_registry@, s.entity_id@));
    if let Some(e) = entry {
        if let Some(d) = &e.device_id {
            if let Some(p) = wled_primary.get(d.as_str()) {
                if !str_eq(p.as_str(), s.entity_id.as_str()) {
                    return None;
                }
            }
        }
    }
    let profile = classify_light_profile(s, entry);
    let friendly_name = match &s.attributes.friendly_name {
        Some(f) => f.clone(),
        None => s.entity_id.clone(),
    };
    let model_id = match &s.attributes.model {
        Some(m) => m.clone(),
        None => String::from_str("HA-LIGHT"),
    };
    let manufacturer_name = match &s.attributes.manufacturer {
        Some(m) => m.clone(),
        None => String::from_str("Home Assistant"),
    };
    let area_id = light_area(entry, device_registry);
    Some(
        LightImport {
            entity_id: s.entity_id.clone(),
            is_on,
            friendly_name,
            model_id,
            manufacturer_name,
            profile,
            area_id,
        },
    )
}

/// Counts the `light.` states that are `on` or `off`.
pub open spec fn count_onoff_lights_spec(states: Seq<HaState>, n: int) -> nat
    decreases n,
{
    if n <= 0 {
        0
    } else {
        count_onoff_lights_spec(states, n - 1) + if has_prefix(states[n - 1].entity_id@, "light."@)
            && spec_on_off(states[n - 1].state@) is Some {
            1nat
        } else {
            0nat
        }
    }
}

/// The number of `light.` states that are `on` or `off`.
pub fn count_onoff_lights(states: &[HaState]) -> (n: usize)
    ensures
        n == count_onoff_lights_spec(states@, states@.len() as int),
{
    let mut n: usize = 0;
    let mut i: usize = 0;
    while i < states.len()
        invariant
            i <= states@.len(),
            n == count_onoff_lights_spec(states@, i as int),
            n <= i,
        decreases states.len() - i,
    {
        if str_starts_with(states[i].entity_id.as_str(), "light.") && on_off(states[i].state.as_str()).is_some() {
            n += 1;
        }
        i += 1;
    }
    n
}

/// A light whose Hue topic names a segment entity (such lights are removed).
pub open spec fn spec_is_segment_light_topic(topic: Seq<char>) -> bool {
    has_prefix(topic, "light."@) && spec_parse_segment_index(topic) is Some
}

/// Whether a Hue light imported for `topic` stands for a WLED segment.
pub fn is_segment_light_topic(topic: &str) -> (r: bool)
    ensures
        r == spec_is_segment_light_topic(topic@),
{
    str_starts_with(topic, "light.") && parse_segment_index(topic).is_some()
}

/// A light whose topic is a WLED light other than the one standing for its
/// device (such lights are removed); the registry is read into a map keyed
/// by entity id.
pub open spec fn spec_is_non_primary_wled_topic(
    topic: Seq<char>,
    reg: Seq<HaEntityRegistryEntry>,
    primary: Map<Seq<char>, String>,
) -> bool {
    match last_entry(reg, topic) {
        Some(e) => match e.device_id {
            Some(d) => primary.dom().contains(d@) && primary[d@]@ != topic,
            None => false,
        },
        None => false,
    }
}

/// Whether a Hue light imported for `topic` is a WLED light that another
/// light of its device stands for.
pub fn is_non_primary_wled_topic(
    topic: &str,
    entity_registry: &[HaEntityRegistryEntry],
    wled_primary: &StrMap<String>,
) -> (r: bool)
    requires
        wled_primary.wf(),
    ensures
        r == spec_is_non_primary_wled_topic(topic@, entity_registry@, wled_primary@),
{
    let k = match find_last_entry(entity_registry, topic) {
        Some(k) => k,
        None => return false,
    };
    let d = match &entity_registry[k].device_id {
        Some(d) => d,
        None => return false,
    };
    match wled_primary.get(d.as_str()) {
        Some(p) => !str_eq(topic, p.as_str()),
        None => false,
    }
}

/// A Hue light imported for `topic` is removed at start-up: it stands for
/// a WLED segment, or for a WLED light that another light of its device
/// stands for.
pub open spec fn spec_is_stale_light_topic(
    topic: Option<Seq<char>>,
    reg: Seq<HaEntityRegistryEntry>,
    primary: Map<Seq<char>, String>,
) -> bool {
    match topic {
        Some(t) => spec_is_segment_light_topic(t) || spec_is_non_primary_wled_topic(t, reg, primary),
        None => false,
    }
}

/// The positions, in increasing order, of the Hue lights to remove at
/// start-up, given the Home Assistant topic each light was imported for.
pub fn stale_light_positions(
    topics: &[Option<String>],
    entity_registry: &[HaEntityRegistryEntry],
    wled_primary: &StrMap<String>,
) -> (r: Vec<usize>)
    requires
        wled_primary.wf(),
    ensures
        forall|a: int, b: int| 0 <= a < b < r@.len() ==> r@[a] < r@[b],
        forall|k: int| 0 <= k < r@.len() ==> r@[k] < topics@.len(),
        forall|i: int|
            0 <= i < topics@.len() ==> (r@.contains(i as usize) <==> spec_is_stale_light_topic(
                opt_view(topics@[i]),
                entity_registry@,
                wled_primary@,
            )),
{
    let mut r: Vec<usize> = Vec::new();
    let mut i: usize = 0;
    while i < topics.len()
        invariant
            i <= topics@.len(),
            wled_primary.wf(),
            forall|a: int, b: int| 0 <= a < b < r@.len() ==> r@[a] < r@[b],
            forall|k: int| 0 <= k < r@.len() ==> r@[k] < i,
            forall|j: int|
                0 <= j < i ==> (r@.contains(j as usize) <==> spec_is_stale_light_topic(
                    opt_view(topics@[j]),
                    entity_registry@,
                    wled_primary@,
                )),
        decreases topics@.len() - i,
    {
        let stale = match &topics[i] {
            Some(t) => is_segment_light_topic(t.as_str()) || is_non_primary_wled_topic(
                t.as_str(),
                entity_registry,
                wled_primary,
            ),
            None => false,
        };
        let ghost before = r@;
        if stale {
            r.push(i);
            assert(r@[before.len() as int] == i);
        }
        proof {
            assert forall|j: int|
                0 <= j < i + 1 implies (r@.contains(j as usize) <==> spec_is_stale_light_topic(
                    opt_view(topics@[j]),
                    entity_registry@,
                    wled_primary@,
                )) by {
                if j < i {
                    if r@.contains(j as usize) {
                        let k = choose|k: int| 0 <= k < r@.len() && r@[k] == j as usize;
                        if k == before.len() {
                            assert(r@[k] == i);
                        } else {
                            assert(before[k] == j as usize);
                            assert(before.contains(j as usize));
                        }
                    }
                    if before.contains(j as usize) {
                        let k = choose|k: int| 0 <= k < before.len() && before[k] == j as usize;
                        assert(r@[k] == j as usize);
                    }
                } else {
                    if r@.contains(j as usize) && !stale {
                        let k = choose|k: int| 0 <= k < r@.len() && r@[k] == j as usize;
                        assert(before[k] < i);
                    }
                    if stale {
                        assert(r@[before.len() as int] == j as usize);
                    }
                }
            }
        }
        i += 1;
    }
    r
}

/// What importing an area does to the Hue room made for it.
#[derive(Clone, Copy, Debug, PartialEq, Eq, Structural)]
pub enum AreaAction {
    /// No room exists yet: create it with its grouped light and list it
    /// under the bridge home.
    Create,
    /// The room exists under another name: rename it.
    Rename,
    /// The room exists with the same name.
    Keep,
}

pub open spec fn spec_area_action(existing_name: Option<Seq<char>>, area: HaArea) -> AreaAction {
    match existing_name {
        None => AreaAction::Create,
        Some(n) => if n != area.name@ {
            AreaAction::Rename
        } else {
            AreaAction::Keep
        },
    }
}

/// What to do for `area`, given the name of its room if the room exists.
pub fn area_action(existing_name: Option<&str>, area: &HaArea) -> (r: AreaAction)
    ensures
        r == spec_area_action(
            match existing_name {
                Some(n) => Some(n@),
                None => None,
            },
            *area,
        ),
{
    match existing_name {
        None => AreaAction::Create,
        Some(n) => if !str_eq(n, area.name.as_str()) {
            AreaAction::Rename
        } else {
            AreaAction::Keep
        },
    }
}

} // verus!
