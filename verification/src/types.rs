use vstd::prelude::*;
use crate::text::{
    ascii_lower, contains_seq, str_contains_ignore_ascii_case, str_eq, str_eq_ignore_ascii_case,
    strings_view,
};

verus! {

/// Smallest colour temperature (in mirek) a light advertises.
pub const MIREK_MINIMUM: u32 = 153;

/// Largest colour temperature (in mirek) a light advertises.
pub const MIREK_MAXIMUM: u32 = 500;

/// A Home Assistant area (`config/area_registry/list`).
pub struct HaArea {
    pub area_id: String,
    pub name: String,
}

/// A row of the Home Assistant entity registry.
pub struct HaEntityRegistryEntry {
    pub entity_id: String,
    pub area_id: Option<String>,
    pub device_id: Option<String>,
    pub platform: Option<String>,
}

/// A row of the Home Assistant device registry.
pub struct HaDeviceRegistryEntry {
    pub id: String,
    pub area_id: Option<String>,
}

/// The current state of one Home Assistant entity.
pub struct HaState {
    pub entity_id: String,
    pub state: String,
    pub attributes: HaStateAttributes,
}

/// The attributes of a Home Assistant light state that the bridge reads.
///
/// The hue/saturation and CIE xy colours are carried by the caller; the
/// library only reads whether they were reported.
pub struct HaStateAttributes {
    pub friendly_name: Option<String>,
    pub manufacturer: Option<String>,
    pub model: Option<String>,
    pub brightness: Option<u16>,
    pub color_mode: Option<String>,
    pub supported_color_modes: Option<Vec<String>>,
    pub supported_features: Option<u64>,
    pub min_color_temp_kelvin: Option<u32>,
    pub max_color_temp_kelvin: Option<u32>,
    pub color_temp_kelvin: Option<u32>,
    pub color_temp: Option<u16>,
    pub has_hs_color: bool,
    pub rgb_color: Option<[u8; 3]>,
    pub has_xy_color: bool,
}

/// Some element of `modes` equals `m`.
pub open spec fn mode_listed(modes: Seq<Seq<char>>, m: Seq<char>) -> bool {
    exists|i: int| 0 <= i < modes.len() && modes[i] == m
}

/// A Home Assistant colour mode that carries a colour.
pub open spec fn is_color_mode(m: Seq<char>) -> bool {
    m == "xy"@ || m == "hs"@ || m == "rgb"@ || m == "rgbw"@ || m == "rgbww"@
}

/// Clamps `v` into `[lo, hi]` (with `lo <= hi`).
pub open spec fn clamp(v: int, lo: int, hi: int) -> int {
    if v < lo {
        lo
    } else if v > hi {
        hi
    } else {
        v
    }
}

impl HaStateAttributes {
    /// The supported colour modes, as character sequences.
    pub open spec fn modes(&self) -> Option<Seq<Seq<char>>> {
        match self.supported_color_modes {
            Some(v) => Some(strings_view(v@)),
            None => None,
        }
    }

    /// Only the single mode `onoff` is reported.
    pub open spec fn spec_is_onoff_only(&self) -> bool {
        match self.modes() {
            Some(m) => m.len() == 1 && m[0] == "onoff"@,
            None => false,
        }
    }

    pub open spec fn spec_supports_color_temperature(&self) -> bool {
        ||| (match self.modes() {
            Some(m) => mode_listed(m, "color_temp"@),
            None => false,
        })
        ||| self.min_color_temp_kelvin is Some
        ||| self.max_color_temp_kelvin is Some
        ||| (match self.supported_features {
            Some(f) => f & 2 != 0,
            None => false,
        })
    }

    pub open spec fn spec_supports_color(&self) -> bool {
        ||| (match self.modes() {
            Some(m) => exists|i: int| 0 <= i < m.len() && is_color_mode(m[i]),
            None => false,
        })
        ||| self.has_hs_color
        ||| self.rgb_color is Some
        ||| self.has_xy_color
        ||| (match self.supported_features {
            Some(f) => f & 16 != 0,
            None => false,
        })
    }

    pub open spec fn spec_supports_dimming(&self) -> bool {
        ||| self.brightness is Some
        ||| (match self.color_mode {
            Some(c) => c@ != "onoff"@,
            None => false,
        })
        ||| (match self.supported_features {
            Some(f) => f & 1 != 0,
            None => false,
        })
        ||| (match self.modes() {
            Some(m) => exists|i: int| 0 <= i < m.len() && m[i] != "onoff"@,
            None => false,
        })
    }

    pub open spec fn spec_is_wled_like(&self, entity_id: Seq<char>, platform: Option<Seq<char>>) -> bool {
        ||| (match platform {
            Some(p) => ascii_lower(p) == "wled"@,
            None => false,
        })
        ||| contains_seq(ascii_lower(entity_id), "wled"@)
        ||| (match self.model {
            Some(m) => contains_seq(ascii_lower(m@), "wled"@),
            None => false,
        })
        ||| (match self.manufacturer {
            Some(m) => contains_seq(ascii_lower(m@), "wled"@) || contains_seq(
                ascii_lower(m@),
                "aircookie"@,
            ),
            None => false,
        })
    }

    /// The colour temperature in mirek: from the Kelvin attribute when it is
    /// reported and non-zero, else from the mirek attribute, clamped into the
    /// advertised mirek range either way.
    pub open spec fn spec_current_mirek(&self) -> Option<u16> {
        match self.color_temp_kelvin {
            Some(k) if k != 0 => Some(
                clamp(1_000_000int / (k as int), MIREK_MINIMUM as int, MIREK_MAXIMUM as int) as u16,
            ),
            _ => match self.color_temp {
                Some(m) => Some(clamp(m as int, MIREK_MINIMUM as int, MIREK_MAXIMUM as int) as u16),
                None => None,
            },
        }
    }

    /// Home Assistant reports exactly one supported colour mode, `onoff`.
    pub fn is_onoff_only(&self) -> (r: bool)
        ensures
            r == self.spec_is_onoff_only(),
    {
        match &self.supported_color_modes {
            Some(modes) => modes.len() == 1 && str_eq(modes[0].as_str(), "onoff"),
            None => false,
        }
    }

    /// The light can change its colour temperature.
    pub fn supports_color_temperature(&self) -> (r: bool)
        ensures
            r == self.spec_supports_color_temperature(),
    {
        let listed = match &self.supported_color_modes {
            Some(modes) => any_mode_equals(modes, "color_temp"),
            None => false,
        };
        listed || self.min_color_temp_kelvin.is_some() || self.max_color_temp_kelvin.is_some()
            || match self.supported_features {
            Some(f) => f & 2 != 0,
            None => false,
        }
    }

    /// The light can show a colour.
    pub fn supports_color(&self) -> (r: bool)
        ensures
            r == self.spec_supports_color(),
    {
        let listed = match &self.supported_color_modes {
            Some(modes) => any_color_mode(modes),
            None => false,
        };
        listed || self.has_hs_color || self.rgb_color.is_some() || self.has_xy_color
            || match self.supported_features {
            Some(f) => f & 16 != 0,
            None => false,
        }
    }

    /// The light can be dimmed.
    pub fn supports_dimming(&self) -> (r: bool)
        ensures
            r == self.spec_supports_dimming(),
    {
        if self.brightness.is_some() {
            return true;
        }
        let mode_dims = match &self.color_mode {
            Some(c) => !str_eq(c.as_str(), "onoff"),
            None => false,
        };
        if mode_dims {
            return true;
        }
        let feature_dims = match self.supported_features {
            Some(f) => f & 1 != 0,
            None => false,
        };
        if feature_dims {
            return true;
        }
        let r = match &self.supported_color_modes {
            Some(modes) => any_mode_differs(modes, "onoff"),
            None => false,
        };
        assert(self.brightness is None);
        assert(!(match self.color_mode {
            Some(c) => c@ != "onoff"@,
            None => false,
        }));
        assert(!(match self.supported_features {
            Some(f) => f & 1 != 0,
            None => false,
        }));
        assert(r == (match self.modes() {
            Some(m) => exists|i: int| 0 <= i < m.len() && m[i] != "onoff"@,
            None => false,
        }));
        r
    }

    /// The light looks like a WLED strip: by its integration platform, its
    /// entity id, its model or its manufacturer.
    pub fn is_wled_like(&self, entity_id: &str, platform: Option<&str>) -> (r: bool)
        ensures
            r == self.spec_is_wled_like(
                entity_id@,
                match platform {
                    Some(p) => Some(p@),
                    None => None,
                },
            ),
    {
        let platform_is_wled = match platform {
            Some(p) => str_eq_ignore_ascii_case(p, "wled"),
            None => false,
        };
        let id_wled_like = str_contains_ignore_ascii_case(entity_id, "wled");
        let model_wled_like = match &self.model {
            Some(m) => str_contains_ignore_ascii_case(m.as_str(), "wled"),
            None => false,
        };
        let manufacturer_wled_like = match &self.manufacturer {
            Some(m) => str_contains_ignore_ascii_case(m.as_str(), "wled")
                || str_contains_ignore_ascii_case(m.as_str(), "aircookie"),
            None => false,
        };
        platform_is_wled || id_wled_like || model_wled_like || manufacturer_wled_like
    }

    /// The current colour temperature in mirek, when the light reports one.
    pub fn current_mirek(&self) -> (r: Option<u16>)
        ensures
            r == self.spec_current_mirek(),
    {
        if let Some(k) = self.color_temp_kelvin {
            if k != 0 {
                let m = clamp_u32(1_000_000u32 / k, MIREK_MINIMUM, MIREK_MAXIMUM);
                return Some(m as u16);
            }
        }
        match self.color_temp {
            Some(m) => Some(clamp_u32(m as u32, MIREK_MINIMUM, MIREK_MAXIMUM) as u16),
            None => None,
        }
    }
}

/// A light that lists a colour mode (`xy`, `hs`, `rgb`, `rgbw` or `rgbww`)
/// among its supported colour modes supports colour.
pub proof fn lemma_listed_color_mode_means_color(attrs: HaStateAttributes, v: Vec<String>, i: int)
    requires
        attrs.supported_color_modes == Some(v),
        0 <= i < v@.len(),
        v@[i]@ == "xy"@ || v@[i]@ == "hs"@ || v@[i]@ == "rgb"@ || v@[i]@ == "rgbw"@ || v@[i]@
            == "rgbww"@,
    ensures
        attrs.spec_supports_color(),
{
    let m = strings_view(v@);
    assert(m[i] == v@[i]@);
    assert(attrs.modes() == Some(m));
    assert(is_color_mode(m[i]));
    let mm = attrs.modes()->0;
    assert(attrs.modes() is Some);
    assert(mm == m);
    assert(0 <= i < mm.len() && is_color_mode(mm[i]));
}

/// A light supports colour only on some evidence: a colour mode (`xy`, `hs`,
/// `rgb`, `rgbw` or `rgbww`) listed, a reported hue/saturation, RGB or xy
/// colour, or the colour feature bit (16).
pub proof fn lemma_color_needs_evidence(attrs: HaStateAttributes)
    requires
        attrs.supported_color_modes matches Some(v) ==> forall|i: int|
            0 <= i < v@.len() ==> {
                let m = #[trigger] v@[i]@;
                &&& m != "xy"@
                &&& m != "hs"@
                &&& m != "rgb"@
                &&& m != "rgbw"@
                &&& m != "rgbww"@
            },
        !attrs.has_hs_color,
        attrs.rgb_color is None,
        !attrs.has_xy_color,
        attrs.supported_features matches Some(f) ==> f & 16 == 0,
    ensures
        !attrs.spec_supports_color(),
{
    if let Some(v) = attrs.supported_color_modes {
        let m = strings_view(v@);
        assert forall|i: int| 0 <= i < m.len() implies !is_color_mode(m[i]) by {
            assert(m[i] == v@[i]@);
        }
    }
}

/// A light is dimmable exactly when it reports a brightness, a colour mode
/// other than `onoff`, the brightness feature bit (1), or lists a supported
/// colour mode other than `onoff`.
pub proof fn lemma_dimming_evidence(attrs: HaStateAttributes)
    ensures
        attrs.spec_supports_dimming() == (attrs.brightness is Some || (attrs.color_mode is Some
            && attrs.color_mode->0@ != "onoff"@) || (attrs.supported_features is Some
            && attrs.supported_features->0 & 1 != 0) || (attrs.supported_color_modes is Some
            && exists|i: int|
            0 <= i < attrs.supported_color_modes->0@.len()
                && #[trigger] attrs.supported_color_modes->0@[i]@ != "onoff"@)),
{
    if let Some(v) = attrs.supported_color_modes {
        let m = strings_view(v@);
        assert(attrs.modes() == Some(m));
        let mm = attrs.modes()->0;
        assert(mm == m);
        if exists|i: int| 0 <= i < v@.len() && #[trigger] v@[i]@ != "onoff"@ {
            let i = choose|i: int| 0 <= i < v@.len() && #[trigger] v@[i]@ != "onoff"@;
            assert(mm[i] == v@[i]@);
            assert(0 <= i < mm.len() && mm[i] != "onoff"@);
        }
        if exists|i: int| 0 <= i < mm.len() && mm[i] != "onoff"@ {
            let i = choose|i: int| 0 <= i < mm.len() && mm[i] != "onoff"@;
            assert(mm[i] == v@[i]@);
            assert(0 <= i < v@.len() && v@[i]@ != "onoff"@);
        }
    }
}

/// A light can change its colour temperature exactly when it lists the
/// `color_temp` mode, reports a minimum or maximum Kelvin value, or has the
/// colour-temperature feature bit (2).
pub proof fn lemma_color_temperature_evidence(attrs: HaStateAttributes)
    ensures
        attrs.spec_supports_color_temperature() == ((attrs.supported_color_modes is Some
            && exists|i: int|
            0 <= i < attrs.supported_color_modes->0@.len()
                && #[trigger] attrs.supported_color_modes->0@[i]@ == "color_temp"@)
            || attrs.min_color_temp_kelvin is Some || attrs.max_color_temp_kelvin is Some || (
        attrs.supported_features is Some && attrs.supported_features->0 & 2 != 0)),
{
    if let Some(v) = attrs.supported_color_modes {
        let m = strings_view(v@);
        assert(attrs.modes() == Some(m));
        if exists|i: int| 0 <= i < v@.len() && #[trigger] v@[i]@ == "color_temp"@ {
            let i = choose|i: int| 0 <= i < v@.len() && #[trigger] v@[i]@ == "color_temp"@;
            assert(m[i] == v@[i]@);
        }
        if mode_listed(m, "color_temp"@) {
            let i = choose|i: int| 0 <= i < m.len() && m[i] == "color_temp"@;
            assert(m[i] == v@[i]@);
        }
    }
}

/// A light reporting a hue/saturation, RGB or xy colour, or the colour
/// feature bit (16), supports colour.
pub proof fn lemma_reported_color_means_color(attrs: HaStateAttributes)
    ensures
        attrs.has_hs_color || attrs.rgb_color is Some || attrs.has_xy_color || (
        attrs.supported_features is Some && attrs.supported_features->0 & 16 != 0)
            ==> attrs.spec_supports_color(),
{
}

/// A light is on/off-only exactly when its supported colour modes are the
/// single mode `onoff`.
pub proof fn lemma_onoff_only_evidence(attrs: HaStateAttributes)
    ensures
        attrs.spec_is_onoff_only() == (attrs.supported_color_modes is Some
            && attrs.supported_color_modes->0@.len() == 1 && attrs.supported_color_modes->0@[0]@
            == "onoff"@),
{
    if let Some(v) = attrs.supported_color_modes {
        let m = strings_view(v@);
        assert(attrs.modes() == Some(m));
        if v@.len() == 1 {
            assert(m[0] == v@[0]@);
        }
    }
}

/// A light looks like a WLED strip when its platform is `wled` (in any
/// case), its entity id, model or manufacturer contains `wled` (in any
/// case), or its manufacturer contains `aircookie` (in any case); and only
/// then.
pub proof fn lemma_wled_like_evidence(
    attrs: HaStateAttributes,
    entity_id: Seq<char>,
    platform: Option<Seq<char>>,
)
    ensures
        attrs.spec_is_wled_like(entity_id, platform) == ((platform is Some && ascii_lower(
            platform->0,
        ) == "wled"@) || contains_seq(ascii_lower(entity_id), "wled"@) || (attrs.model is Some
            && contains_seq(ascii_lower(attrs.model->0@), "wled"@)) || (attrs.manufacturer is Some
            && (contains_seq(ascii_lower(attrs.manufacturer->0@), "wled"@) || contains_seq(
            ascii_lower(attrs.manufacturer->0@),
            "aircookie"@,
        )))),
{
}

/// The colour temperature a light reports, in mirek: `1_000_000 / kelvin`
/// when the Kelvin attribute is present and non-zero, else the mirek
/// attribute, kept within 153..=500 either way; none when neither is
/// reported.
pub proof fn lemma_current_mirek_from_attributes(attrs: HaStateAttributes)
    ensures
        attrs.spec_current_mirek() == mirek_reported(attrs.color_temp_kelvin, attrs.color_temp),
{
}

/// `v` kept within 153..=500.
pub open spec fn within_mirek_schema(v: int) -> u16 {
    (if v < 153 {
        153int
    } else if v > 500 {
        500int
    } else {
        v
    }) as u16
}

/// The mirek that a Kelvin and a mirek attribute report: `1_000_000 /
/// kelvin` for a present, non-zero Kelvin value, else the mirek value, kept
/// within 153..=500 either way.
pub open spec fn mirek_reported(kelvin: Option<u32>, mirek: Option<u16>) -> Option<u16> {
    if kelvin is Some && kelvin->0 != 0 {
        Some(within_mirek_schema(1_000_000int / (kelvin->0 as int)))
    } else if mirek is Some {
        Some(within_mirek_schema(mirek->0 as int))
    } else {
        None
    }
}

/// A reported colour temperature always lies within the advertised mirek
/// range.
pub proof fn lemma_current_mirek_in_range(attrs: HaStateAttributes)
    ensures
        attrs.spec_current_mirek() matches Some(m) ==> MIREK_MINIMUM <= m <= MIREK_MAXIMUM,
{
}

/// `v` clamped into `[lo, hi]`.
pub fn clamp_u32(v: u32, lo: u32, hi: u32) -> (r: u32)
    requires
        lo <= hi,
    ensures
        r == clamp(v as int, lo as int, hi as int),
{
    if v < lo {
        lo
    } else if v > hi {
        hi
    } else {
        v
    }
}

/// Some mode of the list equals `m`.
fn any_mode_equals(modes: &Vec<String>, m: &str) -> (r: bool)
    ensures
        r == mode_listed(strings_view(modes@), m@),
{
    let mut i: usize = 0;
    while i < modes.len()
        invariant
            i <= modes.len(),
            forall|j: int| 0 <= j < i ==> modes@[j]@ != m@,
        decreases modes.len() - i,
    {
        if str_eq(modes[i].as_str(), m) {
            assert(strings_view(modes@)[i as int] == m@);
            return true;
        }
        i += 1;
    }
    assert forall|j: int| 0 <= j < modes@.len() implies strings_view(modes@)[j] != m@ by {
        assert(strings_view(modes@)[j] == modes@[j]@);
    }
    false
}

/// Some mode of the list differs from `m`.
fn any_mode_differs(modes: &Vec<String>, m: &str) -> (r: bool)
    ensures
        r == exists|j: int| 0 <= j < strings_view(modes@).len() && strings_view(modes@)[j] != m@,
{
    let mut i: usize = 0;
    while i < modes.len()
        invariant
            i <= modes.len(),
            forall|j: int| 0 <= j < i ==> modes@[j]@ == m@,
        decreases modes.len() - i,
    {
        if !str_eq(modes[i].as_str(), m) {
            assert(strings_view(modes@)[i as int] != m@);
            return true;
        }
        i += 1;
    }
    assert forall|j: int| 0 <= j < modes@.len() implies strings_view(modes@)[j] == m@ by {
        assert(strings_view(modes@)[j] == modes@[j]@);
    }
    false
}

/// `m` names a colour-carrying mode.
fn is_color_mode_exec(m: &str) -> (r: bool)
    ensures
        r == is_color_mode(m@),
{
    str_eq(m, "xy") || str_eq(m, "hs") || str_eq(m, "rgb") || str_eq(m, "rgbw") || str_eq(
        m,
        "rgbww",
    )
}

/// Some mode of the list carries a colour.
fn any_color_mode(modes: &Vec<String>) -> (r: bool)
    ensures
        r == exists|j: int| 0 <= j < strings_view(modes@).len() && is_color_mode(strings_view(modes@)[j]),
{
    let mut i: usize = 0;
    while i < modes.len()
        invariant
            i <= modes.len(),
            forall|j: int| 0 <= j < i ==> !is_color_mode(#[trigger] modes@[j]@),
        decreases modes.len() - i,
    {
        if is_color_mode_exec(modes[i].as_str()) {
            assert(strings_view(modes@)[i as int] == modes@[i as int]@);
            return true;
        }
        i += 1;
    }
    assert forall|j: int| 0 <= j < modes@.len() implies !is_color_mode(strings_view(modes@)[j]) by {
        assert(strings_view(modes@)[j] == modes@[j]@);
    }
    false
}


/// `reg[i]` is the last registry row for entity `id`.
pub open spec fn is_last_entry(reg: Seq<HaEntityRegistryEntry>, id: Seq<char>, i: int) -> bool {
    &&& 0 <= i < reg.len()
    &&& reg[i].entity_id@ == id
    &&& forall|j: int| i < j < reg.len() ==> reg[j].entity_id@ != id
}

/// `reg[i]` is the first registry row for entity `id`.
pub open spec fn is_first_entry(reg: Seq<HaEntityRegistryEntry>, id: Seq<char>, i: int) -> bool {
    &&& 0 <= i < reg.len()
    &&& reg[i].entity_id@ == id
    &&& forall|j: int| 0 <= j < i ==> reg[j].entity_id@ != id
}

/// The registry row for `id` when the registry is read into a map keyed by
/// entity id (a later row replaces an earlier one).
pub open spec fn last_entry(reg: Seq<HaEntityRegistryEntry>, id: Seq<char>) -> Option<
    HaEntityRegistryEntry,
> {
    if exists|i: int| is_last_entry(reg, id, i) {
        Some(reg[choose|i: int| is_last_entry(reg, id, i)])
    } else {
        None
    }
}

/// The registry row for `id` when the registry is searched from the front.
pub open spec fn first_entry(reg: Seq<HaEntityRegistryEntry>, id: Seq<char>) -> Option<
    HaEntityRegistryEntry,
> {
    if exists|i: int| is_first_entry(reg, id, i) {
        Some(reg[choose|i: int| is_first_entry(reg, id, i)])
    } else {
        None
    }
}

/// No two registry rows are for the same entity.
pub open spec fn registry_ids_unique(reg: Seq<HaEntityRegistryEntry>) -> bool {
    forall|i: int, j: int|
        0 <= i < j < reg.len() ==> #[trigger] reg[i].entity_id@ != #[trigger] reg[j].entity_id@
}

/// With one row per entity, searching the registry from the front and
/// reading it into a map keyed by entity id find the same row.
pub proof fn lemma_first_entry_is_last_entry(reg: Seq<HaEntityRegistryEntry>, id: Seq<char>)
    requires
        registry_ids_unique(reg),
    ensures
        first_entry(reg, id) == last_entry(reg, id),
{
    if exists|i: int| is_first_entry(reg, id, i) {
        let i = choose|i: int| is_first_entry(reg, id, i);
        assert(is_last_entry(reg, id, i)) by {
            assert forall|j: int| i < j < reg.len() implies reg[j].entity_id@ != id by {
                assert(reg[i].entity_id@ != reg[j].entity_id@);
            }
        }
        let k = choose|k: int| is_last_entry(reg, id, k);
        if k != i {
            if k < i {
                assert(reg[k].entity_id@ != reg[i].entity_id@);
            } else {
                assert(reg[i].entity_id@ != reg[k].entity_id@);
            }
        }
    } else {
        if exists|k: int| is_last_entry(reg, id, k) {
            let k = choose|k: int| is_last_entry(reg, id, k);
            assert forall|j: int| 0 <= j < k implies reg[j].entity_id@ != id by {
                assert(reg[j].entity_id@ != reg[k].entity_id@);
            }
            assert(is_first_entry(reg, id, k));
        }
    }
}

/// The position of the row that `last_entry` gives.
pub fn find_last_entry(reg: &[HaEntityRegistryEntry], id: &str) -> (r: Option<usize>)
    ensures
        r matches Some(i) ==> i < reg@.len() && is_last_entry(reg@, id@, i as int) && last_entry(
            reg@,
            id@,
        ) == Some(reg@[i as int]),
        r is None ==> last_entry(reg@, id@) is None,
{
    let mut k: usize = reg.len();
    while k > 0
        invariant
            k <= reg@.len(),
            forall|j: int| k <= j < reg@.len() ==> reg@[j].entity_id@ != id@,
        decreases k,
    {
        if str_eq(reg[k - 1].entity_id.as_str(), id) {
            let i = k - 1;
            proof {
                assert(is_last_entry(reg@, id@, i as int));
                assert forall|j: int| is_last_entry(reg@, id@, j) implies j == i by {
                    if j < i {
                        assert(reg@[i as int].entity_id@ == id@);
                    }
                }
            }
            return Some(i);
        }
        k -= 1;
    }
    None
}

/// The position of the row that `first_entry` gives.
pub fn find_first_entry(reg: &[HaEntityRegistryEntry], id: &str) -> (r: Option<usize>)
    ensures
        r matches Some(i) ==> i < reg@.len() && first_entry(reg@, id@) == Some(reg@[i as int]),
        r is None ==> first_entry(reg@, id@) is None,
{
    let mut i: usize = 0;
    while i < reg.len()
        invariant
            i <= reg@.len(),
            forall|j: int| 0 <= j < i ==> reg@[j].entity_id@ != id@,
        decreases reg.len() - i,
    {
        if str_eq(reg[i].entity_id.as_str(), id) {
            proof {
                assert(is_first_entry(reg@, id@, i as int));
                assert forall|j: int| is_first_entry(reg@, id@, j) implies j == i by {
                    if j > i {
                        assert(reg@[i as int].entity_id@ == id@);
                    }
                }
            }
            return Some(i);
        }
        i += 1;
    }
    None
}

} // verus!
