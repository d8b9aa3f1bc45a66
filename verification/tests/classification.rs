use bifrost_ha::adapter::BackendCapabilities;
use bifrost_ha::import::{
    apply_capability_profile, area_action, classify_light_profile, count_onoff_lights,
    default_gradient, is_non_primary_wled_topic, is_segment_light_topic, GradientCapability, on_off, stale_light_positions, AreaAction, ColorSource,
    DimmingLevel, LightArchetype, LightCapabilities, LightProfile,
};
use bifrost_ha::runtime::GradientMode;
use bifrost_ha::strmap::StrMap;
use bifrost_ha::types::{HaArea, HaEntityRegistryEntry, HaState, HaStateAttributes};

fn attrs() -> HaStateAttributes {
    HaStateAttributes {
        friendly_name: None,
        manufacturer: None,
        model: None,
        brightness: None,
        color_mode: None,
        supported_color_modes: None,
        supported_features: None,
        min_color_temp_kelvin: None,
        max_color_temp_kelvin: None,
        color_temp_kelvin: None,
        color_temp: None,
        has_hs_color: false,
        rgb_color: None,
        has_xy_color: false,
    }
}

fn modes(m: &[&str]) -> Option<Vec<String>> {
    Some(m.iter().map(|s| s.to_string()).collect())
}

fn state(entity_id: &str, st: &str, attributes: HaStateAttributes) -> HaState {
    HaState { entity_id: entity_id.to_string(), state: st.to_string(), attributes }
}

fn entry(entity_id: &str, device: Option<&str>, platform: Option<&str>) -> HaEntityRegistryEntry {
    HaEntityRegistryEntry {
        entity_id: entity_id.to_string(),
        area_id: None,
        device_id: device.map(|d| d.to_string()),
        platform: platform.map(|p| p.to_string()),
    }
}

#[test]
fn backend_capabilities_default_is_all_off() {
    let c = BackendCapabilities::default();
    assert!(!c.entertainment_streaming && !c.scene_management);
    assert!(!c.room_membership_management && !c.pairing);
    let d = BackendCapabilities { pairing: true, ..c };
    assert_ne!(c, d);
}

#[test]
fn onoff_only_needs_exactly_one_onoff_mode() {
    let mut a = attrs();
    assert!(!a.is_onoff_only());
    a.supported_color_modes = modes(&["onoff"]);
    assert!(a.is_onoff_only());
    a.supported_color_modes = modes(&["onoff", "brightness"]);
    assert!(!a.is_onoff_only());
    a.supported_color_modes = modes(&["brightness"]);
    assert!(!a.is_onoff_only());
}

#[test]
fn color_temperature_support_sources() {
    let mut a = attrs();
    assert!(!a.supports_color_temperature());
    a.supported_color_modes = modes(&["xy", "color_temp"]);
    assert!(a.supports_color_temperature());
    let mut b = attrs();
    b.max_color_temp_kelvin = Some(6500);
    assert!(b.supports_color_temperature());
    let mut c = attrs();
    c.supported_features = Some(2);
    assert!(c.supports_color_temperature());
    c.supported_features = Some(1);
    assert!(!c.supports_color_temperature());
}

#[test]
fn color_support_sources() {
    let mut a = attrs();
    assert!(!a.supports_color());
    a.supported_color_modes = modes(&["rgbww"]);
    assert!(a.supports_color());
    let mut b = attrs();
    b.has_hs_color = true;
    assert!(b.supports_color());
    let mut c = attrs();
    c.rgb_color = Some([1, 2, 3]);
    assert!(c.supports_color());
    let mut d = attrs();
    d.supported_features = Some(16);
    assert!(d.supports_color());
    d.supported_features = Some(8);
    assert!(!d.supports_color());
}

#[test]
fn dimming_support_sources() {
    let mut a = attrs();
    assert!(!a.supports_dimming());
    a.supported_color_modes = modes(&["onoff"]);
    assert!(!a.supports_dimming());
    a.supported_color_modes = modes(&["onoff", "brightness"]);
    assert!(a.supports_dimming());
    let mut b = attrs();
    b.color_mode = Some("onoff".to_string());
    assert!(!b.supports_dimming());
    b.color_mode = Some("hs".to_string());
    assert!(b.supports_dimming());
    let mut c = attrs();
    c.brightness = Some(0);
    assert!(c.supports_dimming());
    let mut d = attrs();
    d.supported_features = Some(1);
    assert!(d.supports_dimming());
}

#[test]
fn wled_detection() {
    let a = attrs();
    assert!(a.is_wled_like("light.kitchen", Some("WLED")));
    assert!(a.is_wled_like("light.My_WLED_Strip", None));
    assert!(!a.is_wled_like("light.kitchen", Some("hue")));
    let mut b = attrs();
    b.manufacturer = Some("Aircookie".to_string());
    assert!(b.is_wled_like("light.x", None));
    let mut c = attrs();
    c.model = Some("FOSS wled".to_string());
    assert!(c.is_wled_like("light.x", None));
    assert!(!attrs().is_wled_like("light.wle_d", Some("wledx")));
}

#[test]
fn mirek_from_kelvin_or_mirek_clamped() {
    let mut a = attrs();
    assert_eq!(a.current_mirek(), None);
    a.color_temp_kelvin = Some(2700);
    assert_eq!(a.current_mirek(), Some(370));
    a.color_temp_kelvin = Some(10000);
    assert_eq!(a.current_mirek(), Some(153));
    a.color_temp_kelvin = Some(1000);
    assert_eq!(a.current_mirek(), Some(500));
    a.color_temp_kelvin = Some(0);
    assert_eq!(a.current_mirek(), None);
    a.color_temp = Some(600);
    assert_eq!(a.current_mirek(), Some(500));
    a.color_temp = Some(250);
    assert_eq!(a.current_mirek(), Some(250));
    a.color_temp_kelvin = Some(4000);
    assert_eq!(a.current_mirek(), Some(250));
}

#[test]
fn classify_wled_as_gradient_strip() {
    let mut a = attrs();
    a.supported_color_modes = modes(&["onoff"]);
    let st = state("light.wled", "on", a);
    let p = classify_light_profile(&st, None);
    assert_eq!(p.archetype, LightArchetype::HueLightstrip);
    assert!(p.supports_gradient && p.supports_color && p.supports_dimming && !p.onoff_only);
    assert!(!p.supports_color_temperature);
}

#[test]
fn classify_plain_lights() {
    let mut a = attrs();
    a.supported_color_modes = modes(&["xy"]);
    let st = state("light.desk", "on", a);
    let e = entry("light.desk", Some("dev"), Some("hue"));
    let p = classify_light_profile(&st, Some(&e));
    assert_eq!(p.archetype, LightArchetype::ClassicBulb);
    assert!(p.supports_color && p.supports_dimming && !p.supports_gradient);
    let mut b = attrs();
    b.supported_color_modes = modes(&["onoff"]);
    let st2 = state("light.plug", "off", b);
    let q = classify_light_profile(&st2, None);
    assert_eq!(q.archetype, LightArchetype::UnknownArchetype);
    assert!(q.onoff_only && !q.supports_dimming && !q.supports_color);
    // the registry platform makes a light WLED-like
    let st3 = state("light.desk", "on", attrs());
    let e3 = entry("light.desk", None, Some("wled"));
    assert_eq!(classify_light_profile(&st3, Some(&e3)).archetype, LightArchetype::HueLightstrip);
}

fn caps() -> LightCapabilities {
    LightCapabilities {
        archetype: LightArchetype::UnknownArchetype,
        dimming: Some(DimmingLevel::Full),
        has_dimming_delta: true,
        color_temperature: Some(Some(200)),
        has_color_temperature_delta: true,
        color: Some(ColorSource::Reported),
        gradient: Some(GradientCapability {
            mode: GradientMode::RandomPixelated,
            offers_interpolated_palette: false,
            offers_interpolated_palette_mirrored: false,
            offers_random_pixelated: true,
            points_capable: 5,
            point_count: 4,
            pixel_count: 30,
        }),
    }
}

#[test]
fn onoff_profile_clears_capabilities() {
    let profile = LightProfile {
        archetype: LightArchetype::ClassicBulb,
        onoff_only: true,
        supports_dimming: true,
        supports_color_temperature: true,
        supports_color: true,
        supports_gradient: true,
    };
    let mut l = caps();
    apply_capability_profile(&mut l, &attrs(), &profile, true);
    assert_eq!(
        l,
        LightCapabilities {
            archetype: LightArchetype::ClassicBulb,
            dimming: None,
            has_dimming_delta: false,
            color_temperature: None,
            has_color_temperature_delta: false,
            color: None,
            gradient: None,
        }
    );
}

#[test]
fn capability_profile_applied_and_idempotent() {
    let profile = LightProfile {
        archetype: LightArchetype::HueLightstrip,
        onoff_only: false,
        supports_dimming: true,
        supports_color_temperature: false,
        supports_color: true,
        supports_gradient: true,
    };
    let mut a = attrs();
    a.brightness = Some(128);
    let mut l = caps();
    apply_capability_profile(&mut l, &a, &profile, false);
    let expected = LightCapabilities {
        archetype: LightArchetype::HueLightstrip,
        dimming: Some(DimmingLevel::Reported(128)),
        has_dimming_delta: true,
        color_temperature: None,
        has_color_temperature_delta: false,
        color: Some(ColorSource::WhitePoint),
        gradient: Some(GradientCapability {
            mode: GradientMode::InterpolatedPalette,
            offers_interpolated_palette: true,
            offers_interpolated_palette_mirrored: true,
            offers_random_pixelated: true,
            points_capable: 10,
            point_count: 1,
            pixel_count: 60,
        }),
    };
    assert_eq!(default_gradient(), expected.gradient.unwrap());
    assert_eq!(l, expected);
    apply_capability_profile(&mut l, &a, &profile, false);
    assert_eq!(l, expected);
    let mut off = caps();
    apply_capability_profile(&mut off, &attrs(), &profile, false);
    assert_eq!(off.dimming, Some(DimmingLevel::Off));
    let mut on = caps();
    apply_capability_profile(&mut on, &attrs(), &profile, true);
    assert_eq!(on.dimming, Some(DimmingLevel::Full));
}

#[test]
fn on_off_states() {
    assert_eq!(on_off("on"), Some(true));
    assert_eq!(on_off("off"), Some(false));
    assert_eq!(on_off("unavailable"), None);
    assert_eq!(on_off("On"), None);
}

#[test]
fn counts_onoff_lights() {
    let states = vec![
        state("light.a", "on", attrs()),
        state("light.b", "off", attrs()),
        state("light.c", "unavailable", attrs()),
        state("switch.d", "on", attrs()),
        state("light.e_segment_1", "on", attrs()),
    ];
    assert_eq!(count_onoff_lights(&states), 3);
}

#[test]
fn segment_topics() {
    assert!(is_segment_light_topic("light.strip_segment_1"));
    assert!(!is_segment_light_topic("sensor.strip_segment_1"));
    assert!(!is_segment_light_topic("light.strip"));
    assert!(!is_segment_light_topic("light.strip_segment_x"));
}

#[test]
fn non_primary_topics() {
    let reg = vec![entry("light.wled", Some("dev1"), None), entry("light.wled_2", Some("dev1"), None)];
    let mut primary: StrMap<String> = StrMap::new();
    primary.insert("dev1".to_string(), "light.wled".to_string());
    assert!(!is_non_primary_wled_topic("light.wled", &reg, &primary));
    assert!(is_non_primary_wled_topic("light.wled_2", &reg, &primary));
    assert!(!is_non_primary_wled_topic("light.other", &reg, &primary));
}

#[test]
fn stale_lights_found_by_topic() {
    let reg = vec![entry("light.wled", Some("dev1"), None), entry("light.wled_2", Some("dev1"), None)];
    let mut primary: StrMap<String> = StrMap::new();
    primary.insert("dev1".to_string(), "light.wled".to_string());
    let topics = vec![
        Some("light.wled".to_string()),
        None,
        Some("light.wled_2".to_string()),
        Some("light.desk".to_string()),
        Some("light.wled_segment_3".to_string()),
    ];
    assert_eq!(stale_light_positions(&topics, &reg, &primary), vec![2, 4]);
    assert!(stale_light_positions(&[], &reg, &primary).is_empty());
}

#[test]
fn area_actions() {
    let area = HaArea { area_id: "kitchen".to_string(), name: "Kitchen".to_string() };
    assert_eq!(area_action(None, &area), AreaAction::Create);
    assert_eq!(area_action(Some("Kitchen"), &area), AreaAction::Keep);
    assert_eq!(area_action(Some("Old"), &area), AreaAction::Rename);
}
