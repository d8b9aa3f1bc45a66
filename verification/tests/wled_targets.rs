use bifrost_ha::import::{compute_primary_wled_entity_by_device, plan_light_imports, LightArchetype};
use bifrost_ha::types::{HaDeviceRegistryEntry, HaEntityRegistryEntry, HaState, HaStateAttributes};
use bifrost_ha::wled::{
    compute_wled_direct_targets, compute_wled_segment_targets, gradient_anchors, parse_segment_index,
    parse_wled_suffix, wled_gradient_state, wled_power, wled_segment_stop, GRADIENT_EFFECT,
};

fn attrs() -> HaStateAttributes {
    HaStateAttributes {
        friendly_name: None,
        manufacturer: None,
        model: None,
        brightness: None,
        color_mode: None,
        supported_color_modes: None,
        supported_features: None,
        min_color_temp_kelvin: None,
        max_color_temp_kelvin: None,
        color_temp_kelvin: None,
        color_temp: None,
        has_hs_color: false,
        rgb_color: None,
        has_xy_color: false,
    }
}

fn state(entity_id: &str, st: &str) -> HaState {
    HaState { entity_id: entity_id.to_string(), state: st.to_string(), attributes: attrs() }
}

fn entry(entity_id: &str, device: Option<&str>, area: Option<&str>) -> HaEntityRegistryEntry {
    HaEntityRegistryEntry {
        entity_id: entity_id.to_string(),
        area_id: area.map(|a| a.to_string()),
        device_id: device.map(|d| d.to_string()),
        platform: None,
    }
}

#[test]
fn segment_index_parsing() {
    assert_eq!(parse_segment_index("light.strip_segment_2"), Some(2));
    assert_eq!(parse_segment_index("light.strip_segment_0"), Some(0));
    assert_eq!(parse_segment_index("light.a_segment_1_segment_3"), Some(3));
    assert_eq!(parse_segment_index("light.a_segment_1_segment_x"), None);
    assert_eq!(parse_segment_index("light.a_segment_+5"), Some(5));
    assert_eq!(parse_segment_index("light.a_segment_"), None);
    assert_eq!(parse_segment_index("light.a_segment_4294967295"), Some(4294967295));
    assert_eq!(parse_segment_index("light.a_segment_4294967296"), None);
    assert_eq!(parse_segment_index("light.strip"), None);
}

#[test]
fn wled_suffix_parsing() {
    assert_eq!(parse_wled_suffix("light.wled"), Some(String::new()));
    assert_eq!(parse_wled_suffix("light.wled_kitchen"), Some("_kitchen".to_string()));
    assert_eq!(parse_wled_suffix("light.wledx"), None);
    assert_eq!(parse_wled_suffix("sensor.wled_ip"), None);
}

#[test]
fn segment_targets_first_three_in_segment_order() {
    let states = vec![
        state("light.wled_segment_3", "on"),
        state("light.wled_segment_1", "on"),
        state("light.wled_segment_10", "on"),
        state("light.wled_segment_2", "on"),
        state("light.other", "on"),
        state("sensor.wled_ip", "10.0.0.2"),
    ];
    let reg = vec![
        entry("light.wled_segment_3", Some("dev"), None),
        entry("light.wled_segment_1", Some("dev"), None),
        entry("light.wled_segment_10", Some("dev"), None),
        entry("light.wled_segment_2", Some("dev"), None),
        entry("light.other", Some("dev2"), None),
    ];
    let m = compute_wled_segment_targets(&states, &reg);
    assert_eq!(m.len(), 4);
    let expected = vec![
        "light.wled_segment_1".to_string(),
        "light.wled_segment_2".to_string(),
        "light.wled_segment_3".to_string(),
    ];
    for e in ["light.wled_segment_1", "light.wled_segment_2", "light.wled_segment_3", "light.wled_segment_10"] {
        assert_eq!(m.get(e), Some(&expected));
    }
    assert_eq!(m.get("light.other"), None);
}

#[test]
fn segment_targets_put_main_light_first() {
    let states = vec![state("light.wled_segment_1", "on"), state("light.wled", "on")];
    let reg = vec![entry("light.wled_segment_1", Some("d"), None), entry("light.wled", Some("d"), None)];
    let m = compute_wled_segment_targets(&states, &reg);
    let expected = vec!["light.wled".to_string(), "light.wled_segment_1".to_string()];
    assert_eq!(m.get("light.wled"), Some(&expected));
}

#[test]
fn primary_prefers_main_then_non_segment_then_short() {
    let states = vec![
        state("light.wled_segment_1", "on"),
        state("light.wled_strip_long_name", "on"),
        state("light.wled_12", "on"),
        state("light.wled_tv", "on"),
        state("light.wled_b", "on"),
        state("light.wled_a", "on"),
    ];
    let reg = vec![
        entry("light.wled_segment_1", Some("d1"), None),
        entry("light.wled_strip_long_name", Some("d1"), None),
        entry("light.wled_12", Some("d1"), None),
        entry("light.wled_tv", Some("d2"), None),
        entry("light.wled_b", Some("d2"), None),
        entry("light.wled_a", Some("d2"), None),
    ];
    let m = compute_primary_wled_entity_by_device(&states, &reg);
    assert_eq!(m.get("d1"), Some(&"light.wled_12".to_string()));
    assert_eq!(m.get("d2"), Some(&"light.wled_a".to_string()));
    assert_eq!(m.len(), 2);
}

#[test]
fn primary_skips_lights_without_device_or_registry_row() {
    let states = vec![state("light.wled", "on"), state("light.wled_2", "on")];
    let reg = vec![entry("light.wled", None, None)];
    let m = compute_primary_wled_entity_by_device(&states, &reg);
    assert_eq!(m.len(), 0);
}

#[test]
fn direct_targets_need_ip_sensor() {
    let states = vec![
        state("light.wled", "on"),
        state("light.wled_tv", "off"),
        state("light.wled_gone", "unavailable"),
        state("sensor.wled_ip", " 10.0.0.5 "),
        state("sensor.wled_ip_tv", "10.0.0.6"),
        state("sensor.wled_ip_gone", "10.0.0.7"),
        state("sensor.wled_led_count_tv", "2"),
        state("sensor.wled_led_count", "120"),
    ];
    let ips = vec![
        None,
        None,
        None,
        Some("10.0.0.5".to_string()),
        Some("10.0.0.6".to_string()),
        Some("10.0.0.7".to_string()),
        None,
        None,
    ];
    let m = compute_wled_direct_targets(&states, &ips);
    assert_eq!(m.len(), 2);
    let main = m.get("light.wled").unwrap();
    assert_eq!((main.ip.as_str(), main.led_count), ("10.0.0.5", 120));
    let tv = m.get("light.wled_tv").unwrap();
    assert_eq!((tv.ip.as_str(), tv.led_count), ("10.0.0.6", 3));
    assert!(m.get("light.wled_gone").is_none());
}

#[test]
fn direct_target_default_led_count() {
    let states = vec![state("light.wled_x", "on"), state("sensor.wled_ip_x", "1.2.3.4")];
    let ips = vec![None, Some("1.2.3.4".to_string())];
    let m = compute_wled_direct_targets(&states, &ips);
    assert_eq!(m.get("light.wled_x").unwrap().led_count, 90);
}

#[test]
fn gradient_anchor_sampling() {
    let p: Vec<(f64, f64)> = (0..6).map(|i| (i as f64, 0.0)).collect();
    assert_eq!(gradient_anchors::<f64>(&vec![]), None);
    assert_eq!(gradient_anchors(&p[..1].to_vec()), Some((p[0], p[0], p[0])));
    assert_eq!(gradient_anchors(&p[..2].to_vec()), Some((p[0], p[1], p[1])));
    assert_eq!(gradient_anchors(&p[..3].to_vec()), Some((p[0], p[1], p[2])));
    assert_eq!(gradient_anchors(&p[..4].to_vec()), Some((p[0], p[1], p[3])));
    assert_eq!(gradient_anchors(&p[..5].to_vec()), Some((p[0], p[2], p[4])));
    assert_eq!(gradient_anchors(&p), Some((p[0], p[2], p[4])));
    assert_eq!(wled_segment_stop(1), 3);
    assert_eq!(wled_segment_stop(60), 60);
}

#[test]
fn light_import_plan() {
    let mut named = attrs();
    named.friendly_name = Some("Desk lamp".to_string());
    named.model = Some("LCT015".to_string());
    named.supported_color_modes = Some(vec!["xy".to_string()]);
    let states = vec![
        HaState { entity_id: "light.desk".to_string(), state: "on".to_string(), attributes: named },
        state("light.wled", "off"),
        state("light.wled_2", "on"),
        state("light.wled_segment_1", "on"),
        state("light.hall", "unavailable"),
        state("switch.fan", "on"),
        state("light.porch", "off"),
    ];
    let reg = vec![
        entry("light.desk", Some("desk-dev"), None),
        entry("light.wled", Some("strip"), Some("living")),
        entry("light.wled_2", Some("strip"), None),
        entry("light.porch", Some("porch-dev"), None),
    ];
    let devs = vec![HaDeviceRegistryEntry { id: "desk-dev".to_string(), area_id: Some("office".to_string()) }];
    let primary = compute_primary_wled_entity_by_device(&states, &reg);
    let plan = plan_light_imports(&states, &reg, &devs, &primary);
    let ids: Vec<&str> = plan.iter().map(|p| p.entity_id.as_str()).collect();
    assert_eq!(ids, vec!["light.desk", "light.wled", "light.porch"]);
    assert_eq!(plan[0].friendly_name, "Desk lamp");
    assert_eq!(plan[0].model_id, "LCT015");
    assert_eq!(plan[0].manufacturer_name, "Home Assistant");
    assert_eq!(plan[0].area_id.as_deref(), Some("office"));
    assert!(plan[0].is_on);
    assert_eq!(plan[0].profile.archetype, LightArchetype::ClassicBulb);
    assert_eq!(plan[1].friendly_name, "light.wled");
    assert_eq!(plan[1].model_id, "HA-LIGHT");
    assert_eq!(plan[1].area_id.as_deref(), Some("living"));
    assert!(!plan[1].is_on);
    assert_eq!(plan[1].profile.archetype, LightArchetype::HueLightstrip);
    assert_eq!(plan[2].area_id, None);
}

#[test]
fn gradient_state_for_wled() {
    let points = vec![(0.1, 0.1), (0.2, 0.2), (0.3, 0.3), (0.4, 0.4), (0.5, 0.5)];
    let plan = wled_gradient_state(2, None, &points);
    assert!(plan.on);
    assert_eq!(plan.stop, 3);
    assert_eq!(plan.effect, GRADIENT_EFFECT);
    assert_eq!(plan.effect, 46);
    assert_eq!(plan.palette, 4);
    assert_eq!((plan.preset, plan.playlist), (-1, -1));
    assert_eq!((plan.segment_id, plan.start, plan.speed, plan.intensity), (0, 0, 0, 0));
    assert_eq!(plan.anchors, Some(((0.1, 0.1), (0.3, 0.3), (0.5, 0.5))));
    let off = wled_gradient_state::<f64>(120, Some(false), &vec![]);
    assert!(!off.on);
    assert_eq!(off.stop, 120);
    assert_eq!(off.anchors, None);
    assert!(wled_power(None));
    assert!(wled_power(Some(true)));
    assert!(!wled_power(Some(false)));
}

#[test]
fn segment_index_of_generated_names() {
    for n in [0u32, 1, 7, 42, 4294967295] {
        let name = format!("light.kitchen_strip_segment_{n}");
        assert_eq!(parse_segment_index(&name), Some(n));
    }
    assert_eq!(parse_segment_index("light.a_segment_1_segment_9"), Some(9));
}
