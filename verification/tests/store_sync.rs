use bifrost_ha::import::{
    compute_primary_wled_entity_by_device, default_gradient, DimmingLevel, LightArchetype,
    LightCapabilities,
};
use bifrost_ha::store::{purge_stale_lights, sync_imported_lights, ImportedLight};
use bifrost_ha::strmap::StrMap;
use bifrost_ha::types::{HaDeviceRegistryEntry, HaEntityRegistryEntry, HaState, HaStateAttributes};

fn attrs() -> HaStateAttributes {
    HaStateAttributes {
        friendly_name: None,
        manufacturer: None,
        model: None,
        brightness: None,
        color_mode: None,
        supported_color_modes: None,
        supported_features: None,
        min_color_temp_kelvin: None,
        max_color_temp_kelvin: None,
        color_temp_kelvin: None,
        color_temp: None,
        has_hs_color: false,
        rgb_color: None,
        has_xy_color: false,
    }
}

fn state(entity_id: &str, st: &str, brightness: Option<u16>) -> HaState {
    let mut a = attrs();
    a.brightness = brightness;
    HaState { entity_id: entity_id.to_string(), state: st.to_string(), attributes: a }
}

fn entry(entity_id: &str, device: &str) -> HaEntityRegistryEntry {
    HaEntityRegistryEntry {
        entity_id: entity_id.to_string(),
        area_id: None,
        device_id: Some(device.to_string()),
        platform: None,
    }
}

fn fresh() -> LightCapabilities {
    LightCapabilities {
        archetype: LightArchetype::UnknownArchetype,
        dimming: None,
        has_dimming_delta: true,
        color_temperature: None,
        has_color_temperature_delta: true,
        color: None,
        gradient: None,
    }
}

fn record(name: &str) -> ImportedLight {
    ImportedLight {
        is_on: false,
        name: name.to_string(),
        model_id: "old-model".to_string(),
        manufacturer_name: "old-maker".to_string(),
        product_name: name.to_string(),
        archetype: LightArchetype::ClassicBulb,
        capabilities: fresh(),
    }
}

fn snapshot(m: &StrMap<ImportedLight>) -> Vec<String> {
    let mut out: Vec<String> = (0..m.len())
        .map(|i| {
            let r = m.value_at(i);
            format!(
                "{}|{}|{}|{}|{}|{}|{:?}|{:?}",
                m.key_at(i),
                r.is_on,
                r.name,
                r.model_id,
                r.manufacturer_name,
                r.product_name,
                r.archetype,
                r.capabilities
            )
        })
        .collect();
    out.sort();
    out
}

fn world() -> (Vec<HaState>, Vec<HaEntityRegistryEntry>, Vec<HaDeviceRegistryEntry>) {
    let states = vec![
        state("light.desk", "on", Some(51)),
        state("light.wled", "off", None),
        state("light.wled_2", "on", None),
        state("light.wled_segment_1", "on", None),
        state("light.porch", "off", None),
    ];
    let reg = vec![
        entry("light.desk", "desk-dev"),
        entry("light.wled", "strip"),
        entry("light.wled_2", "strip"),
        entry("light.wled_segment_1", "strip"),
    ];
    (states, reg, vec![])
}

#[test]
fn sync_imports_updates_and_removes() {
    let (states, reg, devs) = world();
    let primary = compute_primary_wled_entity_by_device(&states, &reg);
    let mut lights: StrMap<ImportedLight> = StrMap::new();
    lights.insert("light.desk".to_string(), record("Old desk"));
    lights.insert("light.wled_2".to_string(), record("second strip"));
    lights.insert("light.wled_segment_1".to_string(), record("segment"));
    lights.insert("light.gone".to_string(), record("kept"));
    sync_imported_lights(&mut lights, &states, &reg, &devs, &primary, fresh());

    assert!(lights.get("light.wled_2").is_none());
    assert!(lights.get("light.wled_segment_1").is_none());
    assert!(lights.get("light.gone").is_some());
    let desk = lights.get("light.desk").unwrap();
    assert!(desk.is_on);
    assert_eq!(desk.name, "light.desk");
    assert_eq!(desk.model_id, "old-model");
    assert_eq!(desk.capabilities.dimming, Some(DimmingLevel::Reported(51)));
    assert!(desk.capabilities.has_dimming_delta);
    let strip = lights.get("light.wled").unwrap();
    assert!(!strip.is_on);
    assert_eq!(strip.model_id, "HA-LIGHT");
    assert_eq!(strip.manufacturer_name, "Home Assistant");
    assert_eq!(strip.archetype, LightArchetype::HueLightstrip);
    assert_eq!(strip.capabilities.gradient, Some(default_gradient()));
    assert!(lights.get("light.porch").is_some());
    assert_eq!(lights.len(), 4);
}

#[test]
fn second_sync_changes_nothing() {
    let (states, reg, devs) = world();
    let primary = compute_primary_wled_entity_by_device(&states, &reg);
    let mut lights: StrMap<ImportedLight> = StrMap::new();
    lights.insert("light.wled_2".to_string(), record("second strip"));
    lights.insert("light.desk".to_string(), record("Old desk"));
    sync_imported_lights(&mut lights, &states, &reg, &devs, &primary, fresh());
    let once = snapshot(&lights);
    sync_imported_lights(&mut lights, &states, &reg, &devs, &primary, fresh());
    assert_eq!(snapshot(&lights), once);
}

#[test]
fn purge_keeps_primary_and_plain_lights() {
    let (states, reg, _) = world();
    let primary = compute_primary_wled_entity_by_device(&states, &reg);
    let mut lights: StrMap<ImportedLight> = StrMap::new();
    lights.insert("light.wled".to_string(), record("strip"));
    lights.insert("light.wled_2".to_string(), record("second strip"));
    lights.insert("light.wled_segment_1".to_string(), record("segment"));
    lights.insert("light.desk".to_string(), record("desk"));
    purge_stale_lights(&mut lights, &reg, &primary);
    assert!(lights.get("light.wled").is_some());
    assert!(lights.get("light.desk").is_some());
    assert_eq!(lights.len(), 2);
}
