use bifrost_ha::runtime::{
    BrightnessChange, EnqueueRoute, GradientMode, GradientRequest, HaBackendState, LightCommand,
    LightUpdateRequest, PendingLightUpdate, FIRST_COMMAND_ID, HueLightState, apply_gradient_patch,
    gradient_light_patch,
};
use bifrost_ha::types::{HaEntityRegistryEntry, HaState, HaStateAttributes};
use bifrost_ha::ws::{
    classify_command_reply, classify_incoming, is_auth_ok, is_auth_required, subscribe_succeeded,
    CommandReply, IncomingMessage, RegistryQuery, SUBSCRIBE_COMMAND_ID,
};

fn attrs() -> HaStateAttributes {
    HaStateAttributes {
        friendly_name: None,
        manufacturer: None,
        model: None,
        brightness: None,
        color_mode: None,
        supported_color_modes: None,
        supported_features: None,
        min_color_temp_kelvin: None,
        max_color_temp_kelvin: None,
        color_temp_kelvin: None,
        color_temp: None,
        has_hs_color: false,
        rgb_color: None,
        has_xy_color: false,
    }
}

fn state(entity_id: &str, st: &str) -> HaState {
    HaState { entity_id: entity_id.to_string(), state: st.to_string(), attributes: attrs() }
}

fn upd() -> LightUpdateRequest<f64> {
    LightUpdateRequest { on: None, brightness_pct: None, color_xy: None, mirek: None, gradient: None }
}

fn wled_backend() -> HaBackendState<f64> {
    let states = vec![
        state("light.wled", "on"),
        state("light.wled_segment_1", "on"),
        state("light.wled_segment_2", "on"),
        state("light.wled_tv", "on"),
        state("sensor.wled_ip_tv", "10.0.0.9"),
    ];
    let reg = vec![
        HaEntityRegistryEntry {
            entity_id: "light.wled_segment_1".to_string(),
            area_id: None,
            device_id: Some("seg-dev".to_string()),
            platform: None,
        },
        HaEntityRegistryEntry {
            entity_id: "light.wled_segment_2".to_string(),
            area_id: None,
            device_id: Some("seg-dev".to_string()),
            platform: None,
        },
    ];
    let ips = vec![None, None, None, None, Some("10.0.0.9".to_string())];
    let mut s = HaBackendState::new(Some(100), None);
    s.load_wled_targets(&states, &reg, &ips);
    s
}

#[test]
fn command_ids_count_up_and_saturate() {
    let mut s: HaBackendState<f64> = HaBackendState::new(None, None);
    assert_eq!(s.next_id(), 100);
    assert_eq!(s.next_id(), 101);
    s.next_cmd_id = u64::MAX;
    assert_eq!(s.next_id(), u64::MAX);
    assert_eq!(s.next_id(), u64::MAX);
}

#[test]
fn plain_update_merges_and_turning_off_wins() {
    let mut s: HaBackendState<f64> = HaBackendState::new(None, None);
    let mut u = upd();
    u.brightness_pct = Some(40.0);
    u.color_xy = Some((0.3, 0.3));
    u.mirek = Some(250);
    assert_eq!(s.enqueue_light_update("light.desk".to_string(), &u, 1000), EnqueueRoute::Plain);
    let p = s.pending.get("light.desk").unwrap();
    assert_eq!(p.brightness_pct, Some(40.0));
    assert_eq!(p.color_temp_kelvin, Some(4000));
    assert_eq!(p.deadline, Some(1080));
    let mut off = upd();
    off.on = Some(false);
    s.enqueue_light_update("light.desk".to_string(), &off, 1010);
    let p = s.pending.get("light.desk").unwrap();
    assert_eq!(p.on, Some(false));
    assert_eq!(p.brightness_pct, None);
    assert_eq!(p.xy_color, None);
    assert_eq!(p.color_temp_kelvin, None);
    assert_eq!(p.deadline, Some(1090));
}

#[test]
fn configured_buffer_sets_the_deadline() {
    let mut s: HaBackendState<f64> = HaBackendState::new(None, Some(250));
    assert_eq!(s.update_buffer_ms, 250);
    let mut u = upd();
    u.on = Some(true);
    s.enqueue_light_update("light.desk".to_string(), &u, 1000);
    assert_eq!(s.pending.get("light.desk").unwrap().deadline, Some(1250));
    assert!(s.ready_entity_ids(1249).is_empty());
    assert_eq!(s.ready_entity_ids(1250), vec!["light.desk".to_string()]);
    let d: HaBackendState<f64> = HaBackendState::new(None, None);
    assert_eq!(d.update_buffer_ms, 80);
}

#[test]
fn kelvin_is_clamped() {
    let mut s: HaBackendState<f64> = HaBackendState::new(None, None);
    let mut u = upd();
    u.mirek = Some(100);
    s.enqueue_light_update("light.a".to_string(), &u, 0);
    assert_eq!(s.pending.get("light.a").unwrap().color_temp_kelvin, Some(6535));
    u.mirek = Some(600);
    s.enqueue_light_update("light.a".to_string(), &u, 0);
    assert_eq!(s.pending.get("light.a").unwrap().color_temp_kelvin, Some(2000));
}

#[test]
fn gradient_fans_out_over_segments() {
    let mut s = wled_backend();
    let mut u = upd();
    u.on = Some(true);
    u.gradient = Some(GradientRequest { points: vec![(0.1, 0.2)], mode: None });
    assert_eq!(s.enqueue_light_update("light.wled_segment_2".to_string(), &u, 5), EnqueueRoute::Segments);
    let a = s.pending.get("light.wled_segment_1").unwrap();
    let b = s.pending.get("light.wled_segment_2").unwrap();
    assert_eq!(a.xy_color, Some((0.1, 0.2)));
    assert_eq!(b.xy_color, Some((0.1, 0.2)));
    assert_eq!(a.on, Some(true));
    assert_eq!(s.pending.len(), 2);
}

#[test]
fn gradient_points_spread_over_three_segments() {
    let states = vec![
        state("light.strip_segment_1", "on"),
        state("light.strip_segment_2", "on"),
        state("light.strip_segment_3", "on"),
        state("light.desk", "on"),
    ];
    let reg: Vec<HaEntityRegistryEntry> = ["light.strip_segment_1", "light.strip_segment_2", "light.strip_segment_3"]
        .iter()
        .map(|e| HaEntityRegistryEntry {
            entity_id: e.to_string(),
            area_id: None,
            device_id: Some("strip".to_string()),
            platform: Some("wled".to_string()),
        })
        .collect();
    let ips = vec![None, None, None, None];
    let mut s: HaBackendState<f64> = HaBackendState::new(None, None);
    s.load_wled_targets(&states, &reg, &ips);
    let mut desk = upd();
    desk.on = Some(true);
    s.enqueue_light_update("light.desk".to_string(), &desk, 0);
    let mut u = upd();
    u.brightness_pct = Some(30.0);
    u.gradient = Some(GradientRequest { points: vec![(0.1, 0.1), (0.2, 0.2)], mode: None });
    assert_eq!(s.enqueue_light_update("light.strip_segment_1".to_string(), &u, 10), EnqueueRoute::Segments);
    assert_eq!(s.pending.get("light.strip_segment_1").unwrap().xy_color, Some((0.1, 0.1)));
    assert_eq!(s.pending.get("light.strip_segment_2").unwrap().xy_color, Some((0.2, 0.2)));
    assert_eq!(s.pending.get("light.strip_segment_3").unwrap().xy_color, Some((0.2, 0.2)));
    assert_eq!(s.pending.get("light.strip_segment_3").unwrap().brightness_pct, Some(30.0));
    assert_eq!(s.pending.get("light.strip_segment_3").unwrap().deadline, Some(90));
    let d = s.pending.get("light.desk").unwrap();
    assert_eq!(d.on, Some(true));
    assert_eq!(d.deadline, Some(80));
    assert_eq!(s.pending.len(), 4);
}

#[test]
fn gradient_for_direct_wled_kept_whole() {
    let mut s = wled_backend();
    let mut u = upd();
    u.brightness_pct = Some(50.0);
    u.gradient = Some(GradientRequest {
        points: vec![(0.1, 0.1), (0.2, 0.2), (0.3, 0.3)],
        mode: Some(GradientMode::RandomPixelated),
    });
    assert_eq!(s.enqueue_light_update("light.wled_tv".to_string(), &u, 0), EnqueueRoute::DirectGradient);
    let p = s.pending.get("light.wled_tv").unwrap();
    assert_eq!(p.gradient_points.as_ref().unwrap().len(), 3);
    assert_eq!(p.gradient_mode, Some(GradientMode::RandomPixelated));
    let taken = s.take_pending("light.wled_tv").unwrap();
    match s.plan_light_command("light.wled_tv".to_string(), taken) {
        LightCommand::WledGradient { ip, led_count, points, brightness_pct, .. } => {
            assert_eq!(ip, "10.0.0.9");
            assert_eq!(led_count, 90);
            assert_eq!(points.len(), 3);
            assert_eq!(brightness_pct, Some(50.0));
        }
        _ => panic!("expected a WLED gradient command"),
    }
}

#[test]
fn gradient_without_wled_route_is_plain() {
    let mut s: HaBackendState<f64> = HaBackendState::new(None, None);
    let mut u = upd();
    u.gradient = Some(GradientRequest { points: vec![(0.1, 0.1)], mode: None });
    assert_eq!(s.enqueue_light_update("light.x".to_string(), &u, 0), EnqueueRoute::Plain);
    assert!(s.pending.get("light.x").unwrap().gradient_points.is_none());
}

#[test]
fn flush_takes_only_due_updates() {
    let mut s: HaBackendState<f64> = HaBackendState::new(None, None);
    s.enqueue_light_update("light.a".to_string(), &upd(), 0);
    s.enqueue_light_update("light.b".to_string(), &upd(), 100);
    let ready = s.ready_entity_ids(80);
    assert_eq!(ready, vec!["light.a".to_string()]);
    for id in &ready {
        assert!(s.take_pending(id).is_some());
    }
    assert!(s.take_pending("light.a").is_none());
    assert_eq!(s.pending.len(), 1);
    assert_eq!(s.ready_entity_ids(179), Vec::<String>::new());
    assert_eq!(s.ready_entity_ids(180), vec!["light.b".to_string()]);
}

#[test]
fn service_call_for_plain_light() {
    let mut s: HaBackendState<f64> = HaBackendState::new(Some(90_000), None);
    let cmd = PendingLightUpdate {
        on: Some(false),
        brightness_pct: None,
        xy_color: None,
        color_temp_kelvin: None,
        gradient_points: None,
        gradient_mode: None,
        deadline: None,
    };
    match s.plan_light_command("light.a".to_string(), cmd) {
        LightCommand::CallService(c) => {
            assert!(c.turn_off);
            assert_eq!(c.service(), "turn_off");
            assert_eq!(c.id, 100);
            assert_eq!(c.transition_ms, 30_000);
            assert_eq!(c.entity_id, "light.a");
            assert!(!c.solid_effect);
        }
        _ => panic!("expected a service call"),
    }
    assert_eq!(s.next_cmd_id, 101);
}

#[test]
fn service_call_for_segment_asks_solid_effect() {
    let mut s = wled_backend();
    let cmd = PendingLightUpdate {
        on: None,
        brightness_pct: None,
        xy_color: Some((0.2, 0.3)),
        color_temp_kelvin: None,
        gradient_points: None,
        gradient_mode: None,
        deadline: None,
    };
    match s.plan_light_command("light.wled_segment_1".to_string(), cmd) {
        LightCommand::CallService(c) => {
            assert!(!c.turn_off);
            assert_eq!(c.service(), "turn_on");
            assert!(c.solid_effect);
            assert_eq!(c.transition_ms, 100);
        }
        _ => panic!("expected a service call"),
    }
}

#[test]
fn brightness_only_for_direct_wled() {
    let mut s = wled_backend();
    let cmd = PendingLightUpdate {
        on: Some(true),
        brightness_pct: Some(20.0),
        xy_color: None,
        color_temp_kelvin: None,
        gradient_points: None,
        gradient_mode: None,
        deadline: None,
    };
    match s.plan_light_command("light.wled_tv".to_string(), cmd) {
        LightCommand::WledBrightness { ip, on, brightness_pct } => {
            assert_eq!(ip, "10.0.0.9");
            assert_eq!(on, Some(true));
            assert_eq!(brightness_pct, Some(20.0));
        }
        _ => panic!("expected a WLED brightness command"),
    }
    assert_eq!(s.next_cmd_id, 100);
}

#[test]
fn state_change_plans() {
    let s = wled_backend();
    let mut a = attrs();
    a.brightness = Some(128);
    a.color_temp = Some(300);
    let st = HaState { entity_id: "light.desk".to_string(), state: "on".to_string(), attributes: a };
    let c = s.plan_state_change("state_changed", Some(&st)).unwrap();
    assert!(c.is_on);
    assert_eq!(c.brightness, BrightnessChange::Reported(128));
    assert!(c.update_color);
    assert_eq!(c.mirek, Some(300));
    let off = state("light.wled_tv", "off");
    let c2 = s.plan_state_change("state_changed", Some(&off)).unwrap();
    assert_eq!(c2.brightness, BrightnessChange::Zero);
    assert!(!c2.update_color);
    let on = state("light.x", "on");
    assert_eq!(s.plan_state_change("state_changed", Some(&on)).unwrap().brightness, BrightnessChange::Keep);
    assert!(s.plan_state_change("call_service", Some(&on)).is_none());
    assert!(s.plan_state_change("state_changed", None).is_none());
    assert!(s.plan_state_change("state_changed", Some(&state("switch.x", "on"))).is_none());
    assert!(s.plan_state_change("state_changed", Some(&state("light.x", "unavailable"))).is_none());
}

#[test]
fn segment_entities_are_collected() {
    let s = wled_backend();
    assert!(s.wled_segment_entities.contains_key("light.wled_segment_1"));
    assert!(s.wled_segment_entities.contains_key("light.wled_segment_2"));
    assert!(!s.wled_segment_entities.contains_key("light.wled_tv"));
    assert_eq!(s.wled_direct_targets.len(), 1);
}

#[test]
fn handshake_decisions() {
    assert!(is_auth_required(Some("auth_required")));
    assert!(!is_auth_required(None));
    assert!(is_auth_ok(Some("auth_ok")));
    assert!(!is_auth_ok(Some("auth_invalid")));
    assert!(subscribe_succeeded(Some(true)));
    assert!(!subscribe_succeeded(None));
    assert!(!subscribe_succeeded(Some(false)));
}

#[test]
fn command_reply_classification() {
    assert_eq!(classify_command_reply(Some("event"), Some(3), Some(true), true, 3), CommandReply::Skip);
    assert_eq!(classify_command_reply(Some("result"), Some(4), Some(true), true, 3), CommandReply::Skip);
    assert_eq!(classify_command_reply(Some("result"), None, Some(true), true, 3), CommandReply::Skip);
    assert_eq!(classify_command_reply(Some("result"), Some(3), None, true, 3), CommandReply::Failed);
    assert_eq!(classify_command_reply(Some("result"), Some(3), Some(true), false, 3), CommandReply::MissingResult);
    assert_eq!(classify_command_reply(None, Some(3), Some(true), true, 3), CommandReply::Accepted);
}

#[test]
fn incoming_classification() {
    assert_eq!(classify_incoming(Some("result"), None), IncomingMessage::CommandSucceeded);
    assert_eq!(classify_incoming(Some("result"), Some(false)), IncomingMessage::CommandFailed);
    assert_eq!(classify_incoming(Some("event"), None), IncomingMessage::Event);
    assert_eq!(classify_incoming(Some("pong"), None), IncomingMessage::Other);
    assert_eq!(classify_incoming(None, None), IncomingMessage::Other);
}

#[test]
fn registry_commands() {
    assert_eq!(RegistryQuery::Areas.command_id(), 2);
    assert_eq!(RegistryQuery::EntityRegistry.command_type(), "config/entity_registry/list");
    assert_eq!(RegistryQuery::DeviceRegistry.command_id(), 5);
    assert_eq!(RegistryQuery::States.command_type(), "get_states");
    assert_eq!(RegistryQuery::States.command_id(), 6);
    assert_eq!(RegistryQuery::Areas.context(), "area_registry/list");
}

#[test]
fn command_ids_never_collide() {
    let queries = [
        RegistryQuery::Areas,
        RegistryQuery::EntityRegistry,
        RegistryQuery::DeviceRegistry,
        RegistryQuery::States,
    ];
    let mut ids: Vec<u64> = queries.iter().map(|q| q.command_id()).collect();
    ids.push(SUBSCRIBE_COMMAND_ID);
    let mut s: HaBackendState<f64> = HaBackendState::new(None, None);
    for _ in 0..3 {
        let id = s.next_id();
        assert!(!ids.contains(&id));
        ids.push(id);
    }
    let mut sorted = ids.clone();
    sorted.sort();
    sorted.dedup();
    assert_eq!(sorted.len(), ids.len());
    assert_eq!(FIRST_COMMAND_ID, 100);
}

#[test]
fn direct_gradient_patches_the_hue_light() {
    let s = wled_backend();
    let mut u = upd();
    u.on = Some(true);
    u.brightness_pct = Some(40.0);
    u.gradient = Some(GradientRequest { points: vec![(0.4, 0.5), (0.2, 0.2)], mode: None });
    assert_eq!(s.route_of("light.wled_tv", &u), EnqueueRoute::DirectGradient);
    let patch = gradient_light_patch(&u).unwrap();
    assert_eq!(patch.on, Some(true));
    assert_eq!(patch.brightness_pct, Some(40.0));
    assert_eq!(patch.color_xy, (0.4, 0.5));
    assert_eq!(patch.mode, GradientMode::InterpolatedPalette);
    assert_eq!(patch.points, vec![(0.4, 0.5), (0.2, 0.2)]);

    let mut light = HueLightState {
        on: false,
        brightness_pct: Some(10.0),
        color_xy: Some((0.3, 0.3)),
        gradient: Some((GradientMode::RandomPixelated, vec![(0.3, 0.3)])),
    };
    apply_gradient_patch(&mut light, &patch);
    assert!(light.on);
    assert_eq!(light.brightness_pct, Some(40.0));
    assert_eq!(light.color_xy, Some((0.4, 0.5)));
    let (mode, points) = light.gradient.unwrap();
    assert_eq!(mode, GradientMode::InterpolatedPalette);
    assert_eq!(points, vec![(0.4, 0.5), (0.2, 0.2)]);

    let mut plain = HueLightState::<f64> { on: true, brightness_pct: None, color_xy: None, gradient: None };
    let mut off = upd();
    off.on = Some(false);
    off.gradient = Some(GradientRequest { points: vec![(0.1, 0.1)], mode: Some(GradientMode::RandomPixelated) });
    apply_gradient_patch(&mut plain, &gradient_light_patch(&off).unwrap());
    assert!(!plain.on);
    assert_eq!(plain.brightness_pct, None);
    assert_eq!(plain.color_xy, None);
    assert!(plain.gradient.is_none());

    let mut empty = upd();
    empty.gradient = Some(GradientRequest { points: vec![], mode: None });
    assert!(gradient_light_patch(&empty).is_none());
    assert!(gradient_light_patch(&upd()).is_none());
}

#[test]
fn routes_and_mirek_zero_off_the_plain_route() {
    let mut s = wled_backend();
    let mut u = upd();
    u.mirek = Some(0);
    u.gradient = Some(GradientRequest { points: vec![(0.1, 0.2)], mode: None });
    assert_eq!(s.route_of("light.wled_segment_1", &u), EnqueueRoute::Segments);
    assert_eq!(s.enqueue_light_update("light.wled_segment_1".to_string(), &u, 0), EnqueueRoute::Segments);
    assert_eq!(s.pending.get("light.wled_segment_1").unwrap().color_temp_kelvin, None);
    assert_eq!(s.route_of("light.desk", &u), EnqueueRoute::Plain);
    assert_eq!(s.route_of("light.wled_tv", &upd()), EnqueueRoute::Plain);
}
