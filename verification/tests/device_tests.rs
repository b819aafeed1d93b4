use wled_doppler::devices::{
    led_set_brightness, led_set_power, led_set_preset, preset_push_needed, DeviceState, IpAddress,
    RegistrationPlan, WledCache,
};

fn v4(a: u8, b: u8, c: u8, d: u8) -> IpAddress {
    IpAddress {
        is_v6: false,
        bits: u32::from_be_bytes([a, b, c, d]) as u128,
    }
}

fn some_state(ps: i32) -> DeviceState {
    DeviceState { on: Some(true), bri: Some(100), ps: Some(ps) }
}

#[test]
fn reregistering_unchanged_address_is_noop() {
    let mut cache = WledCache::new();
    let name = String::from("lamp._wled._tcp.local.");
    let addr = v4(192, 168, 1, 20);
    cache.register_probed(&name, addr, some_state(1));
    assert_eq!(cache.len(), 1);
    // The advertised set still holds the cached address: no probe.
    let plan = cache.plan_registration(&name, &vec![v4(10, 0, 0, 1), addr]);
    assert_eq!(plan, RegistrationPlan::NoOp);
}

#[test]
fn changed_address_set_triggers_one_probe_with_warning() {
    let mut cache = WledCache::new();
    let name = String::from("lamp._wled._tcp.local.");
    cache.register_probed(&name, v4(192, 168, 1, 20), some_state(1));
    // The cached address is gone from the advertisement: probe, and flag
    // the address change for the warning log.
    let plan = cache.plan_registration(&name, &vec![v4(192, 168, 1, 77)]);
    assert_eq!(plan, RegistrationPlan::Probe { address_changed: true });
    // A name never seen probes without the warning.
    let unknown = String::from("strip._wled._tcp.local.");
    let plan = cache.plan_registration(&unknown, &vec![v4(192, 168, 1, 77)]);
    assert_eq!(plan, RegistrationPlan::Probe { address_changed: false });
}

#[test]
fn reregistering_overwrites_in_place() {
    let mut cache = WledCache::new();
    let lamp = String::from("lamp._wled._tcp.local.");
    let strip = String::from("strip._wled._tcp.local.");
    cache.register_probed(&lamp, v4(192, 168, 1, 20), some_state(1));
    cache.register_probed(&strip, v4(192, 168, 1, 21), some_state(2));
    assert_eq!(cache.len(), 2);
    // A successful probe on a new address overwrites the record, keeping
    // one record per name and leaving the other record alone.
    cache.register_probed(&lamp, v4(192, 168, 1, 99), some_state(7));
    assert_eq!(cache.len(), 2);
    let rec = cache.get(&lamp).unwrap();
    assert_eq!(rec.address, v4(192, 168, 1, 99));
    assert_eq!(rec.state.as_ref().unwrap().ps, Some(7));
    let other = cache.get(&strip).unwrap();
    assert_eq!(other.address, v4(192, 168, 1, 21));
    assert!(cache.get(&String::from("gone")).is_none());
}

#[test]
fn preset_guard_skips_matching_preset() {
    // Current preset equals the target: no push is issued.
    assert!(!preset_push_needed(Some(5), 5));
    // A mismatch, or an unknown current preset, pushes exactly once.
    assert!(preset_push_needed(Some(4), 5));
    assert!(preset_push_needed(None, 5));
}

#[test]
fn state_deltas_are_minimal() {
    let d = led_set_preset(9);
    assert_eq!(d.ps, Some(9));
    assert_eq!(d.on, None);
    assert_eq!(d.bri, None);

    let d = led_set_power(true);
    assert_eq!(d.on, Some(true));
    assert_eq!(d.bri, None);
    assert_eq!(d.ps, None);

    // A brightness push sets the on/off flag implicitly.
    let d = led_set_brightness(40);
    assert_eq!(d.bri, Some(40));
    assert_eq!(d.on, Some(true));
    assert_eq!(d.ps, None);
    let d = led_set_brightness(0);
    assert_eq!(d.on, Some(false));
}

#[test]
fn ipv6_addresses_are_distinct_from_ipv4() {
    let four = v4(0, 0, 0, 1);
    let six = IpAddress { is_v6: true, bits: 1 };
    assert_ne!(four, six);
    let mut cache = WledCache::new();
    let name = String::from("lamp._wled._tcp.local.");
    cache.register_probed(&name, six, some_state(1));
    assert_eq!(cache.plan_registration(&name, &vec![six]), RegistrationPlan::NoOp);
    assert_eq!(
        cache.plan_registration(&name, &vec![four]),
        RegistrationPlan::Probe { address_changed: true }
    );
}
