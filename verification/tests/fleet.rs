use ferralloy::clock::{epoch_seconds, now};
use ferralloy::fleet::{
    canary_percent, canary_request, pctl, seen_ago, BadCanary, resolve, short_sha, slot_file, valid_channel_name, CanaryHealth, Channel,
    ChannelAnswer, DeviceReport, FleetState, HealthClass, NoSuchChannel, PackSlot, PromoteError,
    PublishError, Release, Rollout,
};
use ferralloy::registry::NameMap;

fn release(version: &str, sha: &str) -> Release {
    Release {
        name: "reach".to_string(),
        version: version.to_string(),
        sha256: sha.to_string(),
        signer: "key-1".to_string(),
        published: 1_700_000_000,
    }
}

fn report(channel: &str, sha: &str, ok: bool) -> DeviceReport {
    DeviceReport {
        device: String::new(),
        channel: channel.to_string(),
        target_sha: sha.to_string(),
        version: "1.1".to_string(),
        behavior: if ok { "verified".to_string() } else { "mismatch".to_string() },
        ok,
        platform: "jetson".to_string(),
        seen: 0,
    }
}

fn channel_names(st: &FleetState) -> Vec<String> {
    (0..st.channels.len()).map(|i| st.channels.entry(i).0.clone()).collect()
}

#[test]
fn pctl_is_fnv1a_mod_100() {
    assert_eq!(pctl(""), 37);
    assert_eq!(pctl("a"), 96);
    assert_eq!(pctl("device-1"), 81);
    assert_eq!(pctl("device-2"), 48);
    assert_eq!(pctl("jetson-07"), 10);
    assert_eq!(pctl("robot"), 99);
    assert_eq!(pctl("é"), 17);
}

#[test]
fn pctl_is_stable_and_below_100() {
    for id in ["device-1", "device-2", "edge-42", "x", ""] {
        let p = pctl(id);
        assert!(p < 100);
        assert_eq!(p, pctl(id));
    }
}

#[test]
fn resolve_honors_the_canary() {
    let ch = Channel {
        current: release("1.0", "aaa"),
        rollout: Some(Rollout { release: release("1.1", "bbb"), percent: 50 }),
    };
    // device-2 is in bucket 48 (< 50), device-1 in bucket 81.
    assert_eq!(resolve(&ch, "device-2").version, "1.1");
    assert_eq!(resolve(&ch, "device-1").version, "1.0");
}

#[test]
fn resolve_without_rollout_is_current() {
    let ch = Channel { current: release("1.0", "aaa"), rollout: None };
    assert_eq!(resolve(&ch, "device-2").version, "1.0");
}

#[test]
fn rollout_extremes() {
    let full = Channel {
        current: release("1.0", "aaa"),
        rollout: Some(Rollout { release: release("2.0", "ccc"), percent: 100 }),
    };
    let none = Channel {
        current: release("1.0", "aaa"),
        rollout: Some(Rollout { release: release("2.0", "ccc"), percent: 0 }),
    };
    for id in ["robot", "device-1", "", "a"] {
        assert_eq!(resolve(&full, id).version, "2.0");
        assert_eq!(resolve(&none, id).version, "1.0");
    }
}

#[test]
fn widening_a_canary_keeps_its_devices() {
    let ids = ["device-1", "device-2", "device-3", "device-4", "device-5", "a", "x"];
    let at = |p: u8| Channel {
        current: release("1.0", "aaa"),
        rollout: Some(Rollout { release: release("2.0", "ccc"), percent: p }),
    };
    let narrow = at(30);
    let wide = at(60);
    for id in ids {
        if resolve(&narrow, id).version == "2.0" {
            assert_eq!(resolve(&wide, id).version, "2.0");
        }
    }
}

#[test]
fn channel_names_are_checked() {
    assert!(valid_channel_name("stable"));
    assert!(valid_channel_name("beta-2"));
    assert!(!valid_channel_name("a/b"));
    assert!(!valid_channel_name("a.b"));
    assert!(!valid_channel_name(".."));
    assert!(valid_channel_name(""));
}

#[test]
fn canary_percent_parses_and_clamps() {
    assert_eq!(canary_percent("50"), Some(50));
    assert_eq!(canary_percent("0"), Some(0));
    assert_eq!(canary_percent("100"), Some(100));
    assert_eq!(canary_percent("250"), Some(100));
    assert_eq!(canary_percent("255"), Some(100));
    assert_eq!(canary_percent("256"), Some(100));
    assert_eq!(canary_percent("300"), Some(100));
    assert_eq!(canary_percent("5%"), None);
    assert_eq!(canary_percent("+7"), Some(7));
    assert_eq!(canary_percent("007"), Some(7));
    assert_eq!(canary_percent("-1"), None);
    assert_eq!(canary_percent(""), None);
    assert_eq!(canary_percent("+"), None);
    assert_eq!(canary_percent("1a"), None);
    assert_eq!(canary_percent(" 5"), None);
    assert_eq!(canary_percent("99999999999999999999"), Some(100));
}

#[test]
fn canary_percent_agrees_with_u8_parsing_where_that_parses() {
    for s in ["0", "1", "42", "100", "101", "255", "+3", "0255"] {
        let expected = s.parse::<u8>().ok().map(|p| p.min(100));
        assert_eq!(canary_percent(s), expected, "{s:?}");
    }
}

#[test]
fn canary_requests() {
    assert_eq!(canary_request(None), Ok(None));
    assert_eq!(canary_request(Some("25")), Ok(Some(25)));
    assert_eq!(canary_request(Some("300")), Ok(Some(100)));
    assert_eq!(canary_request(Some("5%")), Err(BadCanary));
    assert_eq!(canary_request(Some("")), Err(BadCanary));
    assert_eq!(canary_request(Some("-1")), Err(BadCanary));
}

#[test]
fn seen_ago_saturates() {
    assert_eq!(seen_ago(100, 40), 60);
    assert_eq!(seen_ago(40, 100), 0);
    assert_eq!(seen_ago(7, 7), 0);
}

#[test]
fn slot_files() {
    assert_eq!(slot_file("stable", PackSlot::Current), "stable.fpack");
    assert_eq!(slot_file("stable", PackSlot::Rollout), "stable.rollout.fpack");
    assert_eq!(slot_file("beta", PackSlot::Incoming), "beta.incoming");
}

#[test]
fn slot_files_of_valid_names_have_no_slash() {
    for ch in ["stable", "beta", "x-y_z"] {
        assert!(valid_channel_name(ch));
        for slot in [PackSlot::Current, PackSlot::Rollout, PackSlot::Incoming] {
            assert!(!slot_file(ch, slot).contains('/'));
        }
    }
}

#[test]
fn short_sha_cuts_at_twelve_bytes() {
    assert_eq!(short_sha("0123456789abcdef"), "0123456789ab");
    assert_eq!(short_sha("abc"), "abc");
    assert_eq!(short_sha(""), "");
}

#[test]
fn name_map_keeps_names_sorted_and_unique() {
    let mut m: NameMap<u32> = NameMap::new();
    m.insert("beta".to_string(), 1);
    m.insert("alpha".to_string(), 2);
    m.insert("stable".to_string(), 3);
    m.insert("beta".to_string(), 4);
    m.insert("Zeta".to_string(), 5);
    assert_eq!(m.len(), 4);
    let names: Vec<String> = (0..m.len()).map(|i| m.entry(i).0.clone()).collect();
    assert_eq!(names, vec!["Zeta", "alpha", "beta", "stable"]);
    assert_eq!(m.get("beta"), Some(&4));
    assert_eq!(m.get("alpha"), Some(&2));
    assert_eq!(m.get("gamma"), None);
    assert_eq!(m.locate("beta"), Ok(2));
    assert_eq!(m.locate("b"), Err(2));
    let (name, v) = m.remove_at(1);
    assert_eq!((name.as_str(), v), ("alpha", 2));
    assert_eq!(m.get("alpha"), None);
    assert_eq!(m.len(), 3);
}

#[test]
fn name_map_orders_like_a_btreemap() {
    let keys = ["b", "a", "ab", "", "é", "z", "aa", "B", "éa", "a\u{10000}"];
    let mut m: NameMap<usize> = NameMap::new();
    let mut reference = std::collections::BTreeMap::new();
    for (i, k) in keys.iter().enumerate() {
        m.insert(k.to_string(), i);
        reference.insert(k.to_string(), i);
    }
    let ours: Vec<(String, usize)> = (0..m.len()).map(|i| (m.entry(i).0.clone(), *m.entry(i).1)).collect();
    let theirs: Vec<(String, usize)> = reference.into_iter().collect();
    assert_eq!(ours, theirs);
}

#[test]
fn publish_release_and_canary() {
    let mut st = FleetState::new();
    // A canary needs a current release first.
    assert_eq!(st.publish("stable".to_string(), release("1.1", "bbb"), Some(20)), Err(PublishError::EmptyChannel));
    assert_eq!(st.channels.len(), 0);

    assert_eq!(st.publish("stable".to_string(), release("1.0", "aaa"), None), Ok(()));
    assert_eq!(st.publish("stable".to_string(), release("1.1", "bbb"), Some(50)), Ok(()));
    let c = st.channels.get("stable").unwrap();
    assert_eq!(c.current.version, "1.0");
    let r = c.rollout.as_ref().unwrap();
    assert_eq!((r.release.version.as_str(), r.percent), ("1.1", 50));

    // A plain release replaces current and clears the rollout.
    assert_eq!(st.publish("stable".to_string(), release("2.0", "ddd"), None), Ok(()));
    let c = st.channels.get("stable").unwrap();
    assert_eq!(c.current.version, "2.0");
    assert!(c.rollout.is_none());
}

#[test]
fn promote_makes_the_canary_current() {
    let mut st = FleetState::new();
    assert_eq!(st.promote("stable"), Err(PromoteError::NoSuchChannel));
    st.publish("stable".to_string(), release("1.0", "aaa"), None).unwrap();
    assert_eq!(st.promote("stable"), Err(PromoteError::NoRollout));
    st.publish("stable".to_string(), release("1.1", "bbb"), Some(10)).unwrap();
    assert_eq!(st.promote("stable"), Ok(()));
    let c = st.channels.get("stable").unwrap();
    assert_eq!(c.current.version, "1.1");
    assert!(c.rollout.is_none());
    for id in ["device-1", "device-2", "robot"] {
        assert_eq!(resolve(c, id).version, "1.1");
    }
    assert_eq!(st.promote("stable"), Err(PromoteError::NoRollout));
}

#[test]
fn abort_reverts_to_current() {
    let mut st = FleetState::new();
    assert_eq!(st.abort("stable"), Err(NoSuchChannel));
    st.publish("stable".to_string(), release("1.0", "aaa"), None).unwrap();
    assert_eq!(st.abort("stable"), Ok(false));
    st.publish("stable".to_string(), release("1.1", "bbb"), Some(100)).unwrap();
    assert_eq!(st.abort("stable"), Ok(true));
    let c = st.channels.get("stable").unwrap();
    assert_eq!(c.current.version, "1.0");
    assert!(c.rollout.is_none());
    assert_eq!(resolve(c, "robot").version, "1.0");
    assert_eq!(st.promote("stable"), Err(PromoteError::NoRollout));
}

#[test]
fn canary_then_promote_equals_release() {
    let mut a = FleetState::new();
    let mut b = FleetState::new();
    for st in [&mut a, &mut b] {
        st.publish("stable".to_string(), release("1.0", "aaa"), None).unwrap();
    }
    a.publish("stable".to_string(), release("1.1", "bbb"), Some(30)).unwrap();
    a.promote("stable").unwrap();
    b.publish("stable".to_string(), release("1.1", "bbb"), None).unwrap();
    let (ca, cb) = (a.channels.get("stable").unwrap(), b.channels.get("stable").unwrap());
    assert_eq!(ca.current.sha256, cb.current.sha256);
    assert_eq!(ca.rollout.is_none(), cb.rollout.is_none());
}

#[test]
fn channels_are_listed_in_name_order() {
    let mut st = FleetState::new();
    for name in ["stable", "beta", "alpha", "nightly"] {
        st.publish(name.to_string(), release("1.0", "aaa"), None).unwrap();
    }
    assert_eq!(channel_names(&st), vec!["alpha", "beta", "nightly", "stable"]);
}

#[test]
fn lookup_channel_answers() {
    let mut st = FleetState::new();
    assert!(st.lookup_channel("stable", None).is_none());
    st.publish("stable".to_string(), release("1.0", "aaa"), None).unwrap();
    st.publish("stable".to_string(), release("1.1", "bbb"), Some(50)).unwrap();
    match st.lookup_channel("stable", Some("device-2")) {
        Some(ChannelAnswer::ForDevice(r)) => assert_eq!(r.version, "1.1"),
        other => panic!("unexpected {other:?}"),
    }
    match st.lookup_channel("stable", Some("device-1")) {
        Some(ChannelAnswer::ForDevice(r)) => assert_eq!(r.version, "1.0"),
        other => panic!("unexpected {other:?}"),
    }
    match st.lookup_channel("stable", None) {
        Some(ChannelAnswer::Whole(c)) => assert_eq!(c.rollout.as_ref().unwrap().percent, 50),
        other => panic!("unexpected {other:?}"),
    }
}

#[test]
fn served_pack_matches_resolved_release() {
    let mut st = FleetState::new();
    st.publish("stable".to_string(), release("1.0", "aaa"), None).unwrap();
    assert!(!st.serves_canary("stable", Some("device-2")));
    st.publish("stable".to_string(), release("1.1", "bbb"), Some(50)).unwrap();
    assert!(st.serves_canary("stable", Some("device-2")));
    assert!(!st.serves_canary("stable", Some("device-1")));
    assert!(!st.serves_canary("stable", None));
    assert!(!st.serves_canary("beta", Some("device-2")));
    let c = st.channels.get("stable").unwrap();
    for id in ["device-1", "device-2", "device-3", "device-4", "device-5"] {
        let on = st.serves_canary("stable", Some(id));
        let expected = if on { "1.1" } else { "1.0" };
        assert_eq!(resolve(c, id).version, expected);
    }
}

#[test]
fn reports_are_stamped_and_replaced() {
    let mut st = FleetState::new();
    let mut rep = report("stable", "bbb", true);
    rep.device = "spoofed".to_string();
    rep.seen = 5;
    st.record_report("device-1".to_string(), rep, 1_700_000_123);
    let d = st.devices.get("device-1").unwrap();
    assert_eq!(d.device, "device-1");
    assert_eq!(d.seen, 1_700_000_123);
    assert!(d.ok);
    st.record_report("device-1".to_string(), report("stable", "bbb", false), 1_700_000_200);
    assert_eq!(st.devices.len(), 1);
    assert!(!st.devices.get("device-1").unwrap().ok);
}

#[test]
fn canary_health_counts_reports() {
    let mut st = FleetState::new();
    let h = st.canary_health("stable", "bbb");
    assert_eq!(h, CanaryHealth { reports: 0, verified: 0 });
    assert_eq!(h.class(), HealthClass::Quiet);

    st.record_report("d1".to_string(), report("stable", "bbb", true), 1);
    st.record_report("d2".to_string(), report("stable", "bbb", true), 2);
    st.record_report("d3".to_string(), report("beta", "bbb", false), 3);
    st.record_report("d4".to_string(), report("stable", "aaa", false), 4);
    let h = st.canary_health("stable", "bbb");
    assert_eq!(h, CanaryHealth { reports: 2, verified: 2 });
    assert_eq!(h.class(), HealthClass::Good);

    st.record_report("d5".to_string(), report("stable", "bbb", false), 5);
    let h = st.canary_health("stable", "bbb");
    assert_eq!(h, CanaryHealth { reports: 3, verified: 2 });
    assert_eq!(h.class(), HealthClass::Failing);
}

#[test]
fn health_classes() {
    assert_eq!(CanaryHealth { reports: 4, verified: 4 }.class(), HealthClass::Good);
    assert_eq!(CanaryHealth { reports: 4, verified: 0 }.class(), HealthClass::Failing);
    assert_eq!(CanaryHealth { reports: 0, verified: 0 }.class(), HealthClass::Quiet);
}

#[test]
fn clock_readings_become_seconds() {
    assert_eq!(epoch_seconds(Some(1_700_000_000)), 1_700_000_000);
    assert_eq!(epoch_seconds(None), 0);
}

#[test]
fn clock_reads_seconds_since_epoch() {
    let t = now();
    assert!(t > 1_600_000_000);
    assert!(now() >= t);
}

#[test]
fn a_canary_request_never_replaces_current() {
    for raw in ["5%", "300", "40", "x"] {
        let mut st = FleetState::new();
        st.publish("stable".to_string(), release("1.0", "aaa"), None).unwrap();
        if let Ok(canary) = canary_request(Some(raw)) {
            assert!(canary.is_some());
            st.publish("stable".to_string(), release("1.1", "bbb"), canary).unwrap();
        }
        assert_eq!(st.channels.get("stable").unwrap().current.version, "1.0");
    }
}
