use heartbeat_rs::api::{authorize, get_devices, post_beat, update_device, update_stats, ApiError};
use heartbeat_rs::context::ServerContext;
use heartbeat_rs::detector::{current_state, gap, is_overdue, longest_gap_candidate, DeviceState};
use heartbeat_rs::model::{saturate_i64, Info};
use heartbeat_rs::order::compare_bytes;
use heartbeat_rs::registry::DeviceRegistry;
use heartbeat_rs::stats::aggregate;

fn ctx() -> ServerContext {
    ServerContext::new(String::from("secret"))
}

#[test]
fn context_keeps_token() {
    let c = ctx();
    assert_eq!(c.auth_token, "secret");
}

#[test]
fn token_check_is_exact() {
    let c = ctx();
    assert!(c.is_authed(b"secret").is_ok());
    assert_eq!(c.is_authed(b"secreT"), Err(String::from("Token Invalid")));
    assert_eq!(c.is_authed(b"secret2"), Err(String::from("Token Invalid")));
    assert_eq!(c.is_authed(b""), Err(String::from("Token Invalid")));
}

#[test]
fn missing_auth_header_is_bad_request() {
    let c = ctx();
    assert_eq!(authorize(&c, None), Err(ApiError::BadRequest));
    assert_eq!(authorize(&c, Some(&b"nope"[..])), Err(ApiError::Unauthenticated));
    assert_eq!(authorize(&c, Some(&b"secret"[..])), Ok(()));
}

#[test]
fn info_starts_empty() {
    let i = Info::new();
    assert_eq!(i.last_seen, "");
    assert_eq!(i.time_difference, "");
    assert_eq!(i.missing_beat, "");
    assert_eq!(i.total_beats, "");
}

#[test]
fn beats_in_order_are_all_counted() {
    let mut r = DeviceRegistry::new(1000);
    let stamps: [i64; 5] = [-7, 3, 4, 100, 5000];
    for (n, t) in stamps.iter().enumerate() {
        let (ok, d) = r.record_beat(String::from("dev"), *t);
        assert!(ok);
        assert_eq!(d.total_beats, n as u64 + 1);
        assert_eq!(d.last_beat, *t);
    }
    let d = r.get_device(&String::from("dev")).unwrap();
    assert_eq!(d.total_beats, 5);
    assert_eq!(d.last_beat, 5000);
    assert_eq!(d.first_beat, -7);
}

#[test]
fn stale_beat_is_rejected_without_change() {
    let mut r = DeviceRegistry::new(1000);
    r.record_beat(String::from("dev"), 10);
    r.record_beat(String::from("dev"), 500);
    for t in [500i64, 499, -1] {
        let (ok, d) = r.record_beat(String::from("dev"), t);
        assert!(!ok);
        assert_eq!(d.total_beats, 2);
        assert_eq!(d.last_beat, 500);
        assert_eq!(d.longest_gap, 490);
    }
    assert_eq!(r.len(), 1);
}

#[test]
fn longest_gap_never_shrinks() {
    let mut r = DeviceRegistry::new(100);
    let name = String::from("dev");
    r.record_beat(name.clone(), 0);
    r.record_beat(name.clone(), 50);
    assert_eq!(r.get_device(&name).unwrap().longest_gap, 50);
    assert!(r.refresh_overdue(&name, 400));
    let d = r.get_device(&name).unwrap();
    assert_eq!(d.longest_gap, 350);
    assert_eq!(d.state, DeviceState::Overdue);
    r.sweep(300);
    assert_eq!(r.get_device(&name).unwrap().longest_gap, 350);
    r.record_beat(name.clone(), 420);
    let d = r.get_device(&name).unwrap();
    assert_eq!(d.longest_gap, 370);
    assert_eq!(d.state, DeviceState::Alive);
    r.record_beat(name.clone(), 430);
    assert_eq!(r.get_device(&name).unwrap().longest_gap, 370);
}

#[test]
fn overdue_is_strictly_after_interval() {
    let t: i64 = 1_700_000_000_000;
    assert!(!is_overdue(t, 10_000, t + 10_000));
    assert!(is_overdue(t, 10_000, t + 10_001));
    assert_eq!(current_state(Some(t), 10_000, t + 10_000), DeviceState::Alive);
    assert_eq!(current_state(Some(t), 10_000, t + 10_001), DeviceState::Overdue);
    assert_eq!(current_state(None, 10_000, t), DeviceState::New);
    assert!(!is_overdue(t, 10_000, t - 50_000));
}

#[test]
fn gap_spans_whole_i64_range() {
    assert_eq!(gap(i64::MIN, i64::MAX), u64::MAX);
    assert_eq!(gap(-5, 5), 10);
    assert_eq!(longest_gap_candidate(7, 3), 7);
    assert_eq!(longest_gap_candidate(7, 9), 9);
}

#[test]
fn sweep_marks_only_overdue_devices() {
    let mut r = DeviceRegistry::new(10_000);
    r.record_beat(String::from("a"), 0);
    r.record_beat(String::from("b"), 5_000);
    r.sweep(15_000);
    let a = r.get_device(&String::from("a")).unwrap();
    let b = r.get_device(&String::from("b")).unwrap();
    assert_eq!(a.state, DeviceState::Overdue);
    assert_eq!(a.longest_gap, 15_000);
    assert_eq!(b.state, DeviceState::Alive);
    assert_eq!(b.longest_gap, 0);
}

#[test]
fn devices_are_listed_by_name() {
    let mut r = DeviceRegistry::new(10);
    for n in ["pump", "alpha", "zeta", "Beta", "alp"] {
        r.record_beat(String::from(n), 1);
    }
    let names: Vec<String> = r.list_devices().into_iter().map(|d| d.name).collect();
    assert_eq!(names, vec!["Beta", "alp", "alpha", "pump", "zeta"]);
    assert!(r.get_device(&String::from("missing")).is_none());
}

#[test]
fn byte_order_comparison() {
    assert!(compare_bytes(b"abc", b"abd") < 0);
    assert!(compare_bytes(b"abd", b"abc") > 0);
    assert!(compare_bytes(b"ab", b"abc") < 0);
    assert_eq!(compare_bytes(b"abc", b"abc"), 0);
    assert_eq!(compare_bytes(b"", b""), 0);
}

#[test]
fn stats_sum_and_max_over_devices() {
    let mut r = DeviceRegistry::new(10_000);
    r.record_beat(String::from("a"), 0);
    r.record_beat(String::from("a"), 5_000);
    r.record_beat(String::from("a"), 20_000);
    r.record_beat(String::from("b"), 1_000);
    r.record_beat(String::from("b"), 3_000);
    let s = r.stats(30_000);
    assert_eq!(s.total_visits, 2);
    assert_eq!(s.total_beats, 5);
    assert_eq!(s.longest_missing_beat, 15_000);
    // a: 30000 - 15000 overdue; b: 29000 with no closed overdue gap
    assert_eq!(s.total_uptime_milli, 15_000 + 29_000);
    assert!(s.total_beats_formatted.is_none());
    let same = aggregate(&r.list_devices(), 30_000);
    assert_eq!(same.total_beats, s.total_beats);
    assert_eq!(same.total_uptime_milli, s.total_uptime_milli);
}

#[test]
fn stats_of_empty_registry() {
    let r = DeviceRegistry::new(10);
    let s = r.stats(0);
    assert_eq!(s.total_visits, 0);
    assert_eq!(s.total_beats, 0);
    assert_eq!(s.total_uptime_milli, 0);
    assert_eq!(s.longest_missing_beat, 0);
}

#[test]
fn uptime_never_negative() {
    let mut r = DeviceRegistry::new(10);
    let (_, d) = r.record_beat(String::from("a"), 100);
    assert_eq!(d.uptime(50), 0);
    assert_eq!(d.uptime(160), 60);
}

#[test]
fn saturating_conversion() {
    assert_eq!(saturate_i64(u64::MAX), i64::MAX);
    assert_eq!(saturate_i64(42), 42);
}

#[test]
fn sensor_end_to_end() {
    let c = ctx();
    let mut r = DeviceRegistry::new(10_000);
    let auth: &[u8] = b"secret";
    for (t, n) in [(0i64, 1u64), (5_000, 2), (20_000, 3)] {
        let seq = post_beat(&c, &mut r, Some(auth), Some(String::from("sensor-1")), t);
        assert_eq!(seq, Ok(n));
    }
    let d = r.get_device(&String::from("sensor-1")).unwrap();
    assert_eq!(d.longest_gap, 15_000);
    assert_eq!(d.total_beats, 3);
    let list = get_devices(&c, &r, Some(auth)).ok().unwrap();
    assert_eq!(list.len(), 1);
    assert_eq!(list[0].device_name, "sensor-1");
    assert_eq!(list[0].last_beat.device_name, "sensor-1");
    assert_eq!(list[0].last_beat.timestamp, 20_000);
    assert_eq!(list[0].longest_missing_beat, 15_000);
    assert_eq!(list[0].total_beats, 3);
}

#[test]
fn unauthenticated_device_list_touches_nothing() {
    let c = ctx();
    let mut r = DeviceRegistry::new(10_000);
    r.record_beat(String::from("sensor-1"), 0);
    let refused = get_devices(&c, &r, Some(&b"wrong"[..]));
    assert!(matches!(refused, Err(ApiError::Unauthenticated)));
    let refused = post_beat(&c, &mut r, Some(&b"wrong"[..]), Some(String::from("sensor-1")), 9);
    assert_eq!(refused, Err(ApiError::Unauthenticated));
    let d = r.get_device(&String::from("sensor-1")).unwrap();
    assert_eq!(d.total_beats, 1);
    assert_eq!(d.last_beat, 0);
    assert_eq!(r.len(), 1);
}

#[test]
fn beat_without_device_header() {
    let c = ctx();
    let mut r = DeviceRegistry::new(10);
    assert_eq!(post_beat(&c, &mut r, Some(&b"secret"[..]), None, 1), Err(ApiError::BadRequest));
    assert_eq!(post_beat(&c, &mut r, None, Some(String::from("x")), 1), Err(ApiError::BadRequest));
    assert_eq!(r.len(), 0);
}

#[test]
fn stale_beat_is_acknowledged() {
    let c = ctx();
    let mut r = DeviceRegistry::new(10);
    let auth: &[u8] = b"secret";
    assert_eq!(post_beat(&c, &mut r, Some(auth), Some(String::from("x")), 5), Ok(1));
    assert_eq!(post_beat(&c, &mut r, Some(auth), Some(String::from("x")), 5), Ok(1));
    assert_eq!(post_beat(&c, &mut r, Some(auth), Some(String::from("x")), 6), Ok(2));
}

#[test]
fn update_device_refreshes_and_reports() {
    let c = ctx();
    let mut r = DeviceRegistry::new(10);
    let auth: &[u8] = b"secret";
    r.record_beat(String::from("x"), 0);
    let d = update_device(&c, &mut r, Some(auth), Some(String::from("x")), 25).ok().unwrap();
    assert_eq!(d.longest_missing_beat, 25);
    assert!(matches!(
        update_device(&c, &mut r, Some(auth), Some(String::from("y")), 25),
        Err(ApiError::NotFound)
    ));
    assert!(matches!(update_device(&c, &mut r, Some(auth), None, 25), Err(ApiError::BadRequest)));
    assert_eq!(r.get_device(&String::from("x")).unwrap().state, DeviceState::Overdue);
}

#[test]
fn update_stats_sweeps_first() {
    let c = ctx();
    let mut r = DeviceRegistry::new(10);
    r.record_beat(String::from("x"), 0);
    let s = update_stats(&c, &mut r, Some(&b"secret"[..]), 40).ok().unwrap();
    assert_eq!(s.longest_missing_beat, 40);
    assert_eq!(s.total_beats, 1);
    assert!(matches!(update_stats(&c, &mut r, Some(&b"bad"[..]), 40), Err(ApiError::Unauthenticated)));
}

#[test]
fn last_seen_is_latest_beat() {
    let mut r = DeviceRegistry::new(10);
    assert_eq!(r.last_seen(), None);
    r.record_beat(String::from("a"), 70);
    r.record_beat(String::from("b"), 30);
    r.record_beat(String::from("c"), -5);
    assert_eq!(r.last_seen(), Some(70));
}
