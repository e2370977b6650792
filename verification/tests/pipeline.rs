use plotter::adsb::{connection_step, ConnectionEvent, ConnectionState};
use plotter::data::{prune_old_data, Point};
use plotter::settings::Settings;

fn at(height: u32, time: u64) -> Point {
    Point { height, time }
}

#[test]
fn connection_state_follows_events() {
    assert_eq!(connection_step(ConnectionEvent::AddressReceived), ConnectionState::Connecting);
    assert_eq!(connection_step(ConnectionEvent::ConnectSucceeded), ConnectionState::Connected);
    assert_eq!(connection_step(ConnectionEvent::ConnectFailed), ConnectionState::Disconnected);
    assert_eq!(connection_step(ConnectionEvent::ReadFailed), ConnectionState::Disconnected);
}

#[test]
fn prune_drops_only_the_stale_prefix() {
    let now: u64 = 1_000_000_000;
    let mut points = vec![
        at(1, now - 7_200_000),
        at(2, now - 3_601_000),
        at(3, now - 100_000),
        at(4, now),
    ];
    prune_old_data(&mut points, now, 3600);
    assert_eq!(points, vec![at(3, now - 100_000), at(4, now)]);
}

#[test]
fn prune_age_boundary_is_exclusive() {
    let now: u64 = 500_000_000;
    let mut points = vec![at(1, now - 3_600_000)];
    prune_old_data(&mut points, now, 3600);
    assert_eq!(points, vec![at(1, now - 3_600_000)]);
}

#[test]
fn prune_keeps_points_from_the_future() {
    let now: u64 = 900_000_000;
    let mut points = vec![at(1, now + 5_000), at(2, now + 6_000)];
    prune_old_data(&mut points, now, 60);
    assert_eq!(points.len(), 2);
}

#[test]
fn prune_empties_a_fully_stale_buffer() {
    let now: u64 = 800_000_000;
    let mut points = vec![at(1, 0), at(2, 1000)];
    prune_old_data(&mut points, now, 3600);
    assert_eq!(points, vec![]);
}

#[test]
fn default_settings_values() {
    let s = Settings::default();
    assert_eq!(s.hostname.as_str(), "192.168.2.48:30002");
    assert!(s.show_axis);
    assert_eq!(s.max_data_age, 3600);
    assert_eq!(s.max_display_age, 600);
    assert_eq!(s.min_display_height, 0);
    assert_eq!(s.max_display_height, 70_000);
}

#[test]
fn age_rule_raises_data_age_to_display_age() {
    let mut s = Settings::default();
    s.max_display_age = 7200;
    s.enforce_age_rule();
    assert_eq!(s.max_data_age, 7200);
    let mut unchanged = Settings::default();
    unchanged.enforce_age_rule();
    assert_eq!(unchanged.max_data_age, 3600);
}
