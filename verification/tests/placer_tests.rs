use ftplace::cooldown::calculate_wait_interval;
use ftplace::placer::{
    interpret_response, refresh_credentials, Auth, CellPlacement, CellState, PlaceOutcome,
};
use ftplace::reconcile::Target;
use ftplace::{BATCH_DELAY_MINUTES, MAX_PLACEMENT_RETRIES};

fn bytes(s: &str) -> Vec<u8> {
    s.as_bytes().to_vec()
}

fn auth() -> Auth {
    Auth {
        refresh_token: "r0".to_string(),
        token: "t0".to_string(),
    }
}

#[test]
fn wait_is_one_second_past_the_earliest_future_timer() {
    // 1970-01-01T00:01:40Z is 100 000 ms after the epoch.
    let timers = vec![bytes("1970-01-01T00:01:40Z")];
    assert_eq!(calculate_wait_interval(&timers, 0), 101);
}

#[test]
fn wait_picks_the_earliest_future_timer() {
    let timers = vec![
        bytes("1970-01-01T00:03:20Z"),
        bytes("not a timestamp"),
        bytes("1970-01-01T00:01:40Z"),
    ];
    assert_eq!(calculate_wait_interval(&timers, 0), 101);
}

#[test]
fn wait_ignores_past_timers() {
    // A timer in the past yields the fallback batch delay, even though a
    // later entry parses.
    let timers = vec![bytes("1970-01-01T00:00:01Z")];
    assert_eq!(
        calculate_wait_interval(&timers, 100_000),
        BATCH_DELAY_MINUTES * 60
    );
}

#[test]
fn wait_falls_back_without_parseable_timers() {
    assert_eq!(
        calculate_wait_interval(&Vec::new(), 0),
        BATCH_DELAY_MINUTES * 60
    );
    let timers = vec![bytes("garbage")];
    assert_eq!(calculate_wait_interval(&timers, 0), BATCH_DELAY_MINUTES * 60);
}

#[test]
fn wait_handles_subsecond_margins() {
    let timers = vec![bytes("1970-01-01T00:00:00.500Z")];
    assert_eq!(calculate_wait_interval(&timers, 0), 1);
}

#[test]
fn wait_honors_offsets() {
    // 01:01:40 at +01:00 is 100 000 ms after the epoch.
    let timers = vec![bytes("1970-01-01T01:01:40+01:00")];
    assert_eq!(calculate_wait_interval(&timers, 0), 101);
}

#[test]
fn success_without_timers_is_placed() {
    let mut a = auth();
    let out = interpret_response(200, &Vec::new(), &bytes(r#"{"timers":[]}"#), 0, &mut a);
    assert_eq!(out, PlaceOutcome::Placed { cooldown: None });
    assert_eq!(a.token, "t0");
}

#[test]
fn success_with_unreadable_body_is_placed() {
    let mut a = auth();
    let out = interpret_response(204, &Vec::new(), &bytes(""), 0, &mut a);
    assert_eq!(out, PlaceOutcome::Placed { cooldown: None });
}

#[test]
fn success_with_timers_carries_a_cooldown() {
    let mut a = auth();
    let body = bytes(r#"{"timers":["1970-01-01T00:01:40Z"]}"#);
    let out = interpret_response(200, &Vec::new(), &body, 0, &mut a);
    assert_eq!(out, PlaceOutcome::Placed { cooldown: Some(101) });
}

#[test]
fn too_early_is_rate_limited() {
    let mut a = auth();
    let body = bytes(r#"{"message":"Too early","timers":["1970-01-01T00:01:40Z"]}"#);
    let out = interpret_response(425, &Vec::new(), &body, 0, &mut a);
    assert_eq!(out, PlaceOutcome::RateLimited { cooldown: 101 });
    assert_eq!(a.token, "t0");
}

#[test]
fn other_failures_are_rejected() {
    let mut a = auth();
    let body = bytes(r#"{"message":"forbidden","timers":[]}"#);
    assert_eq!(
        interpret_response(403, &Vec::new(), &body, 0, &mut a),
        PlaceOutcome::Rejected
    );
    assert_eq!(
        interpret_response(500, &Vec::new(), &bytes("oops"), 0, &mut a),
        PlaceOutcome::Rejected
    );
}

#[test]
fn expiry_refreshes_credentials_in_place() {
    let mut a = auth();
    let cookies = vec![
        bytes("token=newtok; Path=/; HttpOnly"),
        bytes("refresh=newref; Path=/"),
    ];
    let out = interpret_response(426, &cookies, &bytes(""), 0, &mut a);
    assert_eq!(out, PlaceOutcome::NeedsRefresh);
    assert_eq!(a.token, "newtok");
    assert_eq!(a.refresh_token, "newref");
}

#[test]
fn later_cookie_entries_win() {
    let mut a = auth();
    let cookies = vec![bytes("token=first"), bytes("token=second")];
    refresh_credentials(&mut a, &cookies);
    assert_eq!(a.token, "second");
    assert_eq!(a.refresh_token, "r0");
}

#[test]
fn unrelated_cookies_change_nothing() {
    let mut a = auth();
    let cookies = vec![bytes("session=abc; Path=/"), bytes("Path=/; token=hidden")];
    refresh_credentials(&mut a, &cookies);
    assert_eq!(a.token, "t0");
    assert_eq!(a.refresh_token, "r0");
}

#[test]
fn invalid_utf8_cookie_value_is_ignored() {
    let mut a = auth();
    let mut cookie = b"token=".to_vec();
    cookie.push(0xff);
    refresh_credentials(&mut a, &vec![cookie]);
    assert_eq!(a.token, "t0");
}

#[test]
fn refresh_is_transparent_to_the_retry_counter() {
    // One expiry response followed by a success: exactly one successful
    // placement, and the expiry round-trip costs no retry.
    let t = Target { x: 1, y: 2, color: 3 };
    let mut cell = CellPlacement::start(t);
    cell.on_outcome(&PlaceOutcome::NeedsRefresh);
    assert_eq!(cell.state, CellState::Pending);
    assert_eq!(cell.retries, 0);
    cell.on_outcome(&PlaceOutcome::Placed { cooldown: Some(7) });
    assert_eq!(
        cell.state,
        CellState::Done { placed: true, cooldown: Some(7) }
    );
    assert_eq!(cell.retries, 0);
}

#[test]
fn rate_limit_settles_the_cell_unplaced() {
    let mut cell = CellPlacement::start(Target { x: 0, y: 0, color: 1 });
    cell.on_outcome(&PlaceOutcome::RateLimited { cooldown: 30 });
    assert_eq!(
        cell.state,
        CellState::Done { placed: false, cooldown: Some(30) }
    );
    assert_eq!(cell.retries, 0);
}

#[test]
fn rejections_are_bounded() {
    let mut cell = CellPlacement::start(Target { x: 0, y: 0, color: 1 });
    let mut attempts = 0;
    while cell.state == CellState::Pending {
        cell.on_outcome(&PlaceOutcome::Rejected);
        attempts += 1;
    }
    assert_eq!(attempts, MAX_PLACEMENT_RETRIES);
    assert_eq!(
        cell.state,
        CellState::Done { placed: false, cooldown: None }
    );
}

#[test]
fn expiry_then_success_places_exactly_once() {
    let mut a = auth();
    let mut cell = CellPlacement::start(Target { x: 0, y: 0, color: 1 });
    let cookies = vec![bytes("token=t1; Path=/"), bytes("refresh=r1; Path=/")];
    let first = interpret_response(426, &cookies, &bytes(""), 0, &mut a);
    cell.on_outcome(&first);
    assert_eq!(cell.state, CellState::Pending);
    assert_eq!(cell.retries, 0);
    assert_eq!(a.token, "t1");
    assert_eq!(a.refresh_token, "r1");
    let second = interpret_response(200, &Vec::new(), &bytes(r#"{"timers":[]}"#), 0, &mut a);
    cell.on_outcome(&second);
    assert_eq!(cell.state, CellState::Done { placed: true, cooldown: None });
    assert_eq!(cell.retries, 0);
}
