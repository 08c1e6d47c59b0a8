use monad::deploy_state::{
    civil_from_days, now_rfc3339, rfc3339, DeployRecord, DeployState, DEFAULT_ENV_KEY,
};
use monad::strmap::StrMap;

fn empty() -> DeployState {
    DeployState { envs: StrMap::new() }
}

fn record(hash: &str, at: &str, url: Option<&str>) -> DeployRecord {
    DeployRecord {
        input_hash: hash.into(),
        deployed_at: at.into(),
        deploy_url: url.map(String::from),
    }
}

#[test]
fn path_for_resolves_under_workspace_root() {
    assert_eq!(
        DeployState::path_for("/tmp/monad-test"),
        "/tmp/monad-test/.monad/state/deploys.json"
    );
}

#[test]
fn entry_key_joins_unit_and_task() {
    assert_eq!(
        DeployState::entry_key("dashboard", "cloudflare_pages:deploy"),
        "dashboard:cloudflare_pages:deploy"
    );
}

#[test]
fn roundtrip_preserves_records_and_segregates_envs() {
    let mut state = empty();
    state.set(
        Some("prod"),
        "dashboard",
        "cloudflare_pages:deploy",
        record("abc123", "2026-04-19T12:00:00Z", Some("https://example.pages.dev")),
    );
    state.set(
        None,
        "dashboard",
        "cloudflare_pages:deploy",
        record("def456", "2026-04-19T12:01:00Z", None),
    );

    assert_eq!(
        state
            .get(Some("prod"), "dashboard", "cloudflare_pages:deploy")
            .unwrap()
            .input_hash,
        "abc123"
    );
    assert_eq!(
        state
            .get(None, "dashboard", "cloudflare_pages:deploy")
            .unwrap()
            .input_hash,
        "def456"
    );
    assert!(state
        .get(Some("staging"), "dashboard", "cloudflare_pages:deploy")
        .is_none());
}

#[test]
fn the_default_environment_has_a_name_of_its_own() {
    let mut state = empty();
    state.set(None, "d", "t", record("h", "2026-04-19T00:00:00Z", None));
    assert!(state.envs.contains_key(DEFAULT_ENV_KEY));
    assert_eq!(
        state.get(Some(DEFAULT_ENV_KEY), "d", "t").unwrap().input_hash,
        "h"
    );
}

#[test]
fn a_later_record_takes_the_place_of_an_earlier_one() {
    let mut state = empty();
    state.set(Some("prod"), "d", "t", record("one", "2026-04-19T00:00:00Z", None));
    state.set(Some("prod"), "d", "t", record("two", "2026-04-20T00:00:00Z", None));
    state.set(Some("prod"), "d", "other", record("three", "2026-04-20T00:00:00Z", None));
    assert_eq!(state.get(Some("prod"), "d", "t").unwrap().input_hash, "two");
    assert!(state.unchanged(Some("prod"), "d", "t", "one").is_none());
    assert_eq!(
        state.unchanged(Some("prod"), "d", "t", "two").unwrap().deployed_at,
        "2026-04-20T00:00:00Z"
    );
}

#[test]
fn now_rfc3339_is_rfc3339_shaped() {
    let s = now_rfc3339();
    assert_eq!(s.len(), 20, "expected 2026-04-19T12:34:56Z shape, got {s:?}");
    assert_eq!(s.as_bytes()[4], b'-');
    assert_eq!(s.as_bytes()[7], b'-');
    assert_eq!(s.as_bytes()[10], b'T');
    assert_eq!(s.as_bytes()[13], b':');
    assert_eq!(s.as_bytes()[16], b':');
    assert_eq!(s.as_bytes()[19], b'Z');
}

#[test]
fn civil_from_days_known_epoch_points() {
    assert_eq!(civil_from_days(0), (1970, 1, 1));
    assert_eq!(civil_from_days(20_562), (2026, 4, 19));
}

#[test]
fn civil_from_days_knows_leap_days() {
    assert_eq!(civil_from_days(11_016), (2000, 2, 29));
    assert_eq!(civil_from_days(11_017), (2000, 3, 1));
    assert_eq!(civil_from_days(-1), (1969, 12, 31));
}

#[test]
fn rfc3339_shows_seconds_since_1970() {
    assert_eq!(rfc3339(0), "1970-01-01T00:00:00Z");
    assert_eq!(rfc3339(1_776_601_296), "2026-04-19T12:21:36Z");
}
