use server_registry::{
    bearer_token, elapsed, evaluate_token, garbage_cleanup, get_auth_headers, logout, register,
    starts_with, AuthHeaders, RouteError, ServerState, Servers,
};

fn headers(token: &str, id: &str) -> AuthHeaders {
    AuthHeaders { auth_token: token.to_string(), server_id: id.to_string() }
}

#[test]
fn scenario_register_conflict_logout_twice() {
    let mut state = ServerState::new("abc123");
    let h = headers("Bearer abc123", "srv-1");
    assert_eq!(register(&mut state, &h, 100), Ok(()));
    assert_eq!(register(&mut state, &h, 101), Err(RouteError::AlreadyConnected));
    assert_eq!(logout(&mut state, &h), Ok(()));
    assert_eq!(logout(&mut state, &h), Err(RouteError::AlreadyLoggedOut));
}

#[test]
fn register_is_unique_for_one_id() {
    let mut state = ServerState::new("s");
    let h = headers("Bearer s", "a");
    let results: Vec<_> = (0..5u64).map(|t| register(&mut state, &h, t)).collect();
    assert_eq!(results.iter().filter(|r| r.is_ok()).count(), 1);
    assert_eq!(results[0], Ok(()));
    for r in &results[1..] {
        assert_eq!(*r, Err(RouteError::AlreadyConnected));
    }
    assert_eq!(state.connected_servers.server_info("a").unwrap().last_activity, 0);
}

#[test]
fn logout_of_unknown_id_is_idempotent() {
    let mut state = ServerState::new("s");
    let other = headers("Bearer s", "other");
    assert_eq!(register(&mut state, &other, 7), Ok(()));
    let h = headers("Bearer s", "ghost");
    for _ in 0..4 {
        assert_eq!(logout(&mut state, &h), Err(RouteError::AlreadyLoggedOut));
    }
    assert!(state.connected_servers.contains("other"));
    assert!(!state.connected_servers.contains("ghost"));
}

#[test]
fn register_logout_round_trip() {
    let mut state = ServerState::new("s");
    let h = headers("Bearer s", "srv");
    assert_eq!(register(&mut state, &h, 10), Ok(()));
    assert!(state.connected_servers.contains("srv"));
    assert_eq!(logout(&mut state, &h), Ok(()));
    assert!(!state.connected_servers.contains("srv"));
    assert_eq!(register(&mut state, &h, 20), Ok(()));
    assert_eq!(state.connected_servers.server_info("srv").unwrap().last_activity, 20);
}

#[test]
fn eviction_happens_at_first_sweep_past_timeout() {
    let mut servers = Servers::new();
    assert!(servers.try_insert("w".to_string(), 1000));
    let timeout = 300;
    assert!(garbage_cleanup(&mut servers, 1000, timeout).is_empty());
    assert!(servers.contains("w"));
    assert!(garbage_cleanup(&mut servers, 1299, timeout).is_empty());
    assert!(servers.contains("w"));
    let ev = garbage_cleanup(&mut servers, 1300, timeout);
    assert_eq!(ev.len(), 1);
    assert_eq!(ev[0].server_id, "w");
    assert_eq!(ev[0].inactive_for, 300);
    assert!(!servers.contains("w"));
}

#[test]
fn sweep_removes_only_stale_entries() {
    let mut servers = Servers::new();
    assert!(servers.try_insert("old".to_string(), 0));
    assert!(servers.try_insert("new".to_string(), 500));
    assert!(servers.try_insert("future".to_string(), 900));
    let ev = garbage_cleanup(&mut servers, 600, 300);
    assert_eq!(ev.len(), 1);
    assert_eq!(ev[0].server_id, "old");
    assert_eq!(ev[0].inactive_for, 600);
    assert!(!servers.contains("old"));
    assert!(servers.contains("new"));
    assert!(servers.contains("future"));
    assert_eq!(servers.snapshot().len(), 2);
}

#[test]
fn sweep_with_zero_timeout_evicts_everything() {
    let mut servers = Servers::new();
    assert!(servers.try_insert("a".to_string(), 50));
    assert!(servers.try_insert("b".to_string(), 10));
    let mut ev = garbage_cleanup(&mut servers, 10, 0);
    ev.sort_by(|x, y| x.server_id.cmp(&y.server_id));
    assert_eq!(ev.len(), 2);
    assert_eq!(ev[0].server_id, "a");
    assert_eq!(ev[0].inactive_for, 0);
    assert_eq!(ev[1].server_id, "b");
    assert!(servers.snapshot().is_empty());
}

#[test]
fn sweep_of_empty_registry() {
    let mut servers = Servers::new();
    assert!(garbage_cleanup(&mut servers, u64::MAX, 1).is_empty());
    assert!(servers.snapshot().is_empty());
}

#[test]
fn logout_racing_sweep_removes_once() {
    // sweep first, then logout
    let mut a = ServerState::new("s");
    let h = headers("Bearer s", "x");
    assert_eq!(register(&mut a, &h, 0), Ok(()));
    let ev = garbage_cleanup(&mut a.connected_servers, 400, 300);
    assert_eq!(ev.len(), 1);
    assert_eq!(logout(&mut a, &h), Err(RouteError::AlreadyLoggedOut));
    assert!(!a.connected_servers.contains("x"));
    // logout first, then sweep
    let mut b = ServerState::new("s");
    assert_eq!(register(&mut b, &h, 0), Ok(()));
    assert_eq!(logout(&mut b, &h), Ok(()));
    assert!(garbage_cleanup(&mut b.connected_servers, 400, 300).is_empty());
    assert!(!b.connected_servers.contains("x"));
}

#[test]
fn gate_accepts_only_exact_token() {
    let state = ServerState::new("abc123");
    assert_eq!(state.auth_token, "Bearer abc123");
    assert_eq!(evaluate_token(&state, &headers("Bearer abc123", "i")), Ok(()));
    for bad in ["abc123", "Bearer abc1234", "Bearer abc12", "bearer abc123", "Bearer  abc123", "", "Bearer "] {
        assert_eq!(evaluate_token(&state, &headers(bad, "i")), Err(RouteError::Forbidden));
    }
}

#[test]
fn forbidden_request_leaves_registry_alone() {
    let mut state = ServerState::new("abc123");
    let bad = headers("Bearer nope", "srv-1");
    assert_eq!(register(&mut state, &bad, 1), Err(RouteError::Forbidden));
    assert!(!state.connected_servers.contains("srv-1"));
    let good = headers("Bearer abc123", "srv-1");
    assert_eq!(register(&mut state, &good, 1), Ok(()));
    assert_eq!(logout(&mut state, &bad), Err(RouteError::Forbidden));
    assert!(state.connected_servers.contains("srv-1"));
}

#[test]
fn bearer_token_adds_marker_once() {
    assert_eq!(bearer_token("abc"), "Bearer abc");
    assert_eq!(bearer_token("Bearer abc"), "Bearer abc");
    assert_eq!(bearer_token(""), "Bearer ");
    let state = ServerState::new("Bearer xyz");
    assert_eq!(evaluate_token(&state, &headers("Bearer xyz", "i")), Ok(()));
}

#[test]
fn starts_with_cases() {
    assert!(starts_with("Bearer x", "Bearer "));
    assert!(starts_with("abc", ""));
    assert!(!starts_with("Bear", "Bearer "));
    assert!(!starts_with("bearer x", "Bearer "));
    assert!(starts_with("äöü", "äö"));
}

#[test]
fn auth_headers_need_both_values() {
    let h = get_auth_headers(Some("Bearer t"), Some("job-9")).unwrap();
    assert_eq!(h.auth_token, "Bearer t");
    assert_eq!(h.server_id, "job-9");
    assert_eq!(get_auth_headers(None, Some("job-9")).err(), Some(RouteError::PreconditionFailed));
    assert_eq!(get_auth_headers(Some("Bearer t"), None).err(), Some(RouteError::PreconditionFailed));
    assert_eq!(get_auth_headers(None, None).err(), Some(RouteError::PreconditionFailed));
}

#[test]
fn store_insert_remove_contains() {
    let mut servers = Servers::new();
    assert!(!servers.contains("k"));
    assert!(servers.try_insert("k".to_string(), 5));
    assert!(!servers.try_insert("k".to_string(), 9));
    assert_eq!(servers.server_info("k").unwrap().last_activity, 5);
    assert!(servers.server_info("j").is_none());
    let snap = servers.snapshot();
    assert_eq!(snap, vec![("k".to_string(), 5)]);
    assert!(servers.try_remove("k"));
    assert!(!servers.try_remove("k"));
    assert!(!servers.contains("k"));
}

#[test]
fn elapsed_saturates() {
    assert_eq!(elapsed(10, 25), 15);
    assert_eq!(elapsed(25, 10), 0);
    assert_eq!(elapsed(0, u64::MAX), u64::MAX);
}
