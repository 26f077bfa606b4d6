use treehouse_core::env::InMemoryEnv;
use treehouse_core::lease::{
    clear_lease as lease_clear, lease_info_from_entry, mark_acquired_lease, Lease, LeaseError,
};
use treehouse_core::process::{
    terminate_step, ProcessInfo, ProcessRecord, ProcessTable, TerminateStep, TERMINATE_GRACE_MS,
};
use treehouse_core::path::{
    components, file_name, is_inside, join, parent, path_before, pathdiff_rel, same_path,
};
use treehouse_core::reservation::{
    heal_owner as reservation_heal, owner_alive as reservation_alive, Reservation, ReservationError,
    ReservationKind,
};
use treehouse_core::result::{CommandResult, GetResult};
use treehouse_core::state::{
    clear_lease, heal_owner, heal_state, lease_id_from, new_lease_id, owner_alive,
    recover_corrupt_state, recovery_warning, GitProbe, Slot, SlotChild, State, StateError, StateFile,
    WireEntry, WorktreeEntry, RECOVERED_LEASE_HOLDER,
};
use treehouse_core::state_file::{parse_state, state_bytes, state_from_value};
use treehouse_core::time::{
    deserialize, is_longer_ago, parse_rfc3339, rfc3339, serialize, Span, Timestamp,
};

fn dt(s: &str) -> Timestamp {
    parse_rfc3339(s).unwrap()
}

fn now() -> Timestamp {
    dt("2026-08-14T12:00:00Z")
}

fn process(pid: i32, parent: Option<i32>, start_secs: u64, cwd: Option<&str>, name: &str) -> ProcessRecord {
    ProcessRecord::new(pid, parent, start_secs, cwd.map(|s| s.to_string()), name.to_string())
}

fn table() -> ProcessTable {
    ProcessTable::new(vec![
        process(1, Some(0), 1_700_000_000, Some("/"), "init"),
        process(100, Some(1), 1_725_000_000, Some("/pool/1/app/src"), "editor"),
        process(200, Some(100), 1_725_000_100, Some("/home/u"), "shell"),
        process(300, Some(999), 1_725_000_200, None, "lost"),
    ])
}

fn text_of(s: &State) -> String {
    String::from_utf8(state_bytes(s)).unwrap()
}

fn minimal(name: &str, path: &str) -> WorktreeEntry {
    WorktreeEntry {
        name: name.into(),
        path: path.into(),
        created_at: dt("2026-07-20T12:00:00Z"),
        ..WorktreeEntry::default()
    }
}

fn full() -> State {
    State {
        worktrees: vec![WorktreeEntry {
            name: "4".into(),
            path: "/pool/4/myrepo".into(),
            created_at: dt("2026-08-14T12:34:56.123456789Z"),
            destroying: true,
            owner_pid: 1234,
            owner_started_at: 1_725_000_000_000,
            leased: true,
            lease_id: "9f2c1e04a7b3d5c8e6f10293a4b5c6d7".into(),
            lease_holder: "automation-A".into(),
            leased_at: dt("2026-08-14T12:34:56.123456789Z"),
            expires_at: dt("2026-08-14T13:04:56.123456789Z"),
        }],
    }
}

fn slot(name: &str, child: &str, git: GitProbe) -> Result<Slot, String> {
    Ok(Slot {
        name: name.into(),
        is_dir: Ok(true),
        children: Ok(vec![Ok(SlotChild { name: child.into(), is_dir: Ok(true), git })]),
    })
}

#[test]
fn serializes_go_style_minimal_entry() {
    let json = text_of(&State { worktrees: vec![minimal("1", "/pool/1/myrepo")] });
    assert!(!json.contains("owner_pid"), "unexpected owner_pid: {json}");
    assert!(!json.contains("lease_id"), "unexpected lease_id: {json}");
    assert!(json.contains(r#""created_at": "2026-07-20T12:00:00Z""#), "{json}");
}

#[test]
fn round_trips_full_entry() {
    let s = full();
    let json = text_of(&s);
    let back = parse_state(json.as_bytes()).unwrap();
    assert_eq!(s, back);
    assert!(json.contains(r#""leased_at": "2026-08-14T12:34:56.123456789Z""#), "{json}");
}

#[test]
fn pre_lease_file_loads_unleased() {
    let json = r#"{
  "worktrees": [{
    "name": "1",
    "path": "legacy-worktree",
    "created_at": "2026-07-20T12:00:00Z",
    "leased": true,
    "lease_holder": "legacy-automation",
    "leased_at": "2026-07-20T12:01:00Z"
  }]
}"#;
    let s = parse_state(json.as_bytes()).unwrap();
    let wt = &s.worktrees[0];
    assert!(wt.leased);
    assert_eq!(wt.lease_id, "");
    assert_eq!(wt.lease_holder, "legacy-automation");
    assert_eq!(wt.leased_at, dt("2026-07-20T12:01:00Z"));
}

#[test]
fn missing_keys_decode_to_zero() {
    let json = r#"{"worktrees":[{"name":"1","path":"/p","created_at":"2026-07-20T12:00:00Z"}]}"#;
    let s = parse_state(json.as_bytes()).unwrap();
    let wt = &s.worktrees[0];
    assert!(!wt.destroying);
    assert_eq!(wt.owner_pid, 0);
    assert_eq!(wt.owner_started_at, 0);
    assert!(!wt.leased);
    assert_eq!(wt.lease_id, "");
    assert_eq!(wt.leased_at, Timestamp::zero());
    assert_eq!(wt.expires_at, Timestamp::zero());
}

#[test]
fn go_zero_time_deserializes_to_sentinel() {
    let json = r#"{"worktrees":[{"name":"1","path":"/p","created_at":"2026-07-20T12:00:00Z","leased_at":"0001-01-01T00:00:00Z"}]}"#;
    let s = parse_state(json.as_bytes()).unwrap();
    assert_eq!(s.worktrees[0].leased_at, Timestamp::zero());
}

#[test]
fn shim_directly_maps_go_zero_time() {
    let r = deserialize("0001-01-01T00:00:00Z").unwrap();
    assert_eq!(r, Timestamp::zero());
}

#[test]
fn stale_lease_boundary() {
    let base = dt("2026-08-14T12:00:00Z");
    let mut wt = WorktreeEntry {
        leased: true,
        expires_at: dt("2026-08-14T12:30:00Z"),
        ..WorktreeEntry::default()
    };
    assert!(wt.is_valid_lease(base));
    assert!(!wt.is_stale_lease(base));
    assert!(wt.is_stale_lease(dt("2026-08-14T12:30:00Z")));
    assert!(!wt.is_valid_lease(dt("2026-08-14T12:31:00Z")));
    wt.expires_at = Timestamp::zero();
    assert!(wt.is_valid_lease(base));
    assert!(!wt.is_stale_lease(base));
}

#[test]
fn heal_clears_dead_owner_and_drops_missing_paths() {
    let mut state = State {
        worktrees: vec![
            WorktreeEntry {
                name: "1".into(),
                path: "/d/1/live".into(),
                owner_pid: 100,
                owner_started_at: 111,
                ..WorktreeEntry::default()
            },
            WorktreeEntry {
                name: "2".into(),
                path: "/d/2/dead".into(),
                destroying: true,
                owner_pid: 999,
                owner_started_at: 222,
                ..WorktreeEntry::default()
            },
            WorktreeEntry {
                name: "3".into(),
                path: "/d/3/gone".into(),
                ..WorktreeEntry::default()
            },
        ],
    };
    let lookup = ProcessTable::new(vec![ProcessRecord {
        pid: 100,
        parent: None,
        started_at: 111,
        cwd: None,
        name: "owner".into(),
    }]);
    let existing = vec!["/d/1/live".to_string(), "/d/2/dead".to_string()];
    heal_state(&mut state, &existing, &lookup);
    assert_eq!(state.worktrees.len(), 2, "path-gone entry must be dropped");
    let one = state.worktrees.iter().find(|w| w.name == "1").unwrap();
    assert_eq!(one.owner_pid, 100);
    let two = state.worktrees.iter().find(|w| w.name == "2").unwrap();
    assert_eq!(two.owner_pid, 0);
    assert_eq!(two.owner_started_at, 0);
    assert!(!two.destroying);
    let once = state.clone();
    heal_state(&mut state, &existing, &lookup);
    assert_eq!(state, once);
}

#[test]
fn heal_never_touches_leases() {
    let mut state = State {
        worktrees: vec![WorktreeEntry {
            name: "1".into(),
            path: "/d/1/live".into(),
            leased: true,
            lease_id: "abc".into(),
            lease_holder: "holder".into(),
            leased_at: dt("2026-08-14T12:00:00Z"),
            expires_at: dt("2026-08-14T12:30:00Z"),
            ..WorktreeEntry::default()
        }],
    };
    heal_state(&mut state, &vec!["/d/1/live".to_string()], &ProcessTable::new(vec![]));
    let wt = &state.worktrees[0];
    assert!(wt.leased, "heal must not clear a lease");
    assert_eq!(wt.lease_id, "abc");
    assert_eq!(wt.lease_holder, "holder");
    assert_eq!(wt.leased_at, dt("2026-08-14T12:00:00Z"));
    assert_eq!(wt.expires_at, dt("2026-08-14T12:30:00Z"));
}

#[test]
fn clear_lease_resets_everything() {
    let mut wt = WorktreeEntry {
        leased: true,
        lease_id: "abc".into(),
        lease_holder: "h".into(),
        leased_at: dt("2026-08-14T12:00:00Z"),
        expires_at: dt("2026-08-14T13:00:00Z"),
        ..WorktreeEntry::default()
    };
    clear_lease(&mut wt);
    assert!(!wt.leased);
    assert_eq!(wt.lease_id, "");
    assert_eq!(wt.lease_holder, "");
    assert_eq!(wt.leased_at, Timestamp::zero());
    assert_eq!(wt.expires_at, Timestamp::zero());
}

#[test]
fn new_lease_id_is_32_lowercase_hex() {
    let a = new_lease_id();
    let b = new_lease_id();
    assert_eq!(a.len(), 32);
    assert_eq!(b.len(), 32);
    assert_ne!(a, b);
    assert!(
        a.chars().all(|c| c.is_ascii_hexdigit() && !c.is_ascii_uppercase()),
        "lease id must be lowercase hex, got {a}"
    );
}

#[test]
fn lease_ids_spell_their_bytes() {
    assert_eq!(lease_id_from(&[0x00, 0x9f, 0xa0, 0xff]), "009fa0ff");
    assert_eq!(lease_id_from(&[]), "");
}

#[test]
fn read_state_missing_is_empty_pool() {
    let s = State::read_state("/p", StateFile::Missing, &Ok(vec![]), now()).unwrap();
    assert!(s.worktrees.is_empty());
}

#[test]
fn read_state_empty_file_is_corrupt_not_fresh() {
    let error = parse_state(b"").unwrap_err();
    let slots = Ok(vec![
        slot("1", "myrepo", GitProbe::Present),
        slot("2", "myrepo", GitProbe::Present),
    ]);
    let s = State::read_state("/p", StateFile::Corrupt(error), &slots, now()).unwrap();
    assert_eq!(s.worktrees.len(), 2, "recovered 2 worktrees");
    for wt in &s.worktrees {
        assert!(wt.leased, "recovered entry must be leased");
        assert_eq!(wt.lease_holder, RECOVERED_LEASE_HOLDER);
    }
    assert_eq!(s.worktrees[0].name, "1");
    assert_eq!(s.worktrees[0].path, "/p/1/myrepo");
}

#[test]
fn recovered_entries_are_permanent_leases_without_expiry() {
    let slots = Ok(vec![slot("1", "myrepo", GitProbe::Present)]);
    let s = State::read_state("/p", StateFile::Corrupt("eof".into()), &slots, now()).unwrap();
    let e = &s.worktrees[0];
    assert!(e.leased);
    assert_eq!(e.lease_holder, RECOVERED_LEASE_HOLDER);
    assert_eq!(e.lease_id, "");
    assert_eq!(e.expires_at, Timestamp::zero());
    assert!(!e.is_stale_lease(Timestamp::now()), "recovered entries must never auto-expire");
}

#[test]
fn recovery_takes_only_directories_with_a_git_file() {
    let slots = Ok(vec![
        slot("1", "app", GitProbe::Absent),
        Ok(Slot { name: "file".into(), is_dir: Ok(false), children: Ok(vec![]) }),
        slot("2", "app", GitProbe::Present),
    ]);
    let s = recover_corrupt_state("/p", "/p/treehouse-state.json", &slots, now()).unwrap();
    assert_eq!(s.worktrees.len(), 1);
    assert_eq!(s.worktrees[0].path, "/p/2/app");
}

#[test]
fn recovery_that_cannot_look_fails() {
    let bad = recover_corrupt_state("/p", "/p/treehouse-state.json", &Err("denied".into()), now());
    let e = bad.unwrap_err();
    assert_eq!(
        e.message(),
        "state file /p/treehouse-state.json is corrupt or truncated and recovery could not scan: denied"
    );
    let slots = Ok(vec![slot("1", "app", GitProbe::Failed("io".into()))]);
    assert!(matches!(
        recover_corrupt_state("/p", "/p/s", &slots, now()),
        Err(StateError::RecoverScan(_, _))
    ));
    let slots = Ok(vec![Err("entry".to_string())]);
    assert!(recover_corrupt_state("/p", "/p/s", &slots, now()).is_err());
}

#[test]
fn an_unreadable_state_file_is_an_error() {
    let e = State::read_state("/p", StateFile::Unreadable("denied".into()), &Ok(vec![]), now())
        .unwrap_err();
    assert_eq!(e.message(), "failed to read state file /p/treehouse-state.json: denied");
}

#[test]
fn recovery_warns_loudly() {
    assert_eq!(
        recovery_warning("/p/s", "eof"),
        "treehouse: WARNING: state file /p/s is corrupt or truncated (eof); recovering from worktrees found on disk. They are marked leased until verified - see `treehouse status`, then `treehouse return` or `treehouse destroy --include-leased`."
    );
}

#[test]
fn read_state_with_env_missing_returns_empty() {
    let env = InMemoryEnv::new("/test".to_string());
    let state = State::read_state_with_env("/test/empty", &env, &Ok(vec![]), now()).unwrap();
    assert!(state.worktrees.is_empty());
}

#[test]
fn read_state_with_env_valid_state() {
    let mut env = InMemoryEnv::new("/test".to_string());
    let state = State { worktrees: vec![minimal("1", "/test/pool/1/repo")] };
    env.seed_file(&State::state_file_path("/test/pool"), &state_bytes(&state));
    let loaded = State::read_state_with_env("/test/pool", &env, &Ok(vec![]), now()).unwrap();
    assert_eq!(state, loaded);
}

#[test]
fn read_state_with_env_corrupt_triggers_recovery() {
    let mut env = InMemoryEnv::new("/test".to_string());
    env.seed_file(&State::state_file_path("/test/pool"), b"corrupt");
    let slots = Ok(vec![slot("1", "myrepo", GitProbe::Present)]);
    let state = State::read_state_with_env("/test/pool", &env, &slots, now()).unwrap();
    assert_eq!(state.worktrees.len(), 1);
    assert!(state.worktrees[0].leased);
}

#[test]
fn write_state_is_2space_indented_go_style() {
    let raw = text_of(&State { worktrees: vec![minimal("1", "/p/1/r")] });
    assert!(raw.starts_with("{\n  \"worktrees\": ["), "got: {raw}");
    assert!(raw.ends_with("\n"), "missing trailing newline");
}

#[test]
fn an_empty_state_is_written_as_an_object() {
    assert_eq!(text_of(&State::default()), "{\n  \"worktrees\": []\n}\n");
}

#[test]
fn state_files_are_decoded_by_their_keys() {
    assert!(parse_state(b"{}").unwrap().worktrees.is_empty());
    assert!(parse_state(b"{\"other\": 1}").unwrap().worktrees.is_empty());
    assert!(parse_state(b"[1]").is_err());
    assert!(parse_state(b"[]").unwrap().worktrees.is_empty());
    let rows = b"[[[\"1\", \"/p\", \"2026-07-20T12:00:00Z\", true, 7]]]";
    let wt = &parse_state(rows).unwrap().worktrees[0];
    assert_eq!((wt.path.as_str(), wt.destroying, wt.owner_pid, wt.leased), ("/p", true, 7, false));
    assert!(parse_state(b"[[], []]").is_err());
    assert!(parse_state(b"[[[\"1\", \"/p\"]]]").is_err());
    assert!(parse_state(b"3").is_err());
    assert!(parse_state(b"{\"worktrees\": 3}").is_err());
    assert!(parse_state(b"{\"worktrees\": [{\"name\": \"1\"}]}").is_err());
    assert!(parse_state(b"{\"worktrees\": [{\"name\": 1, \"path\": \"/p\", \"created_at\": \"2026-07-20T12:00:00Z\"}]}").is_err());
    assert!(parse_state(b"{\"worktrees\": [{\"name\": \"1\", \"path\": \"/p\", \"created_at\": \"soon\"}]}").is_err());
    let extra = b"{\"worktrees\": [{\"name\": \"1\", \"path\": \"/p\", \"created_at\": \"2026-07-20T12:00:00Z\", \"color\": \"red\"}]}";
    assert_eq!(parse_state(extra).unwrap().worktrees.len(), 1);
    let wide = b"{\"worktrees\": [{\"name\": \"1\", \"path\": \"/p\", \"created_at\": \"2026-07-20T12:00:00Z\", \"owner_pid\": 4294967296}]}";
    assert!(parse_state(wide).is_err());
}

#[test]
fn a_state_is_read_from_a_value() {
    let v: serde_json::Value = serde_json::from_slice(&state_bytes(&full())).unwrap();
    assert_eq!(state_from_value(&v), Some(full()));
    assert_eq!(state_from_value(&serde_json::Value::Null), None);
}

#[test]
fn entries_drop_their_zero_values() {
    let w = WireEntry::from_entry(&minimal("1", "/p"));
    assert_eq!(w.destroying, None);
    assert_eq!(w.leased_at, None);
    assert_eq!(w.created_at, "2026-07-20T12:00:00Z");
    assert_eq!(w.to_entry(), Some(minimal("1", "/p")));
}

#[test]
fn state_paths_lie_in_the_pool() {
    assert_eq!(State::state_file_path("/p"), "/p/treehouse-state.json");
    assert_eq!(State::lock_file_path("/p"), "/p/treehouse-state.lock");
}

// ---------- leases ----------

#[test]
fn lease_has_no_owner_reservation() {
    let mut wt = WorktreeEntry {
        name: "1".into(),
        path: "/pool/1/myrepo".into(),
        owner_pid: 999,
        owner_started_at: 12345,
        ..WorktreeEntry::default()
    };
    let id = mark_acquired_lease(&mut wt, "agent-42", now());
    assert!(wt.leased);
    assert_eq!(wt.lease_id, id);
    assert_eq!(wt.lease_holder, "agent-42");
    assert_eq!(wt.leased_at, now());
    assert_eq!(wt.owner_pid, 0, "lease must zero owner_pid");
    assert_eq!(wt.owner_started_at, 0, "lease must zero owner_started_at");
}

#[test]
fn lease_id_is_fresh_per_acquisition() {
    let mut a = WorktreeEntry::default();
    let mut b = WorktreeEntry::default();
    let id_a = mark_acquired_lease(&mut a, "same", now());
    let id_b = mark_acquired_lease(&mut b, "same", now());
    assert_eq!(id_a.len(), 32);
    assert_ne!(id_a, id_b, "lease id must be fresh per acquisition");
}

#[test]
fn lease_survives_heal() {
    let mut state = State {
        worktrees: vec![WorktreeEntry {
            name: "1".into(),
            path: "/d/1/live".into(),
            leased: true,
            lease_id: "abc".into(),
            lease_holder: "holder".into(),
            leased_at: now(),
            ..WorktreeEntry::default()
        }],
    };
    heal_state(&mut state, &vec!["/d/1/live".to_string()], &ProcessTable::new(vec![]));
    assert!(state.worktrees[0].leased, "lease must survive heal_state");
    assert_eq!(state.worktrees[0].lease_id, "abc");
}

#[test]
fn from_entry_round_trip() {
    let mut wt = WorktreeEntry::default();
    let id = mark_acquired_lease(&mut wt, "h", now());
    let lease = Lease::from_entry(&wt).unwrap();
    assert_eq!(lease.id, id);
    assert_eq!(lease.holder, "h");
    assert_eq!(lease.acquired_at, now());
    assert_eq!(lease.expires_at, None, "a lease without an end");
    assert!(Lease::from_entry(&WorktreeEntry::default()).is_none());
    let mut other = WorktreeEntry::default();
    lease.write_to(&mut other);
    assert_eq!(Lease::from_entry(&other), Some(lease));
}

#[test]
fn clear_lease_returns_to_unleased() {
    let mut wt = WorktreeEntry::default();
    mark_acquired_lease(&mut wt, "h", now());
    wt.expires_at = now().plus(Span::from_secs(3600)).unwrap();
    lease_clear(&mut wt);
    assert!(!wt.leased);
    assert_eq!(wt.lease_id, "");
    assert_eq!(wt.lease_holder, "");
    assert_eq!(wt.leased_at, Timestamp::zero());
    assert_eq!(wt.expires_at, Timestamp::zero());
    assert!(Lease::from_entry(&wt).is_none());
}

#[test]
fn lease_fields_serialize_omitempty() {
    let mut wt = WorktreeEntry {
        name: "4".into(),
        path: "/pool/4/myrepo".into(),
        ..WorktreeEntry::default()
    };
    let id = mark_acquired_lease(&mut wt, "automation-A", now());
    let json = text_of(&State { worktrees: vec![wt] });
    assert!(json.contains(&format!(r#""lease_id": "{id}""#)), "{json}");
    assert!(json.contains(r#""lease_holder": "automation-A""#));
    assert!(json.contains(r#""leased_at": "2026-08-14T12:00:00Z""#), "{json}");
    assert!(!json.contains("owner_pid"), "{json}");

    let plain = text_of(&State {
        worktrees: vec![WorktreeEntry {
            name: "1".into(),
            path: "/p".into(),
            created_at: now(),
            ..WorktreeEntry::default()
        }],
    });
    assert!(!plain.contains("lease_id"), "{plain}");
}

#[test]
fn lease_info_json_shape_matches_go() {
    let mut wt = WorktreeEntry {
        name: "4".into(),
        path: "/pool/4/myrepo".into(),
        ..WorktreeEntry::default()
    };
    mark_acquired_lease(&mut wt, "automation-A", now());
    let info = lease_info_from_entry(&wt);
    let id = info.lease_id.clone();
    let value = CommandResult::Get(GetResult::Lease(info)).payload().unwrap();
    let json = serde_json::to_string(&value).unwrap();
    assert_eq!(
        json,
        r#"{"path":"/pool/4/myrepo","lease_id":"replaceme","lease_holder":"automation-A","leased_at":"2026-08-14T12:00:00Z"}"#
            .replace("replaceme", &id)
    );
}

#[test]
fn clearing_undoes_a_lease() {
    let before = minimal("1", "/p");
    let mut wt = before.clone();
    mark_acquired_lease(&mut wt, "h", now());
    lease_clear(&mut wt);
    assert_eq!(wt, before);
}

#[test]
fn a_stale_lease_stays_stale() {
    let wt = WorktreeEntry {
        leased: true,
        expires_at: dt("2026-08-14T12:30:00Z"),
        ..WorktreeEntry::default()
    };
    for at in ["2026-08-14T12:30:00Z", "2026-08-14T12:30:00.000000001Z", "9999-12-31T23:59:59Z"] {
        assert!(wt.is_stale_lease(dt(at)), "{at}");
        assert!(!wt.is_valid_lease(dt(at)), "{at}");
    }
}

#[test]
fn lease_errors_have_texts() {
    assert_eq!(LeaseError::Rng("x".into()).message(), "generating lease identity: x");
    let e = LeaseError::Expired { path: "/p".into(), expired_at: now() };
    assert_eq!(e.message(), "lease at /p expired at 2026-08-14 12:00:00 UTC");
    assert!(LeaseError::NotFound("/p".into()).message().contains("/p"));
    let e = LeaseError::PreconditionFailed {
        expected: "a".into(),
        expected_holder: "b".into(),
        actual: "c".into(),
        actual_holder: "d".into(),
    };
    assert!(e.message().contains("\"a\""));
}

// ---------- time ----------

#[test]
fn instants_keep_their_nanoseconds() {
    let t = dt("2026-08-14T12:34:56.000000001Z");
    assert_eq!(t.nanos, 1);
    assert_eq!(serialize(t), "2026-08-14T12:34:56.000000001Z");
    assert_eq!(serialize(now()), "2026-08-14T12:00:00Z");
    assert_eq!(rfc3339(now()), "2026-08-14T12:00:00+00:00");
    assert_eq!(deserialize(&serialize(t)), Some(t));
    assert_eq!(deserialize("2026-08-14T14:34:56.000000001+02:00"), Some(t));
    assert_eq!(deserialize("yesterday"), None);
    assert!(Timestamp::now().not_before(now()));
}

#[test]
fn instants_add_up_to_the_last_one() {
    let t = Timestamp { secs: 10, nanos: 900_000_000 };
    let u = t.plus(Span { secs: 2, nanos: 200_000_000 }).unwrap();
    assert_eq!(u, Timestamp { secs: 13, nanos: 100_000_000 });
    let last = Timestamp { secs: treehouse_core::time::MAX_SECS, nanos: 999_999_999 };
    assert_eq!(last.plus(Span { secs: 0, nanos: 0 }), Some(last));
    assert_eq!(last.plus(Span { secs: 0, nanos: 1 }), None);
    assert_eq!(t.plus(Span { secs: u64::MAX, nanos: 0 }), None);
}

#[test]
fn ages_are_compared_in_seconds() {
    let since = dt("2026-08-13T12:00:00Z");
    assert!(!is_longer_ago(now(), since, 86_400));
    assert!(is_longer_ago(dt("2026-08-14T12:00:00.000000001Z"), since, 86_400));
    assert!(!is_longer_ago(since, now(), 1));
}

// ---------- processes ----------

#[test]
fn process_info_display() {
    let p = ProcessInfo { pid: 82144, name: "opencode".into() };
    assert_eq!(p.label(), "opencode (82144)");
}

#[test]
fn pathdiff_basic() {
    let base = "/home/user/proj/.treehouse/acme/1/acme";
    assert_eq!(pathdiff_rel(base, base).unwrap(), ".");
    let child = join(&join(base, "src"), "main.rs");
    let rel = pathdiff_rel(base, &child).unwrap();
    assert_eq!(components(&rel), ["src", "main.rs"]);
    let up = parent(base).unwrap();
    assert_eq!(pathdiff_rel(base, &up).unwrap(), "..");
}

#[test]
fn matcher_includes_dotdotdot_cache_and_excludes_parent() {
    let matches = |rel: &str| is_inside("/w/tree", &format!("/w/tree/{rel}"));
    assert!(is_inside("/w/tree", "/w/tree"), "cwd == worktree root");
    assert!(matches("src"), "descendant");
    assert!(matches("..cache"), "child dir literally named '..cache' is included");
    assert!(!is_inside("/w/tree", "/w"), "exactly one level up is excluded");
    assert!(!is_inside("/w/tree", "/w/sibling"), "parent-relative path is excluded");
    assert!(!is_inside("/w/tree", "/other"), "grandparent is excluded");
}

#[test]
fn protected_chain_fails_closed_on_missing_parent() {
    let t = table();
    assert!(t.protected_chain(300).is_err());
    assert!(t.protected_chain(4242).is_err());
    assert!(t.termination_targets(Some("/pool/1/app"), 300).is_err());
}

#[test]
fn protected_chain_contains_own_pid_when_it_resolves() {
    let protected = table().protected_chain(200).unwrap();
    assert!(protected.contains(&200), "own pid must be protected");
    assert!(protected.contains(&100));
    assert!(protected.contains(&1));
    assert!(table().termination_targets(Some("/pool/1/app"), 200).unwrap().is_empty());
    let targets = table().termination_targets(Some("/pool/1/app"), 1).unwrap();
    assert_eq!(targets.len(), 1);
    assert_eq!(targets[0].pid, 100);
}

#[test]
fn started_at_matches_own_process() {
    let started = table().started_at(100).expect("own start time known");
    assert!(started > 1_000_000_000_000, "should be epoch millis (not seconds)");
    assert_eq!(started, 1_725_000_000_000);
    assert_eq!(table().started_at(4), None);
    assert!(table().is_running(100));
    assert!(!table().is_running(4));
    assert_eq!(table().parent_pid(200), Some(100));
}

#[test]
fn processes_are_found_by_their_directory() {
    let t = table();
    let found = t.find_in_worktree(Some("/pool/1/app")).unwrap();
    assert_eq!(found, vec![ProcessInfo { pid: 100, name: "editor".into() }]);
    assert!(t.is_worktree_in_use(Some("/pool/1/app")).unwrap());
    assert!(!t.is_worktree_in_use(Some("/pool/2/app")).unwrap());
    let e = t.find_in_worktree(None).unwrap_err();
    assert!(e.message().contains("resolving worktree path"));
}

#[test]
fn termination_waits_for_the_grace_period() {
    assert_eq!(terminate_step(0, TERMINATE_GRACE_MS, true), TerminateStep::Wait);
    assert_eq!(terminate_step(0, TERMINATE_GRACE_MS, false), TerminateStep::Done);
    assert_eq!(terminate_step(TERMINATE_GRACE_MS, TERMINATE_GRACE_MS, true), TerminateStep::Kill);
}

// ---------- reservations ----------

fn entry(pid: i32, started: i64) -> WorktreeEntry {
    WorktreeEntry {
        name: "1".into(),
        path: "/pool/1/myrepo".into(),
        owner_pid: pid,
        owner_started_at: started,
        ..WorktreeEntry::default()
    }
}

#[test]
fn matches_is_same_destroy_reservation() {
    let mut e = entry(0, 0);
    let r = Reservation::reserve_destroy("/pool/1/myrepo", &mut e, 200, &table()).unwrap();
    assert!(r.matches(&e));
    let mut reacquired = e.clone();
    reacquired.owner_pid = 999;
    assert!(!r.matches(&reacquired), "re-acquired worktree must not match");
    let mut cleared = e.clone();
    cleared.destroying = false;
    assert!(!r.matches(&cleared));
    let mut diff_path = e.clone();
    diff_path.path = "/other".into();
    assert!(!r.matches(&diff_path));
}

#[test]
fn restore_original_exactly_restores_pre_destroy_state() {
    let mut e = entry(100, 1000);
    let r = Reservation::reserve_destroy("/pool/1/myrepo", &mut e, 200, &table()).unwrap();
    assert!(e.destroying);
    assert_ne!((e.owner_pid, e.owner_started_at), (100, 1000));
    r.restore_original(&mut e);
    assert!(!e.destroying);
    assert_eq!(e.owner_pid, 100);
    assert_eq!(e.owner_started_at, 1000);
}

#[test]
fn owner_alive_requires_matching_start_time() {
    let process = table();
    assert!(!reservation_alive(&entry(0, 0), &process));
    assert!(!reservation_alive(&entry(123, 0), &process));
    assert!(!reservation_alive(&entry(0, 12345), &process));
    assert!(!reservation_alive(&entry(999_999, 12345), &process));
    let started = process.started_at(200).unwrap();
    let mut e = entry(200, started);
    assert!(reservation_alive(&e, &process));
    assert!(owner_alive(&e, &process));
    e.owner_started_at = started + 1;
    assert!(!reservation_alive(&e, &process));
}

#[test]
fn heal_clears_dead_owner_but_never_leases() {
    let process = table();
    let started = process.started_at(200).unwrap();
    let mut dead = entry(999_999, 12345);
    reservation_heal(&mut dead, &process);
    assert_eq!(dead.owner_pid, 0);
    assert_eq!(dead.owner_started_at, 0);
    assert!(!dead.destroying);
    let mut live = entry(200, started);
    heal_owner(&mut live, &process);
    assert_eq!(live.owner_pid, 200);
    let mut leased = entry(999_999, 12345);
    leased.leased = true;
    leased.lease_id = "abc".into();
    leased.lease_holder = "holder".into();
    leased.leased_at = now();
    reservation_heal(&mut leased, &process);
    assert!(leased.leased, "heal must not clear a lease");
    assert_eq!(leased.lease_id, "abc");
    assert_eq!(leased.owner_pid, 0, "dead owner still healed");
}

#[test]
fn reserve_owner_uses_millis() {
    let mut e = WorktreeEntry { path: "/pool/1/myrepo".into(), ..WorktreeEntry::default() };
    Reservation::reserve_owner(&mut e, 200, &table()).unwrap();
    assert_eq!(e.owner_pid, 200);
    assert!(e.owner_started_at > 1_000_000_000_000, "got {}", e.owner_started_at);
    let before = e.clone();
    let err = Reservation::reserve_owner(&mut e, 7, &table()).unwrap_err();
    assert!(matches!(err, ReservationError::Undeterminable(_)));
    assert!(err.message().contains("7"));
    assert_eq!(e, before);
}

#[test]
fn owner_and_lease_reservations_match_their_entries() {
    let mut e = entry(200, 5);
    let owner = Reservation {
        worktree: "/pool/1/myrepo".into(),
        kind: ReservationKind::Owner { owner_pid: 200, owner_started_at: 5 },
    };
    assert!(owner.matches(&e));
    mark_acquired_lease(&mut e, "h", now());
    assert!(!owner.matches(&e));
    let lease = Reservation {
        worktree: "/pool/1/myrepo".into(),
        kind: ReservationKind::Lease(Lease::from_entry(&e).unwrap()),
    };
    assert!(lease.matches(&e));
    e.lease_id = "other".into();
    assert!(!lease.matches(&e));
}

// ---------- paths ----------

#[test]
fn paths_are_taken_apart_as_text() {
    assert_eq!(join("/a", "b"), "/a/b");
    assert_eq!(join("/a/", "b"), "/a/b");
    assert_eq!(join("/a", "/b"), "/b");
    assert_eq!(parent("/a/b"), Some("/a".to_string()));
    assert_eq!(parent("/"), None);
    assert_eq!(file_name("/a/b/"), Some("b".to_string()));
    assert_eq!(file_name("/"), None);
    assert_eq!(file_name("/a/.."), None);
    assert!(same_path("/a//b/./", "/a/b"));
    assert!(!same_path("a/b", "/a/b"));
    assert!(path_before("/a/b", "/a-b"));
    for p in ["/a/b", "/", "a", "a/..", "/a/./b//c", "..", ""] {
        let std_name = std::path::Path::new(p).file_name().map(|n| n.to_str().unwrap().to_string());
        assert_eq!(file_name(p), std_name, "{p}");
        let up = parent(p);
        assert_eq!(up.as_ref().map(std::path::Path::new), std::path::Path::new(p).parent(), "{p}");
    }
}
