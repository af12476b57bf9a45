//! The session cache across refresh cycles: plan, apply, reuse, removal.

use rose_title_changer::session::{
    apply_refresh, find_process_window, plan_refresh, Game, RefreshOutcome, RefreshRecord,
    SessionMap, WindowInfo,
};

fn resolved_game(pid: u32) -> Game {
    Game {
        pid,
        signature_address: 0x103F,
        player_address: 0xABCD0000,
        window_handle: Some(0x42),
        title: String::from("old title"),
    }
}

#[test]
fn new_process_is_planned_for_scan() {
    let sessions = SessionMap::new();
    let plan = plan_refresh(&sessions, &vec![7, 8]);
    assert_eq!(plan, vec![7, 8]);
}

#[test]
fn resolved_session_is_not_rescanned() {
    let mut sessions = SessionMap::new();
    sessions.insert(resolved_game(7));
    let plan = plan_refresh(&sessions, &vec![7, 8]);
    assert_eq!(plan, vec![8]);
}

#[test]
fn unresolved_session_is_rescanned() {
    let mut sessions = SessionMap::new();
    let mut g = resolved_game(7);
    g.player_address = 0;
    sessions.insert(g);
    let plan = plan_refresh(&sessions, &vec![7]);
    assert_eq!(plan, vec![7]);
}

#[test]
fn cached_record_reuses_old_addresses() {
    // staleness is by design: even though the process's memory has moved on,
    // the old cached addresses are reused and no scan happens
    let mut sessions = SessionMap::new();
    sessions.insert(resolved_game(7));
    let records = vec![RefreshRecord {
        pid: 7,
        outcome: RefreshOutcome::Cached,
        window_handle: Some(0x99),
    }];
    apply_refresh(&mut sessions, &records);
    let g = sessions.get(7).unwrap();
    assert_eq!(g.signature_address, 0x103F);
    assert_eq!(g.player_address, 0xABCD0000);
    // the window is freshly looked up and the title cleared for this cycle
    assert_eq!(g.window_handle, Some(0x99));
    assert_eq!(g.title, "");
}

#[test]
fn scanned_record_stores_fresh_addresses() {
    let mut sessions = SessionMap::new();
    let records = vec![RefreshRecord {
        pid: 9,
        outcome: RefreshOutcome::Scanned { signature_address: 0x2000, player_address: 0x3000 },
        window_handle: None,
    }];
    apply_refresh(&mut sessions, &records);
    let g = sessions.get(9).unwrap();
    assert_eq!(g.signature_address, 0x2000);
    assert_eq!(g.player_address, 0x3000);
    assert_eq!(g.window_handle, None);
}

#[test]
fn unavailable_record_leaves_session_untouched() {
    let mut sessions = SessionMap::new();
    sessions.insert(resolved_game(7));
    let records = vec![RefreshRecord {
        pid: 7,
        outcome: RefreshOutcome::Unavailable,
        window_handle: None,
    }];
    apply_refresh(&mut sessions, &records);
    let g = sessions.get(7).unwrap();
    assert_eq!(g.signature_address, 0x103F);
    assert_eq!(g.player_address, 0xABCD0000);
    assert_eq!(g.window_handle, Some(0x42));
    assert_eq!(g.title, "old title");
}

#[test]
fn disappeared_process_is_removed() {
    let mut sessions = SessionMap::new();
    sessions.insert(resolved_game(7));
    sessions.insert(resolved_game(8));
    let records = vec![RefreshRecord {
        pid: 8,
        outcome: RefreshOutcome::Cached,
        window_handle: Some(0x42),
    }];
    apply_refresh(&mut sessions, &records);
    assert!(sessions.get(7).is_none());
    assert!(sessions.get(8).is_some());
    assert_eq!(sessions.len(), 1);
}

#[test]
fn insert_replaces_session_with_same_pid() {
    let mut sessions = SessionMap::new();
    sessions.insert(resolved_game(7));
    let mut g = resolved_game(7);
    g.signature_address = 0x7777;
    sessions.insert(g);
    assert_eq!(sessions.len(), 1);
    assert_eq!(sessions.get(7).unwrap().signature_address, 0x7777);
}

#[test]
fn entries_expose_tracked_sessions() {
    let mut sessions = SessionMap::new();
    sessions.insert(resolved_game(7));
    sessions.insert(resolved_game(8));
    let entries = sessions.entries();
    assert_eq!(entries.len(), 2);
    let mut pids: Vec<u32> = entries.iter().map(|g| g.pid).collect();
    pids.sort();
    assert_eq!(pids, vec![7, 8]);
}

#[test]
fn window_lookup_finds_first_matching_window() {
    let windows = vec![
        WindowInfo { handle: 0x10, pid: 3 },
        WindowInfo { handle: 0x20, pid: 7 },
        WindowInfo { handle: 0x30, pid: 7 },
    ];
    assert_eq!(find_process_window(7, &windows), Some(0x20));
    assert_eq!(find_process_window(3, &windows), Some(0x10));
    assert_eq!(find_process_window(99, &windows), None);
}

#[test]
fn window_lookup_with_failed_pid_lookup_matches_zero() {
    // a window whose owner lookup failed reports pid 0, as the enumeration
    // hands it over; asking for pid 0 finds it
    let windows = vec![WindowInfo { handle: 0x50, pid: 0 }];
    assert_eq!(find_process_window(0, &windows), Some(0x50));
}
