//! One full refresh cycle against a fake process image: plan, chunked scan,
//! pointer-chain resolve, cache store, player read, title assembly.

use rose_title_changer::memory::ProcessImage;
use rose_title_changer::pattern::Signature;
use rose_title_changer::resolve::{resolve_player_address, PointerChainConfig};
use rose_title_changer::scan::sig_scan;
use rose_title_changer::session::{
    apply_refresh, find_process_window, plan_refresh, RefreshOutcome, RefreshRecord, SessionMap,
    WindowInfo,
};

const PID: u32 = 7;

/// A fake process exposing module range `[0x1000, 0x5000)` with the
/// signature site at 0x1040, and player data at the resolved address.
fn fake_process() -> ProcessImage {
    let mut img = ProcessImage::new();
    let mut module = vec![0u8; 0x4000];
    // the matched instruction bytes at 0x1040: six fixed bytes, then the
    // 4-byte displacement 0x20 that the pattern wildcards over
    module[0x40..0x46].copy_from_slice(&[0xA1, 0xB2, 0xC3, 0xD4, 0xE5, 0xF6]);
    module[0x46..0x4A].copy_from_slice(&0x20u32.to_le_bytes());
    // the pointer slot at 0x103F + 0x20 + 11 = 0x106A holds the player address
    module[0x6A..0x72].copy_from_slice(&0xABCD0000u64.to_le_bytes());
    assert!(img.add_region(0x1000, module));
    // the player structure, outside the module range
    let cfg = PointerChainConfig::default();
    assert!(img.add_region(0xABCD0000 + cfg.name_offset, b"Hero\0".to_vec()));
    assert!(img.add_region(0xABCD0000 + cfg.job_offset, 322u32.to_le_bytes().to_vec()));
    img
}

#[test]
fn full_refresh_cycle_titles_the_window() {
    let cfg = PointerChainConfig::default();
    let img = fake_process();
    let pattern = Signature::compile("A1 B2 C3 D4 E5 F6 ? ? ? ?").unwrap();
    let mut sessions = SessionMap::new();

    // plan: the new process needs a scan
    let plan = plan_refresh(&sessions, &vec![PID]);
    assert_eq!(plan, vec![PID]);

    // chunked scan over the module range, with the documented -1 adjustment
    let signature_address = sig_scan(&img, &pattern, 0x1000, 0x5000).unwrap();
    assert_eq!(signature_address, 0x103F);

    // pointer chain: displacement 0x20 at +0x07, pointer at 0x106A
    let player_address = resolve_player_address(&img, &cfg, signature_address).unwrap();
    assert_eq!(player_address, 0xABCD0000);

    // window lookup and cache store
    let windows = vec![WindowInfo { handle: 0x42, pid: PID }];
    let window_handle = find_process_window(PID, &windows);
    assert_eq!(window_handle, Some(0x42));
    let records = vec![RefreshRecord {
        pid: PID,
        outcome: RefreshOutcome::Scanned { signature_address, player_address },
        window_handle,
    }];
    apply_refresh(&mut sessions, &records);

    // title pass with both display flags on
    sessions.set_titles(&vec![(PID, fake_process())], &cfg, true, true);
    let g = sessions.get(PID).unwrap();
    assert_eq!(g.signature_address, 0x103F);
    assert_eq!(g.player_address, 0xABCD0000);
    assert_eq!(g.window_handle, Some(0x42));
    assert_eq!(g.title, "Hero - Scout");
}

#[test]
fn second_cycle_skips_the_scan_but_retitles() {
    let cfg = PointerChainConfig::default();
    let img = fake_process();
    let pattern = Signature::compile("A1 B2 C3 D4 E5 F6 ? ? ? ?").unwrap();
    let mut sessions = SessionMap::new();

    // first cycle
    let signature_address = sig_scan(&img, &pattern, 0x1000, 0x5000).unwrap();
    let player_address = resolve_player_address(&img, &cfg, signature_address).unwrap();
    apply_refresh(
        &mut sessions,
        &vec![RefreshRecord {
            pid: PID,
            outcome: RefreshOutcome::Scanned { signature_address, player_address },
            window_handle: Some(0x42),
        }],
    );

    // second cycle: the session is resolved, so nothing is planned for a
    // scan, and a Cached record carries the addresses over
    assert_eq!(plan_refresh(&sessions, &vec![PID]), Vec::<u32>::new());
    apply_refresh(
        &mut sessions,
        &vec![RefreshRecord {
            pid: PID,
            outcome: RefreshOutcome::Cached,
            window_handle: Some(0x42),
        }],
    );
    sessions.set_titles(&vec![(PID, fake_process())], &cfg, true, false);
    let g = sessions.get(PID).unwrap();
    assert_eq!(g.signature_address, 0x103F);
    assert_eq!(g.player_address, 0xABCD0000);
    assert_eq!(g.title, "Hero");
}

#[test]
fn uncaptured_process_keeps_its_title() {
    let mut sessions = SessionMap::new();
    let cfg = PointerChainConfig::default();
    apply_refresh(
        &mut sessions,
        &vec![RefreshRecord {
            pid: PID,
            outcome: RefreshOutcome::Scanned {
                signature_address: 0x103F,
                player_address: 0xABCD0000,
            },
            window_handle: None,
        }],
    );
    // no capture for this pid: the title pass leaves the session alone
    sessions.set_titles(&Vec::new(), &cfg, true, true);
    assert_eq!(sessions.get(PID).unwrap().title, "");
}
