//! Pointer-chain resolution: displacement read, the `+ 11` instruction-tail
//! arithmetic, pointer dereference, and every unresolved case.

use rose_title_changer::memory::ProcessImage;
use rose_title_changer::resolve::{
    displacement_address, resolve_player_address, resolve_pointer_address, PointerChainConfig,
};

fn chain_image(sig_addr: u64, displacement: u32, pointer: u64) -> ProcessImage {
    // one region covering the signature site, one for the pointer slot
    let mut img = ProcessImage::new();
    let mut site = vec![0u8; 11];
    site[7..11].copy_from_slice(&displacement.to_le_bytes());
    assert!(img.add_region(sig_addr, site));
    let slot = sig_addr + displacement as u64 + 11;
    assert!(img.add_region(slot, pointer.to_le_bytes().to_vec()));
    img
}

#[test]
fn chain_resolves_displacement_and_pointer() {
    let cfg = PointerChainConfig::default();
    let img = chain_image(0x103F, 0x20, 0xABCD0000);
    assert_eq!(resolve_pointer_address(&img, &cfg, 0x103F), Some(0x103F + 0x20 + 11));
    assert_eq!(resolve_player_address(&img, &cfg, 0x103F), Some(0xABCD0000));
}

#[test]
fn zero_displacement_is_unresolved() {
    let cfg = PointerChainConfig::default();
    let img = chain_image(0x103F, 0, 0xABCD0000);
    assert_eq!(resolve_pointer_address(&img, &cfg, 0x103F), None);
    assert_eq!(resolve_player_address(&img, &cfg, 0x103F), None);
}

#[test]
fn zero_pointer_is_unresolved() {
    let cfg = PointerChainConfig::default();
    let img = chain_image(0x103F, 0x20, 0);
    assert_eq!(resolve_player_address(&img, &cfg, 0x103F), None);
}

#[test]
fn unreadable_displacement_is_unresolved() {
    let cfg = PointerChainConfig::default();
    let img = ProcessImage::new();
    assert_eq!(resolve_player_address(&img, &cfg, 0x103F), None);
}

#[test]
fn unreadable_pointer_slot_is_unresolved() {
    let cfg = PointerChainConfig::default();
    let mut img = ProcessImage::new();
    let mut site = vec![0u8; 11];
    site[7..11].copy_from_slice(&0x20u32.to_le_bytes());
    assert!(img.add_region(0x103F, site));
    // nothing readable at the pointer slot
    assert_eq!(resolve_player_address(&img, &cfg, 0x103F), None);
}

#[test]
fn displacement_address_is_fixed_offset() {
    let cfg = PointerChainConfig::default();
    assert_eq!(displacement_address(&cfg, 0x103F), Some(0x1046));
    assert_eq!(displacement_address(&cfg, u64::MAX), None);
}

#[test]
fn default_config_matches_target_binary_layout() {
    let cfg = PointerChainConfig::default();
    assert_eq!(cfg.displacement_offset, 0x07);
    assert_eq!(cfg.instruction_tail, 11);
    assert_eq!(cfg.name_offset, 0x0B10);
    assert_eq!(cfg.job_offset, 0x3B1A);
}
