//! Player field reader: fixed-offset fields out of the resolved player
//! structure, the job-id lookup table, and title assembly.
//!
//! Reading never fails: an unreadable name yields the empty string and an
//! unreadable job id yields 0, so a half-broken session still gets a title.

use crate::memory::{bytes_at, cstr_at, read_ok, utf8_lossy_of, ProcessImage};
use crate::resolve::PointerChainConfig;
use vstd::bytes::spec_u32_from_le_bytes;
use vstd::prelude::*;

verus! {

/// What one refresh observed of a player: ephemeral, derived fresh each
/// cycle, never persisted.
#[derive(Debug)]
pub struct PlayerSnapshot {
    pub name: String,
    pub job_id: u32,
}

/// The fixed, total job-id lookup table; ids outside the table read as
/// "Unknown".
pub open spec fn spec_job_name(job_id: u32) -> Seq<char> {
    if job_id == 0 {
        "Visitor"@
    } else if job_id == 111 {
        "Soldier"@
    } else if job_id == 121 {
        "Knight"@
    } else if job_id == 122 {
        "Champion"@
    } else if job_id == 211 {
        "Muse"@
    } else if job_id == 221 {
        "Mage"@
    } else if job_id == 222 {
        "Cleric"@
    } else if job_id == 311 {
        "Hawker"@
    } else if job_id == 321 {
        "Raider"@
    } else if job_id == 322 {
        "Scout"@
    } else if job_id == 411 {
        "Dealer"@
    } else if job_id == 421 {
        "Bourgeois"@
    } else if job_id == 422 {
        "Artisan"@
    } else {
        "Unknown"@
    }
}

/// The display name of a job id, per the fixed lookup table.
pub fn job_id_to_name(job_id: u32) -> (r: String)
    ensures
        r@ == spec_job_name(job_id),
{
    let name: &str = match job_id {
        0 => "Visitor",
        111 => "Soldier",
        121 => "Knight",
        122 => "Champion",
        211 => "Muse",
        221 => "Mage",
        222 => "Cleric",
        311 => "Hawker",
        321 => "Raider",
        322 => "Scout",
        411 => "Dealer",
        421 => "Bourgeois",
        422 => "Artisan",
        _ => "Unknown",
    };
    String::from_str(name)
}

/// The zero-terminated name bytes at the player structure's name field, when
/// the field lies in the address space and reads up to a terminator.
pub open spec fn spec_player_name_bytes(
    m: Map<u64, u8>,
    cfg: PointerChainConfig,
    player_address: u64,
) -> Option<Seq<u8>> {
    if player_address + cfg.name_offset > u64::MAX {
        None
    } else {
        cstr_at(m, player_address + cfg.name_offset)
    }
}

/// The 4-byte little-endian job id at the player structure's job field, or 0
/// when the field does not read.
pub open spec fn spec_player_job(
    m: Map<u64, u8>,
    cfg: PointerChainConfig,
    player_address: u64,
) -> u32 {
    let ja = player_address + cfg.job_offset;
    if ja <= u64::MAX && read_ok(m, ja as u64, 4) {
        spec_u32_from_le_bytes(bytes_at(m, ja as u64, 4))
    } else {
        0
    }
}

/// The decoded player name: the zero-terminated bytes at the name field,
/// replacement-decoded; unreadable data reads as the empty name.
pub open spec fn spec_player_name(
    m: Map<u64, u8>,
    cfg: PointerChainConfig,
    player_address: u64,
) -> Seq<char> {
    match spec_player_name_bytes(m, cfg, player_address) {
        Some(bs) => utf8_lossy_of(bs),
        None => Seq::empty(),
    }
}

/// The title a session with player data at `player_address` gets this cycle.
pub open spec fn spec_session_title(
    m: Map<u64, u8>,
    cfg: PointerChainConfig,
    player_address: u64,
    show_username: bool,
    show_job: bool,
) -> Seq<char> {
    spec_title(
        spec_player_name(m, cfg, player_address),
        spec_job_name(spec_player_job(m, cfg, player_address)),
        show_username,
        show_job,
    )
}

/// Reads the player's name and job id at their fixed offsets from
/// `player_address`. Missing or unreadable data degrades to the empty name
/// and job id 0 rather than failing.
pub fn read_player(
    mem: &ProcessImage,
    cfg: &PointerChainConfig,
    player_address: u64,
) -> (r: PlayerSnapshot)
    requires
        mem.wf(),
    ensures
        r.job_id == spec_player_job(mem@, *cfg, player_address),
        r.name@ == spec_player_name(mem@, *cfg, player_address),
        match spec_player_name_bytes(mem@, *cfg, player_address) {
            Some(bs) => vstd::utf8::valid_utf8(bs) ==> r.name@ == vstd::utf8::decode_utf8(bs),
            None => true,
        },
{
    let name: String = match player_address.checked_add(cfg.name_offset) {
        Some(na) => match mem.read_string(na) {
            Ok(s) => s,
            Err(_) => String::new(),
        },
        None => String::new(),
    };
    let job_id: u32 = match player_address.checked_add(cfg.job_offset) {
        Some(ja) => match mem.read_u32(ja) {
            Ok(j) => j,
            Err(_) => 0,
        },
        None => 0,
    };
    PlayerSnapshot { name, job_id }
}

/// The title text for one session: the enabled parts in order, joined by
/// `" - "`.
pub open spec fn spec_title(
    name: Seq<char>,
    job_name: Seq<char>,
    show_username: bool,
    show_job: bool,
) -> Seq<char> {
    if show_username && show_job {
        name + " - "@ + job_name
    } else if show_username {
        name
    } else if show_job {
        job_name
    } else {
        Seq::empty()
    }
}

/// Assembles the window title from a snapshot and the two display flags.
pub fn compose_title(snapshot: &PlayerSnapshot, show_username: bool, show_job: bool) -> (r:
    String)
    ensures
        r@ == spec_title(
            snapshot.name@,
            spec_job_name(snapshot.job_id),
            show_username,
            show_job,
        ),
{
    if show_username && show_job {
        let job_name = job_id_to_name(snapshot.job_id);
        let mut t = snapshot.name.clone();
        t.append(" - ");
        t.append(job_name.as_str());
        t
    } else if show_username {
        snapshot.name.clone()
    } else if show_job {
        job_id_to_name(snapshot.job_id)
    } else {
        String::new()
    }
}

} // verus!
