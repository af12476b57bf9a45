//! Game session cache: per-process resolution state across refresh cycles.
//!
//! The session map is keyed by process id. A refresh cycle plans which
//! observed processes need a fresh scan (those without a resolved player
//! address), applies one record per observed process, and drops sessions
//! whose process disappeared. A session that already resolved keeps its
//! addresses untouched — the pointer chain is assumed stable for the life of
//! the process, a deliberate staleness-for-cost trade, and nothing here
//! re-validates it.

use crate::memory::ProcessImage;
use crate::player::{compose_title, read_player, spec_session_title};
use crate::resolve::PointerChainConfig;
use vstd::prelude::*;

verus! {

/// One tracked game process and its last-known resolution state.
#[derive(Debug)]
pub struct Game {
    pub pid: u32,
    /// Last-known signature address; 0 means unresolved.
    pub signature_address: u64,
    /// Last-known player-data address; 0 means unresolved.
    pub player_address: u64,
    /// The process's top-level window, when one was found.
    pub window_handle: Option<usize>,
    /// Last-computed display title.
    pub title: String,
}

/// The ghost image of a [`Game`].
pub struct GameView {
    pub pid: u32,
    pub signature_address: u64,
    pub player_address: u64,
    pub window_handle: Option<usize>,
    pub title: Seq<char>,
}

impl View for Game {
    type V = GameView;

    open spec fn view(&self) -> GameView {
        GameView {
            pid: self.pid,
            signature_address: self.signature_address,
            player_address: self.player_address,
            window_handle: self.window_handle,
            title: self.title@,
        }
    }
}

impl Clone for Game {
    fn clone(&self) -> (r: Game)
        ensures
            r == self,
    {
        Game {
            pid: self.pid,
            signature_address: self.signature_address,
            player_address: self.player_address,
            window_handle: self.window_handle,
            title: self.title.clone(),
        }
    }
}

/// No two entries share a process id.
pub open spec fn pids_unique(s: Seq<Game>) -> bool {
    forall|i: int, j: int| 0 <= i < j < s.len() ==> s[i].pid != s[j].pid
}

/// The map from process id to session that a sequence of entries holds; a
/// later entry wins, but well-formed maps keep the ids unique.
pub open spec fn games_map(s: Seq<Game>) -> Map<u32, GameView>
    decreases s.len(),
{
    if s.len() == 0 {
        Map::empty()
    } else {
        games_map(s.drop_last()).insert(s.last().pid, s.last()@)
    }
}

/// A process id is in the map exactly when some entry carries it.
proof fn lemma_games_map_dom(s: Seq<Game>, p: u32)
    ensures
        games_map(s).dom().contains(p) <==> exists|i: int|
            0 <= i < s.len() && (#[trigger] s[i]).pid == p,
    decreases s.len(),
{
    if s.len() > 0 {
        lemma_games_map_dom(s.drop_last(), p);
        if games_map(s.drop_last()).dom().contains(p) {
            let i = choose|i: int| 0 <= i < s.drop_last().len() && (#[trigger] s.drop_last()[
                i]).pid == p;
            assert(s[i].pid == p);
        }
        if s.last().pid == p {
            assert(s[s.len() - 1].pid == p);
        }
        if exists|i: int| 0 <= i < s.len() && (#[trigger] s[i]).pid == p {
            let i = choose|i: int| 0 <= i < s.len() && (#[trigger] s[i]).pid == p;
            if i < s.len() - 1 {
                assert(s.drop_last()[i].pid == p);
            }
        }
    }
}

/// The map agrees with entry `i` on its id, provided no later entry shares
/// that id.
proof fn lemma_games_map_at(s: Seq<Game>, i: int)
    requires
        0 <= i < s.len(),
        forall|j: int| i < j < s.len() ==> (#[trigger] s[j]).pid != s[i].pid,
    ensures
        games_map(s).dom().contains(s[i].pid),
        games_map(s)[s[i].pid] == s[i]@,
    decreases s.len(),
{
    if i < s.len() - 1 {
        assert(s.drop_last()[i].pid == s[i].pid);
        lemma_games_map_at(s.drop_last(), i);
    }
}

/// Every element of a filtered sequence occurs in the original.
proof fn lemma_filter_origin(s: Seq<Game>, pred: spec_fn(Game) -> bool, i: int)
    requires
        0 <= i < s.filter(pred).len(),
    ensures
        exists|k: int| 0 <= k < s.len() && #[trigger] s[k] == s.filter(pred)[i],
    decreases s.len(),
{
    reveal(Seq::filter);
    if s.len() > 0 {
        let out = s.filter(pred);
        let rest = s.drop_last();
        if pred(s.last()) {
            if i < out.len() - 1 {
                assert(rest.filter(pred)[i] == out[i]);
                lemma_filter_origin(rest, pred, i);
                let k = choose|k: int| 0 <= k < rest.len() && #[trigger] rest[k] == out[i];
                assert(s[k] == out[i]);
            } else {
                assert(s[s.len() - 1] == out[i]);
            }
        } else {
            lemma_filter_origin(rest, pred, i);
            let k = choose|k: int| 0 <= k < rest.len() && #[trigger] rest[k] == out[i];
            assert(s[k] == out[i]);
        }
    }
}

/// Keeping exactly the entries whose id satisfies `keep` restricts the map
/// to those ids, and preserves id uniqueness.
proof fn lemma_games_map_filter(s: Seq<Game>, keep: spec_fn(u32) -> bool, pred: spec_fn(Game) -> bool)
    requires
        pids_unique(s),
        forall|g: Game| #[trigger] pred(g) == keep(g.pid),
    ensures
        pids_unique(s.filter(pred)),
        games_map(s.filter(pred)) == games_map(s).restrict(Set::new(keep)),
    decreases s.len(),
{
    reveal(Seq::filter);
    let keys = Set::new(keep);
    if s.len() == 0 {
        assert(s.filter(pred) =~= s);
        assert(games_map(s).restrict(keys) =~= Map::empty());
    } else {
        let rest = s.drop_last();
        let x = s.last();
        lemma_games_map_filter(rest, keep, pred);
        if pred(x) {
            assert(s.filter(pred) == rest.filter(pred).push(x));
            assert(rest.filter(pred).push(x).drop_last() =~= rest.filter(pred));
            assert(games_map(s.filter(pred)) == games_map(rest.filter(pred)).insert(
                x.pid,
                x@,
            ));
            assert(games_map(rest).restrict(keys).insert(x.pid, x@) =~= games_map(
                rest,
            ).insert(x.pid, x@).restrict(keys));
            assert forall|i: int, j: int|
                0 <= i < j < s.filter(pred).len() implies (#[trigger] s.filter(pred)[i]).pid != (
            #[trigger] s.filter(pred)[j]).pid by {
                if j == s.filter(pred).len() - 1 {
                    assert(s.filter(pred)[i] == rest.filter(pred)[i]);
                    lemma_filter_origin(rest, pred, i);
                    let k = choose|k: int|
                        0 <= k < rest.len() && #[trigger] rest[k] == rest.filter(pred)[i];
                    assert(s[k] == rest.filter(pred)[i]);
                    assert(s[k].pid != s[s.len() - 1].pid);
                }
            }
        } else {
            assert(s.filter(pred) == rest.filter(pred));
            assert(games_map(rest).restrict(keys) =~= games_map(rest).insert(
                x.pid,
                x@,
            ).restrict(keys));
        }
    }
}

/// The session map: the single source of truth for which processes are
/// currently tracked.
#[derive(Debug)]
pub struct SessionMap {
    games: Vec<Game>,
}

impl View for SessionMap {
    type V = Map<u32, GameView>;

    closed spec fn view(&self) -> Map<u32, GameView> {
        games_map(self.games@)
    }
}

impl SessionMap {
    pub closed spec fn wf(&self) -> bool {
        pids_unique(self.games@)
    }

    /// An empty map: nothing tracked yet.
    pub fn new() -> (r: SessionMap)
        ensures
            r.wf(),
            r@ == Map::<u32, GameView>::empty(),
    {
        SessionMap { games: Vec::new() }
    }

    /// The number of tracked sessions.
    pub fn len(&self) -> (n: usize)
        requires
            self.wf(),
        ensures
            n == self@.dom().len(),
    {
        proof {
            lemma_games_map_len(self.games@);
        }
        self.games.len()
    }

    /// The session for `pid`, when one is tracked.
    pub fn get(&self, pid: u32) -> (r: Option<&Game>)
        requires
            self.wf(),
        ensures
            match r {
                Some(g) => self@.dom().contains(pid) && g@ == self@[pid],
                None => !self@.dom().contains(pid),
            },
    {
        let n = self.games.len();
        let mut i: usize = 0;
        while i < n
            invariant
                self.wf(),
                n == self.games@.len(),
                i <= n,
                forall|j: int| 0 <= j < i ==> (#[trigger] self.games@[j]).pid != pid,
            decreases n - i,
        {
            if self.games[i].pid == pid {
                proof {
                    lemma_games_map_at(self.games@, i as int);
                }
                return Some(&self.games[i]);
            }
            i += 1;
        }
        proof {
            lemma_games_map_dom(self.games@, pid);
        }
        None
    }

    /// The tracked sessions, for display; they hold exactly the map's
    /// contents, one entry per tracked process id.
    pub fn entries(&self) -> (r: &Vec<Game>)
        requires
            self.wf(),
        ensures
            pids_unique(r@),
            games_map(r@) == self@,
    {
        &self.games
    }

    /// Stores `game` under its process id, replacing any session already
    /// tracked under that id.
    pub fn insert(&mut self, game: Game)
        requires
            old(self).wf(),
        ensures
            final(self).wf(),
            final(self)@ == old(self)@.insert(game.pid, game@),
    {
        // bound once: every filter term below must be over the same
        // function value
        let ghost keep = |p: u32| p != game.pid;
        let ghost pred = |g: Game| keep(g.pid);
        let mut kept: Vec<Game> = Vec::new();
        let n = self.games.len();
        let mut i: usize = 0;
        while i < n
            invariant
                self.wf(),
                self.games@ == old(self).games@,
                n == self.games@.len(),
                i <= n,
                keep == (|p: u32| p != game.pid),
                pred == (|g: Game| keep(g.pid)),
                kept@ == self.games@.take(i as int).filter(pred),
            decreases n - i,
        {
            let ghost prefix = self.games@.take(i as int);
            let ghost s1 = self.games@.take(i as int + 1);
            proof {
                assert(s1.drop_last() =~= prefix);
                assert(s1.last() == self.games@[i as int]);
            }
            if self.games[i].pid != game.pid {
                kept.push(self.games[i].clone());
            }
            proof {
                reveal(Seq::filter);
                assert(kept@ == s1.filter(pred));
            }
            i += 1;
        }
        proof {
            assert(self.games@.take(n as int) =~= self.games@);
            lemma_games_map_filter(self.games@, keep, pred);
            broadcast use vstd::seq_lib::group_filter_ensures;
        }
        kept.push(game);
        let ghost filtered = old(self).games@.filter(pred);
        self.games = kept;
        proof {
            assert(self.games@.drop_last() =~= filtered);
            assert(games_map(self.games@) == games_map(filtered).insert(game.pid, game@));
            assert(games_map(filtered).insert(game.pid, game@) =~= old(self)@.insert(
                game.pid,
                game@,
            ));
            assert forall|i2: int, j2: int|
                0 <= i2 < j2 < self.games@.len() implies (#[trigger] self.games@[i2]).pid != (
            #[trigger] self.games@[j2]).pid by {
                if j2 == self.games@.len() - 1 {
                    assert(self.games@[i2] == filtered[i2]);
                    assert(pred(filtered[i2]));
                }
            }
        }
    }

    /// Drops every session whose process id is not in `observed` — the
    /// process has exited, so its state is gone.
    pub fn retain_observed(&mut self, observed: &Vec<u32>)
        requires
            old(self).wf(),
        ensures
            final(self).wf(),
            final(self)@ == old(self)@.restrict(Set::new(|p: u32| observed@.contains(p))),
    {
        // bound once: every filter term below must be over the same
        // function value
        let ghost keep = |p: u32| observed@.contains(p);
        let ghost pred = |g: Game| keep(g.pid);
        let mut kept: Vec<Game> = Vec::new();
        let n = self.games.len();
        let mut i: usize = 0;
        while i < n
            invariant
                self.wf(),
                self.games@ == old(self).games@,
                n == self.games@.len(),
                i <= n,
                keep == (|p: u32| observed@.contains(p)),
                pred == (|g: Game| keep(g.pid)),
                kept@ == self.games@.take(i as int).filter(pred),
            decreases n - i,
        {
            let ghost prefix = self.games@.take(i as int);
            let ghost s1 = self.games@.take(i as int + 1);
            proof {
                assert(s1.drop_last() =~= prefix);
                assert(s1.last() == self.games@[i as int]);
            }
            if contains_pid(observed, self.games[i].pid) {
                kept.push(self.games[i].clone());
            }
            proof {
                reveal(Seq::filter);
                assert(kept@ == s1.filter(pred));
            }
            i += 1;
        }
        proof {
            assert(self.games@.take(n as int) =~= self.games@);
            lemma_games_map_filter(self.games@, keep, pred);
        }
        self.games = kept;
        proof {
            assert(Set::new(keep) =~= Set::new(|p: u32| observed@.contains(p)));
        }
    }
}

/// The number of entries equals the map's cardinality when ids are unique.
proof fn lemma_games_map_len(s: Seq<Game>)
    requires
        pids_unique(s),
    ensures
        games_map(s).dom().finite(),
        games_map(s).dom().len() == s.len(),
    decreases s.len(),
{
    if s.len() > 0 {
        lemma_games_map_len(s.drop_last());
        lemma_games_map_dom(s.drop_last(), s.last().pid);
    }
}

/// Whether `observed` holds `pid`.
fn contains_pid(observed: &Vec<u32>, pid: u32) -> (b: bool)
    ensures
        b == observed@.contains(pid),
{
    let n = observed.len();
    let mut i: usize = 0;
    while i < n
        invariant
            n == observed@.len(),
            i <= n,
            forall|j: int| 0 <= j < i ==> observed@[j] != pid,
        decreases n - i,
    {
        if observed[i] == pid {
            return true;
        }
        i += 1;
    }
    false
}

/// What one observed process contributed to a refresh cycle.
#[derive(Clone, Copy, Debug)]
pub enum RefreshOutcome {
    /// The process could not be opened, or its module was not found: any
    /// tracked session is left exactly as it was.
    Unavailable,
    /// A fresh scan and resolve ran; 0 records a step that failed.
    Scanned { signature_address: u64, player_address: u64 },
    /// The session had already resolved: its addresses are reused untouched
    /// and the expensive scan is skipped.
    Cached,
}

/// One observed process of a refresh cycle, with its freshly looked-up
/// window.
#[derive(Clone, Copy, Debug)]
pub struct RefreshRecord {
    pub pid: u32,
    pub outcome: RefreshOutcome,
    pub window_handle: Option<usize>,
}

/// A process needs the expensive scan exactly when no tracked session for it
/// has a resolved player address.
pub open spec fn needs_scan(m: Map<u32, GameView>, pid: u32) -> bool {
    !(m.dom().contains(pid) && m[pid].player_address != 0)
}

/// The observed process ids that this cycle must scan, in observation order.
pub open spec fn spec_plan(m: Map<u32, GameView>, observed: Seq<u32>) -> Seq<u32> {
    observed.filter(|p: u32| needs_scan(m, p))
}

/// How one record rewrites the session map: `Unavailable` leaves it alone,
/// `Scanned` stores the fresh addresses, `Cached` keeps the old addresses
/// (or 0 if no session was tracked); either insert refreshes the window and
/// clears the title for this cycle.
pub open spec fn apply_record(m: Map<u32, GameView>, r: RefreshRecord) -> Map<u32, GameView> {
    match r.outcome {
        RefreshOutcome::Unavailable => m,
        RefreshOutcome::Scanned { signature_address, player_address } => m.insert(
            r.pid,
            GameView {
                pid: r.pid,
                signature_address,
                player_address,
                window_handle: r.window_handle,
                title: Seq::empty(),
            },
        ),
        RefreshOutcome::Cached => {
            let sig = if m.dom().contains(r.pid) {
                m[r.pid].signature_address
            } else {
                0
            };
            let player = if m.dom().contains(r.pid) {
                m[r.pid].player_address
            } else {
                0
            };
            m.insert(
                r.pid,
                GameView {
                    pid: r.pid,
                    signature_address: sig,
                    player_address: player,
                    window_handle: r.window_handle,
                    title: Seq::empty(),
                },
            )
        },
    }
}

/// The records of one cycle applied in order.
pub open spec fn apply_records(m: Map<u32, GameView>, rs: Seq<RefreshRecord>) -> Map<
    u32,
    GameView,
>
    decreases rs.len(),
{
    if rs.len() == 0 {
        m
    } else {
        apply_record(apply_records(m, rs.drop_last()), rs.last())
    }
}

/// The process ids observed this cycle.
pub open spec fn recorded_pids(rs: Seq<RefreshRecord>) -> Set<u32> {
    Set::new(|p: u32| exists|i: int| 0 <= i < rs.len() && (#[trigger] rs[i]).pid == p)
}

/// Plans a refresh cycle: of the observed process ids, exactly those without
/// a resolved session are scheduled for the scan, in observation order.
pub fn plan_refresh(sessions: &SessionMap, observed: &Vec<u32>) -> (r: Vec<u32>)
    requires
        sessions.wf(),
    ensures
        r@ == spec_plan(sessions@, observed@),
{
    let mut r: Vec<u32> = Vec::new();
    let n = observed.len();
    let mut i: usize = 0;
    while i < n
        invariant
            sessions.wf(),
            n == observed@.len(),
            i <= n,
            r@ == spec_plan(sessions@, observed@.take(i as int)),
        decreases n - i,
    {
        let p = observed[i];
        let scan_needed = match sessions.get(p) {
            Some(g) => g.player_address == 0,
            None => true,
        };
        if scan_needed {
            r.push(p);
        }
        proof {
            reveal(Seq::filter);
            assert(observed@.take(i as int + 1).drop_last() =~= observed@.take(i as int));
            assert(observed@.take(i as int + 1).last() == observed@[i as int]);
            assert(r@ == spec_plan(sessions@, observed@.take(i as int + 1)));
        }
        i += 1;
    }
    proof {
        assert(observed@.take(n as int) =~= observed@);
    }
    r
}

/// Applies one refresh cycle: every record rewrites its process's session as
/// [`apply_record`] says, in order, and then every session whose process was
/// not observed this cycle is dropped.
pub fn apply_refresh(sessions: &mut SessionMap, records: &Vec<RefreshRecord>)
    requires
        old(sessions).wf(),
    ensures
        final(sessions).wf(),
        final(sessions)@ == apply_records(old(sessions)@, records@).restrict(
            recorded_pids(records@),
        ),
{
    let n = records.len();
    let mut i: usize = 0;
    while i < n
        invariant
            sessions.wf(),
            n == records@.len(),
            i <= n,
            sessions@ == apply_records(old(sessions)@, records@.take(i as int)),
        decreases n - i,
    {
        let rec = &records[i];
        match rec.outcome {
            RefreshOutcome::Unavailable => {},
            RefreshOutcome::Scanned { signature_address, player_address } => {
                sessions.insert(
                    Game {
                        pid: rec.pid,
                        signature_address,
                        player_address,
                        window_handle: rec.window_handle,
                        title: String::new(),
                    },
                );
            },
            RefreshOutcome::Cached => {
                let sig = match sessions.get(rec.pid) {
                    Some(g) => g.signature_address,
                    None => 0,
                };
                let player = match sessions.get(rec.pid) {
                    Some(g) => g.player_address,
                    None => 0,
                };
                sessions.insert(
                    Game {
                        pid: rec.pid,
                        signature_address: sig,
                        player_address: player,
                        window_handle: rec.window_handle,
                        title: String::new(),
                    },
                );
            },
        }
        proof {
            assert(records@.take(i as int + 1).drop_last() =~= records@.take(i as int));
            assert(records@.take(i as int + 1).last() == records@[i as int]);
            assert(sessions@ =~= apply_records(old(sessions)@, records@.take(i as int + 1)));
        }
        i += 1;
    }
    proof {
        assert(records@.take(n as int) =~= records@);
    }
    let mut pids: Vec<u32> = Vec::new();
    let mut j: usize = 0;
    while j < n
        invariant
            sessions.wf(),
            sessions@ == apply_records(old(sessions)@, records@),
            n == records@.len(),
            j <= n,
            pids@.len() == j,
            forall|k: int| 0 <= k < j ==> pids@[k] == (#[trigger] records@[k]).pid,
        decreases n - j,
    {
        pids.push(records[j].pid);
        j += 1;
    }
    let ghost mid = sessions@;
    sessions.retain_observed(&pids);
    proof {
        assert(Set::new(|p: u32| pids@.contains(p)) =~= recorded_pids(records@)) by {
            assert forall|p: u32|
                pids@.contains(p) == recorded_pids(records@).contains(p) by {
                if pids@.contains(p) {
                    let k = choose|k: int| 0 <= k < pids@.len() && pids@[k] == p;
                    assert(records@[k].pid == p);
                }
                if recorded_pids(records@).contains(p) {
                    let k = choose|k: int|
                        0 <= k < records@.len() && (#[trigger] records@[k]).pid == p;
                    assert(pids@[k] == p);
                }
            }
        }
        assert(final(sessions)@ == mid.restrict(recorded_pids(records@)));
    }
}

/// One top-level window as enumeration reported it: its handle and the
/// process id the window system says owns it (0 when that lookup failed).
#[derive(Clone, Copy, Debug, PartialEq, Eq, Structural)]
pub struct WindowInfo {
    pub handle: usize,
    pub pid: u32,
}

/// The handle of the first enumerated window owned by `pid`, or `None` when
/// no enumerated window is.
pub fn find_process_window(pid: u32, windows: &Vec<WindowInfo>) -> (r: Option<usize>)
    ensures
        match r {
            Some(h) => exists|i: int|
                {
                    &&& 0 <= i < windows@.len()
                    &&& (#[trigger] windows@[i]).pid == pid
                    &&& windows@[i].handle == h
                    &&& forall|j: int| 0 <= j < i ==> (#[trigger] windows@[j]).pid != pid
                },
            None => forall|i: int|
                0 <= i < windows@.len() ==> (#[trigger] windows@[i]).pid != pid,
        },
{
    let n = windows.len();
    let mut i: usize = 0;
    while i < n
        invariant
            n == windows@.len(),
            i <= n,
            forall|j: int| 0 <= j < i ==> (#[trigger] windows@[j]).pid != pid,
        decreases n - i,
    {
        if windows[i].pid == pid {
            return Some(windows[i].handle);
        }
        i += 1;
    }
    None
}

/// A session that already resolved a player address is never scheduled for a
/// scan again, whatever the process's memory now holds: the plan passes its
/// id over.
pub proof fn lemma_resolved_session_not_rescanned(
    m: Map<u32, GameView>,
    observed: Seq<u32>,
    pid: u32,
)
    requires
        m.dom().contains(pid),
        m[pid].player_address != 0,
    ensures
        !spec_plan(m, observed).contains(pid),
    decreases observed.len(),
{
    reveal(Seq::filter);
    if observed.len() > 0 {
        lemma_resolved_session_not_rescanned(m, observed.drop_last(), pid);
        let plan = spec_plan(m, observed);
        if plan.contains(pid) {
            let k = choose|k: int| 0 <= k < plan.len() && plan[k] == pid;
            let prev = spec_plan(m, observed.drop_last());
            if needs_scan(m, observed.last()) {
                if k < plan.len() - 1 {
                    assert(prev[k] == pid);
                } else {
                    assert(observed.last() == pid);
                }
            } else {
                assert(prev[k] == pid);
            }
        }
    }
}

/// A `Cached` record hands the old signature and player addresses on
/// unchanged: the stale-by-design reuse the cache promises.
pub proof fn lemma_cached_record_reuses_addresses(m: Map<u32, GameView>, rec: RefreshRecord)
    requires
        rec.outcome is Cached,
        m.dom().contains(rec.pid),
    ensures
        apply_record(m, rec).dom().contains(rec.pid),
        apply_record(m, rec)[rec.pid].signature_address == m[rec.pid].signature_address,
        apply_record(m, rec)[rec.pid].player_address == m[rec.pid].player_address,
{
}

/// A session whose process id was not observed this cycle does not survive
/// the refresh.
pub proof fn lemma_unobserved_session_removed(
    m: Map<u32, GameView>,
    records: Seq<RefreshRecord>,
    pid: u32,
)
    requires
        !recorded_pids(records).contains(pid),
    ensures
        !apply_records(m, records).restrict(recorded_pids(records)).dom().contains(pid),
{
}

/// The captured memory for `pid`: the first capture this cycle made of it.
pub open spec fn image_for(images: Seq<(u32, ProcessImage)>, pid: u32) -> Option<ProcessImage>
    decreases images.len(),
{
    if images.len() == 0 {
        None
    } else if images[0].0 == pid {
        Some(images[0].1)
    } else {
        image_for(images.drop_first(), pid)
    }
}

/// The captured memory for `pid` out of this cycle's captures.
fn image_lookup<'a>(images: &'a Vec<(u32, ProcessImage)>, pid: u32) -> (r: Option<
    &'a ProcessImage,
>)
    ensures
        match r {
            Some(img) => image_for(images@, pid) == Some(*img),
            None => image_for(images@, pid) is None,
        },
{
    let n = images.len();
    let mut i: usize = 0;
    proof {
        assert(images@.skip(0) =~= images@);
    }
    while i < n
        invariant
            n == images@.len(),
            i <= n,
            image_for(images@, pid) == image_for(images@.skip(i as int), pid),
        decreases n - i,
    {
        proof {
            assert(images@.skip(i as int).drop_first() =~= images@.skip(i as int + 1));
            assert(images@.skip(i as int)[0] == images@[i as int]);
        }
        if images[i].0 == pid {
            return Some(&images[i].1);
        }
        i += 1;
    }
    None
}

/// How one refresh's title pass rewrites a session: a session with a
/// resolved player address whose process memory was captured this cycle gets
/// the freshly composed title; every other session keeps its state.
pub open spec fn retitled(
    g: GameView,
    images: Seq<(u32, ProcessImage)>,
    cfg: PointerChainConfig,
    show_username: bool,
    show_job: bool,
) -> GameView {
    if g.player_address == 0 {
        g
    } else {
        match image_for(images, g.pid) {
            None => g,
            Some(img) => GameView {
                title: spec_session_title(img@, cfg, g.player_address, show_username, show_job),
                ..g
            },
        }
    }
}

/// A capture that `image_for` hands out is one of the captured images.
proof fn lemma_image_for_origin(images: Seq<(u32, ProcessImage)>, pid: u32)
    ensures
        match image_for(images, pid) {
            Some(img) => exists|j: int|
                0 <= j < images.len() && (#[trigger] images[j]).1 == img && images[j].0 == pid,
            None => true,
        },
    decreases images.len(),
{
    if images.len() > 0 && images[0].0 != pid {
        lemma_image_for_origin(images.drop_first(), pid);
        if image_for(images, pid) is Some {
            let img = image_for(images, pid).unwrap();
            let j = choose|j: int|
                0 <= j < images.drop_first().len() && (#[trigger] images.drop_first()[j]).1
                    == img && images.drop_first()[j].0 == pid;
            assert(images[j + 1] == images.drop_first()[j]);
        }
    }
}

impl SessionMap {
    /// The per-cycle title pass: every session with a resolved player
    /// address whose process memory was captured this cycle gets a freshly
    /// composed title; sessions without a resolved address, or whose process
    /// was not captured, keep their state. The caller walks the entries
    /// afterwards to put each title on its session's window.
    #[verifier::rlimit(50)]
    pub fn set_titles(
        &mut self,
        images: &Vec<(u32, ProcessImage)>,
        cfg: &PointerChainConfig,
        show_username: bool,
        show_job: bool,
    )
        requires
            old(self).wf(),
            forall|ii: int| 0 <= ii < images@.len() ==> (#[trigger] images@[ii]).1.wf(),
        ensures
            final(self).wf(),
            final(self)@.dom() == old(self)@.dom(),
            forall|p: u32|
                #[trigger] old(self)@.dom().contains(p) ==> final(self)@[p] == retitled(
                    old(self)@[p],
                    images@,
                    *cfg,
                    show_username,
                    show_job,
                ),
    {
        let mut updated: Vec<Game> = Vec::new();
        let n = self.games.len();
        let mut i: usize = 0;
        while i < n
            invariant
                pids_unique(self.games@),
                self.games@ == old(self).games@,
                forall|ii: int| 0 <= ii < images@.len() ==> (#[trigger] images@[ii]).1.wf(),
                n == self.games@.len(),
                i <= n,
                updated@.len() == i,
                forall|k: int|
                    0 <= k < i ==> (#[trigger] updated@[k])@ == retitled(
                        self.games@[k]@,
                        images@,
                        *cfg,
                        show_username,
                        show_job,
                    ),
            decreases n - i,
        {
            let player_address = self.games[i].player_address;
            if player_address != 0 {
                match image_lookup(images, self.games[i].pid) {
                    Some(img) => {
                        proof {
                            lemma_image_for_origin(images@, self.games@[i as int].pid);
                        }
                        let snap = read_player(img, cfg, player_address);
                        let title = compose_title(&snap, show_username, show_job);
                        updated.push(
                            Game {
                                pid: self.games[i].pid,
                                signature_address: self.games[i].signature_address,
                                player_address,
                                window_handle: self.games[i].window_handle,
                                title,
                            },
                        );
                    },
                    None => {
                        updated.push(self.games[i].clone());
                    },
                }
            } else {
                updated.push(self.games[i].clone());
            }
            i += 1;
        }
        let ghost olds = self.games@;
        self.games = updated;
        proof {
            assert forall|k: int, k2: int|
                0 <= k < k2 < self.games@.len() implies (#[trigger] self.games@[k]).pid != (
            #[trigger] self.games@[k2]).pid by {
                assert(self.games@[k]@.pid == olds[k]@.pid);
                assert(self.games@[k2]@.pid == olds[k2]@.pid);
            }
            assert forall|p: u32|
                games_map(olds).dom().contains(p) == #[trigger] games_map(
                self.games@,
            ).dom().contains(p) by {
                lemma_games_map_dom(olds, p);
                lemma_games_map_dom(self.games@, p);
                if games_map(olds).dom().contains(p) {
                    let k = choose|k: int| 0 <= k < olds.len() && (#[trigger] olds[k]).pid == p;
                    assert(self.games@[k].pid == p);
                }
                if games_map(self.games@).dom().contains(p) {
                    let k = choose|k: int|
                        0 <= k < self.games@.len() && (#[trigger] self.games@[k]).pid == p;
                    assert(olds[k].pid == p);
                }
            }
            assert(games_map(self.games@).dom() =~= games_map(olds).dom());
            assert forall|p: u32|
                #[trigger] games_map(olds).dom().contains(p) implies games_map(self.games@)[p]
                == retitled(
                games_map(olds)[p],
                images@,
                *cfg,
                show_username,
                show_job,
            ) by {
                lemma_games_map_dom(olds, p);
                let k = choose|k: int| 0 <= k < olds.len() && (#[trigger] olds[k]).pid == p;
                lemma_games_map_at(olds, k);
                assert(self.games@[k].pid == p);
                assert forall|j: int|
                    k < j < self.games@.len() implies (#[trigger] self.games@[j]).pid
                    != self.games@[k].pid by {
                    assert(olds[j].pid == self.games@[j]@.pid);
                }
                lemma_games_map_at(self.games@, k);
            }
        }
    }
}


} // verus!
