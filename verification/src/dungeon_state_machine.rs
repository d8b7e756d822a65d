//! The session phase tracker: a finite state machine that walks an
//! append-only corpus of (text, timestamp) log lines, advancing a read
//! cursor through five phases and emitting a finalized line range each time
//! a dungeon session closes. Timeouts compare against the corpus timestamps
//! unless live tailing was detected at floor-gate time (the sync flag), in
//! which case they compare against the wall clock handed in by the caller.

use vstd::prelude::*;

use crate::aggregate::NamedAggregate;
use crate::aggregate::clamp_i64;
use crate::aggregate::sat_sub_i64;
use crate::engines::Extractor;
use crate::engines::agg_of;
use crate::engines::engine_get_part;
use crate::engines::engine_item_get;
use crate::engines::engine_item_use;
use crate::engines::engine_kill_self;
use crate::engines::first_match_from;
use crate::engines::lemma_views_of_subrange;
use crate::engines::run_extractor;
use crate::engines::search_dungeon_clear;
use crate::engines::search_floor_first;
use crate::engines::search_reward_first;
use crate::engines::search_reward_sell_first;
use crate::engines::search_sell_total_first;
use crate::engines::views_of;

verus! {

/// The five session phases.
#[derive(Clone, Copy, Debug, PartialEq, Eq, Structural)]
pub enum DungeonState {
    OutOfDungeon,
    Dungeon,
    Clear,
    Reward,
    Sell,
}

/// The inactivity timeout, in seconds, after the dungeon-clear marker.
pub open spec fn timeout_secs() -> int {
    120
}

/// The live-tailing threshold, in seconds, between the wall clock and the
/// floor-gate line's timestamp.
pub open spec fn sync_threshold_secs() -> int {
    6
}

/// The mathematical state of a tracker.
#[verifier::ext_equal]
pub ghost struct TrackerView {
    pub state: DungeonState,
    pub lines: Seq<Seq<char>>,
    pub stamps: Seq<int>,
    pub from: int,
    pub cursor: int,
    pub start_time: Option<int>,
    pub clear_time: Option<int>,
    pub pending: Option<(int, int)>,
    pub sync: bool,
}

/// The value under a `Some`, defaulting to zero (used only where the
/// tracker invariant guarantees presence).
pub open spec fn some_val(o: Option<int>) -> int {
    match o {
        Some(x) => x,
        None => 0,
    }
}

impl TrackerView {
    /// Shape invariant: one timestamp per line, the session window inside
    /// the corpus, the clock anchors present in the phases that read them,
    /// and any pending range inside the corpus.
    pub open spec fn wf(self) -> bool {
        &&& self.lines.len() == self.stamps.len()
        &&& 0 <= self.from <= self.cursor <= self.lines.len()
        &&& (self.state != DungeonState::OutOfDungeon ==> self.start_time is Some
            && self.lines.len() > 0)
        &&& ((self.state == DungeonState::Clear || self.state == DungeonState::Reward
            || self.state == DungeonState::Sell) ==> self.clear_time is Some)
        &&& (match self.pending {
            Some((a, b)) => 0 <= a <= b <= self.lines.len(),
            None => true,
        })
    }
}

/// The clock a timeout compares against: the wall clock when synchronized,
/// else the timestamp at the cursor (or at the last line once the cursor
/// has consumed the whole corpus).
pub open spec fn effective_now(v: TrackerView, now: int) -> int {
    if v.sync {
        now
    } else if v.cursor < v.lines.len() {
        v.stamps[v.cursor]
    } else if v.lines.len() > 0 {
        v.stamps[v.lines.len() - 1]
    } else {
        now
    }
}

/// A session closed by inactivity: the window so far is emitted and the
/// idle tail is discarded.
pub open spec fn timeout_close(v: TrackerView) -> TrackerView {
    TrackerView {
        state: DungeonState::OutOfDungeon,
        pending: Some((v.from, v.cursor)),
        cursor: v.lines.len() as int,
        from: v.lines.len() as int,
        ..v
    }
}

/// One transition of the phase tracker, given the wall-clock time `now`.
/// Scans are anchored at the cursor; the cursor advances to the match, or
/// to the corpus length when nothing is found this call.
pub open spec fn spec_step(v: TrackerView, now: int) -> TrackerView {
    match v.state {
        DungeonState::OutOfDungeon => match first_match_from(v.lines, v.cursor, "がフロアゲートを起動した！"@) {
            Some(g) => TrackerView {
                state: DungeonState::Dungeon,
                from: g,
                cursor: g,
                start_time: Some(v.stamps[g]),
                sync: now - v.stamps[g] < sync_threshold_secs(),
                ..v
            },
            None => TrackerView { cursor: v.lines.len() as int, ..v },
        },
        DungeonState::Dungeon => match first_match_from(v.lines, v.cursor, "ダンジョン成功報酬"@) {
            Some(c) => TrackerView {
                state: DungeonState::Clear,
                cursor: c,
                clear_time: Some(v.stamps[c]),
                ..v
            },
            None => TrackerView { cursor: v.lines.len() as int, ..v },
        },
        DungeonState::Clear => {
            if effective_now(v, now) - some_val(v.clear_time) > timeout_secs() {
                timeout_close(v)
            } else {
                match first_match_from(v.lines, v.cursor, "報酬－"@) {
                    Some(r) => TrackerView { state: DungeonState::Reward, cursor: r, ..v },
                    None => TrackerView { cursor: v.lines.len() as int, ..v },
                }
            }
        },
        DungeonState::Reward => {
            if effective_now(v, now) - some_val(v.clear_time) > timeout_secs() {
                timeout_close(v)
            } else {
                let gate = first_match_from(v.lines, v.cursor, "がフロアゲートを起動した！"@);
                let sell = first_match_from(v.lines, v.cursor, "報酬売却－"@);
                match gate {
                    Some(g) => if sell is None || g <= some_val(sell) {
                        TrackerView {
                            state: DungeonState::Dungeon,
                            pending: Some((v.from, g)),
                            from: g,
                            cursor: g,
                            start_time: Some(v.stamps[g]),
                            ..v
                        }
                    } else {
                        TrackerView { state: DungeonState::Sell, cursor: some_val(sell), ..v }
                    },
                    None => match sell {
                        Some(s) => TrackerView { state: DungeonState::Sell, cursor: s, ..v },
                        None => TrackerView { cursor: v.lines.len() as int, ..v },
                    },
                }
            }
        },
        DungeonState::Sell => match first_match_from(v.lines, v.cursor, "報酬売却計"@) {
            Some(t) => TrackerView {
                state: DungeonState::OutOfDungeon,
                pending: Some((v.from, t + 1)),
                from: t + 1,
                cursor: t + 1,
                ..v
            },
            None => TrackerView { cursor: v.lines.len() as int, ..v },
        },
    }
}

/// Where a first-match scan lands: inside the range, on a marker line, with
/// no marker line before it; or nowhere, when no line from `from` on has
/// the marker.
pub proof fn lemma_first_match_bounds(lines: Seq<Seq<char>>, from: int, m: Seq<char>)
    ensures
        match first_match_from(lines, from, m) {
            Some(i) => from <= i < lines.len() && crate::engines::has_marker(lines[i], m) && (
            forall|k: int|
                from <= k < i ==> !crate::engines::has_marker(#[trigger] lines[k], m)),
            None => 0 <= from ==> forall|k: int|
                from <= k < lines.len() ==> !crate::engines::has_marker(#[trigger] lines[k], m),
        },
    decreases lines.len() - from,
{
    if from < 0 || from >= lines.len() {
    } else if crate::engines::has_marker(lines[from], m) {
    } else {
        lemma_first_match_bounds(lines, from + 1, m);
    }
}

/// A scan from `from` finds exactly the first marker line.
pub proof fn lemma_first_match_is(lines: Seq<Seq<char>>, from: int, m: Seq<char>, k: int)
    requires
        0 <= from <= k < lines.len(),
        crate::engines::has_marker(lines[k], m),
        forall|j: int| from <= j < k ==> !crate::engines::has_marker(#[trigger] lines[j], m),
    ensures
        first_match_from(lines, from, m) == Some(k),
    decreases k - from,
{
    if from < k {
        lemma_first_match_is(lines, from + 1, m, k);
    }
}

/// Law (phase-cycle closure): a corpus holding, in order, a floor-gate
/// line, a dungeon-clear line, a reward-start line, a sell-start line and
/// a sell-total line — each the first of its kind in the region scanned
/// for it, with the reward line within the timeout of the clear — drives a
/// fresh tracker OutOfDungeon → Dungeon → Clear → Reward → Sell →
/// OutOfDungeon in five transitions, and emits exactly one range, from the
/// floor-gate line through the sell-total line. The wall-clock argument
/// lies at least the threshold beyond the first marker's timestamp, which
/// keeps the timeout comparisons on corpus time.
pub proof fn lemma_phase_cycle(
    v: TrackerView,
    now: int,
    g: int,
    c: int,
    r: int,
    s: int,
    t: int,
)
    requires
        v.wf(),
        v.state == DungeonState::OutOfDungeon,
        v.pending is None,
        !v.sync,
        v.cursor <= g < c < r < s < t < v.lines.len(),
        crate::engines::has_marker(v.lines[g], "がフロアゲートを起動した！"@),
        forall|j: int|
            v.cursor <= j < g ==> !crate::engines::has_marker(
                #[trigger] v.lines[j],
                "がフロアゲートを起動した！"@,
            ),
        crate::engines::has_marker(v.lines[c], "ダンジョン成功報酬"@),
        forall|j: int| g <= j < c ==> !crate::engines::has_marker(#[trigger] v.lines[j], "ダンジョン成功報酬"@),
        crate::engines::has_marker(v.lines[r], "報酬－"@),
        forall|j: int| c <= j < r ==> !crate::engines::has_marker(#[trigger] v.lines[j], "報酬－"@),
        crate::engines::has_marker(v.lines[s], "報酬売却－"@),
        forall|j: int| r <= j < s ==> !crate::engines::has_marker(#[trigger] v.lines[j], "報酬売却－"@),
        forall|j: int|
            r <= j <= s ==> !crate::engines::has_marker(#[trigger] v.lines[j], "がフロアゲートを起動した！"@),
        crate::engines::has_marker(v.lines[t], "報酬売却計"@),
        forall|j: int| s <= j < t ==> !crate::engines::has_marker(#[trigger] v.lines[j], "報酬売却計"@),
        now - v.stamps[g] >= sync_threshold_secs(),
        v.stamps[r] - v.stamps[c] <= timeout_secs(),
    ensures
        ({
            let v1 = spec_step(v, now);
            let v2 = spec_step(v1, now);
            let v3 = spec_step(v2, now);
            let v4 = spec_step(v3, now);
            let v5 = spec_step(v4, now);
            &&& v1.state == DungeonState::Dungeon
            &&& v2.state == DungeonState::Clear
            &&& v3.state == DungeonState::Reward
            &&& v4.state == DungeonState::Sell
            &&& v5.state == DungeonState::OutOfDungeon
            &&& v4.pending is None
            &&& v5.pending == Some((g, t + 1))
        }),
{
    let gate = "がフロアゲートを起動した！"@;
    let clear = "ダンジョン成功報酬"@;
    let reward = "報酬－"@;
    let sell = "報酬売却－"@;
    let sell_total = "報酬売却計"@;
    lemma_first_match_is(v.lines, v.cursor, gate, g);
    let v1 = spec_step(v, now);
    assert(v1.state == DungeonState::Dungeon && v1.from == g && v1.cursor == g && !v1.sync);
    lemma_first_match_is(v.lines, g, clear, c);
    let v2 = spec_step(v1, now);
    assert(v2.state == DungeonState::Clear && v2.cursor == c && v2.clear_time == Some(
        v.stamps[c],
    ));
    assert(effective_now(v2, now) == v.stamps[c]);
    lemma_first_match_is(v.lines, c, reward, r);
    let v3 = spec_step(v2, now);
    assert(v3.state == DungeonState::Reward && v3.cursor == r);
    assert(effective_now(v3, now) == v.stamps[r]);
    lemma_first_match_is(v.lines, r, sell, s);
    lemma_first_match_bounds(v.lines, r, gate);
    let gm = first_match_from(v.lines, r, gate);
    assert(match gm {
        Some(gi) => gi > s,
        None => true,
    });
    let v4 = spec_step(v3, now);
    assert(v4.state == DungeonState::Sell && v4.cursor == s && v4.from == g
        && v4.pending is None);
    lemma_first_match_is(v.lines, s, sell_total, t);
    let v5 = spec_step(v4, now);
    assert(v5.state == DungeonState::OutOfDungeon && v5.pending == Some((g, t + 1)));
}

/// Law (timeout closure): after a floor-gate line and a dungeon-clear
/// line, a corpus whose remaining lines carry no reward marker and whose
/// last timestamp lies beyond the timeout after the clear drives a fresh
/// tracker back to OutOfDungeon in four transitions, emitting the window
/// from the floor-gate line to the last-read index, without any reward
/// marker. The wall-clock argument lies at least the threshold beyond the
/// first marker's timestamp, which keeps the timeouts on corpus time.
pub proof fn lemma_timeout_closure(v: TrackerView, now: int, g: int, c: int)
    requires
        v.wf(),
        v.state == DungeonState::OutOfDungeon,
        v.pending is None,
        !v.sync,
        v.cursor <= g < c < v.lines.len(),
        crate::engines::has_marker(v.lines[g], "がフロアゲートを起動した！"@),
        forall|j: int|
            v.cursor <= j < g ==> !crate::engines::has_marker(
                #[trigger] v.lines[j],
                "がフロアゲートを起動した！"@,
            ),
        crate::engines::has_marker(v.lines[c], "ダンジョン成功報酬"@),
        forall|j: int| g <= j < c ==> !crate::engines::has_marker(#[trigger] v.lines[j], "ダンジョン成功報酬"@),
        forall|j: int| c <= j < v.lines.len() ==> !crate::engines::has_marker(#[trigger] v.lines[j], "報酬－"@),
        now - v.stamps[g] >= sync_threshold_secs(),
        v.stamps[v.lines.len() - 1] - v.stamps[c] > timeout_secs(),
    ensures
        ({
            let v1 = spec_step(v, now);
            let v2 = spec_step(v1, now);
            let v3 = spec_step(v2, now);
            let v4 = spec_step(v3, now);
            &&& v1.state == DungeonState::Dungeon
            &&& v2.state == DungeonState::Clear
            &&& v3.state == DungeonState::Clear
            &&& v3.pending is None
            &&& v4.state == DungeonState::OutOfDungeon
            &&& v4.pending == Some((g, v.lines.len() as int))
        }),
{
    let gate = "がフロアゲートを起動した！"@;
    let clear = "ダンジョン成功報酬"@;
    let reward = "報酬－"@;
    lemma_first_match_is(v.lines, v.cursor, gate, g);
    let v1 = spec_step(v, now);
    assert(v1.state == DungeonState::Dungeon && v1.from == g && v1.cursor == g && !v1.sync);
    lemma_first_match_is(v.lines, g, clear, c);
    let v2 = spec_step(v1, now);
    assert(v2.state == DungeonState::Clear && v2.cursor == c && v2.clear_time == Some(
        v.stamps[c],
    ));
    assert(effective_now(v2, now) == v.stamps[c]);
    lemma_first_match_bounds(v.lines, c, reward);
    let v3 = spec_step(v2, now);
    assert(v3.state == DungeonState::Clear && v3.cursor == v.lines.len() && v3.from == g);
    assert(effective_now(v3, now) == v.stamps[v.lines.len() - 1]);
    let v4 = spec_step(v3, now);
    assert(v4 == timeout_close(v3));
    assert(v4.state == DungeonState::OutOfDungeon && v4.pending == Some(
        (g, v.lines.len() as int),
    ));
}

/// The line range the statistics cover: the pending closed range when one
/// exists, else the open window `[from, cursor)`.
pub open spec fn stats_range(v: TrackerView) -> (int, int) {
    match v.pending {
        Some(p) => p,
        None => (v.from, v.cursor),
    }
}

/// The lap time reported with the statistics: absent out of a dungeon,
/// running (effective now minus start) inside one, frozen (clear minus
/// start) from the clear on.
pub open spec fn lap_time_of(v: TrackerView, now: int) -> Option<int> {
    match v.state {
        DungeonState::OutOfDungeon => None,
        DungeonState::Dungeon => Some(
            clamp_i64(effective_now(v, now) - some_val(v.start_time)),
        ),
        _ => Some(clamp_i64(some_val(v.clear_time) - some_val(v.start_time))),
    }
}

/// One poll's statistics output.
pub struct DungeonOutPut {
    pub rewards: NamedAggregate,
    pub sells: NamedAggregate,
    pub statics: Vec<NamedAggregate>,
    pub lap_time: Option<i64>,
}

/// The session phase tracker bound to one growing log file.
pub struct DungeonStateMachine {
    pub state: DungeonState,
    pub texts: Vec<String>,
    pub time_stamps: Vec<i64>,
    pub from: usize,
    pub current_line: usize,
    pub clear_time: Option<i64>,
    pub start_time: Option<i64>,
    pub dungeon_range: Option<(usize, usize)>,
    pub sync: bool,
}

/// The timestamps of a corpus, as mathematical integers.
pub open spec fn stamps_of(s: Seq<i64>) -> Seq<int> {
    Seq::new(s.len(), |i: int| s[i] as int)
}

/// An optional timestamp, as a mathematical integer.
pub open spec fn opt_int(o: Option<i64>) -> Option<int> {
    match o {
        Some(x) => Some(x as int),
        None => None,
    }
}

/// An optional index pair, as mathematical integers.
pub open spec fn opt_range(o: Option<(usize, usize)>) -> Option<(int, int)> {
    match o {
        Some((a, b)) => Some((a as int, b as int)),
        None => None,
    }
}

impl View for DungeonStateMachine {
    type V = TrackerView;

    open spec fn view(&self) -> TrackerView {
        TrackerView {
            state: self.state,
            lines: views_of(self.texts@),
            stamps: stamps_of(self.time_stamps@),
            from: self.from as int,
            cursor: self.current_line as int,
            start_time: opt_int(self.start_time),
            clear_time: opt_int(self.clear_time),
            pending: opt_range(self.dungeon_range),
            sync: self.sync,
        }
    }
}

impl DungeonStateMachine {
    /// A fresh tracker over an initial corpus, with the statistics window
    /// and the cursor both at `from`, out of any dungeon.
    pub fn init(texts: Vec<String>, time_stamps: Vec<i64>, from: usize) -> (r: Self)
        requires
            time_stamps@.len() == texts@.len(),
            from <= texts@.len(),
        ensures
            r@.wf(),
            r@ == (TrackerView {
                state: DungeonState::OutOfDungeon,
                lines: views_of(texts@),
                stamps: stamps_of(time_stamps@),
                from: from as int,
                cursor: from as int,
                start_time: None,
                clear_time: None,
                pending: None,
                sync: false,
            }),
    {
        Self {
            state: DungeonState::OutOfDungeon,
            texts,
            time_stamps,
            from,
            current_line: from,
            clear_time: None,
            start_time: None,
            dungeon_range: None,
            sync: false,
        }
    }

    /// The timeout clock at this instant (wall clock when synchronized,
    /// corpus timestamp otherwise).
    fn get_current_time(&self, now: i64) -> (r: i64)
        requires
            self@.wf(),
            self@.lines.len() > 0,
        ensures
            r as int == effective_now(self@, now as int),
    {
        if self.sync {
            now
        } else if self.current_line < self.texts.len() {
            self.time_stamps[self.current_line]
        } else {
            self.time_stamps[self.texts.len() - 1]
        }
    }

    /// Executes one phase transition, as [`spec_step`] describes, against
    /// the wall-clock time `now` (seconds).
    pub fn state_change(&mut self, now: i64)
        requires
            old(self)@.wf(),
        ensures
            final(self)@.wf(),
            final(self)@ == spec_step(old(self)@, now as int),
    {
        proof {
            lemma_first_match_bounds(self@.lines, self@.cursor, "がフロアゲートを起動した！"@);
            lemma_first_match_bounds(self@.lines, self@.cursor, "ダンジョン成功報酬"@);
            lemma_first_match_bounds(self@.lines, self@.cursor, "報酬－"@);
            lemma_first_match_bounds(self@.lines, self@.cursor, "報酬売却－"@);
            lemma_first_match_bounds(self@.lines, self@.cursor, "報酬売却計"@);
        }
        match self.state {
            DungeonState::OutOfDungeon => {
                let floor_gate = search_floor_first(self.texts.as_slice(), self.current_line);
                match floor_gate {
                    Some(g) => {
                        self.from = g;
                        self.state = DungeonState::Dungeon;
                        self.current_line = g;
                        let stamp = self.time_stamps[g];
                        self.start_time = Some(stamp);
                        self.sync = (now as i128 - stamp as i128) < 6;
                    },
                    None => {
                        self.current_line = self.texts.len();
                    },
                }
            },
            DungeonState::Dungeon => {
                let clear = search_dungeon_clear(self.texts.as_slice(), self.current_line);
                match clear {
                    Some(c) => {
                        self.state = DungeonState::Clear;
                        self.current_line = c;
                        self.clear_time = Some(self.time_stamps[c]);
                    },
                    None => {
                        self.current_line = self.texts.len();
                    },
                }
            },
            DungeonState::Clear => {
                let current_time = self.get_current_time(now);
                let clear_time = self.clear_time.unwrap();
                if (current_time as i128 - clear_time as i128) > 120 {
                    self.state = DungeonState::OutOfDungeon;
                    self.dungeon_range = Some((self.from, self.current_line));
                    self.current_line = self.texts.len();
                    self.from = self.texts.len();
                    return ;
                }
                let reward_start = search_reward_first(self.texts.as_slice(), self.current_line);
                match reward_start {
                    Some(r) => {
                        self.state = DungeonState::Reward;
                        self.current_line = r;
                    },
                    None => {
                        self.current_line = self.texts.len();
                    },
                }
            },
            DungeonState::Reward => {
                let current_time = self.get_current_time(now);
                let clear_time = self.clear_time.unwrap();
                if (current_time as i128 - clear_time as i128) > 120 {
                    self.state = DungeonState::OutOfDungeon;
                    self.dungeon_range = Some((self.from, self.current_line));
                    self.current_line = self.texts.len();
                    self.from = self.texts.len();
                    return ;
                }
                let gate = search_floor_first(self.texts.as_slice(), self.current_line);
                let sell = search_reward_sell_first(self.texts.as_slice(), self.current_line);
                let take_gate: bool = match (gate, sell) {
                    (Some(g), Some(s)) => g <= s,
                    (Some(_), None) => true,
                    _ => false,
                };
                if take_gate {
                    let g = match gate {
                        Some(g) => g,
                        None => 0,
                    };
                    self.dungeon_range = Some((self.from, g));
                    self.state = DungeonState::Dungeon;
                    self.from = g;
                    self.current_line = g;
                    self.start_time = Some(self.time_stamps[g]);
                } else {
                    match sell {
                        Some(s) => {
                            self.state = DungeonState::Sell;
                            self.current_line = s;
                        },
                        None => {
                            self.current_line = self.texts.len();
                        },
                    }
                }
            },
            DungeonState::Sell => {
                let total = search_sell_total_first(self.texts.as_slice(), self.current_line);
                let corpus_len = self.texts.len();
                match total {
                    Some(t) => {
                        assert(t < corpus_len);
                        self.state = DungeonState::OutOfDungeon;
                        self.dungeon_range = Some((self.from, t + 1));
                        self.from = t + 1;
                        self.current_line = t + 1;
                    },
                    None => {
                        self.current_line = self.texts.len();
                    },
                }
            },
        }
    }

    /// The statistics of the session window: the four general aggregates,
    /// the reward and sell aggregates, and the lap time, computed over the
    /// pending closed range if one exists, else over `[from, cursor)`.
    pub fn statics(&mut self, now: i64) -> (r: Option<DungeonOutPut>)
        requires
            old(self)@.wf(),
        ensures
            *final(self) == *old(self),
            match r {
                Some(out) => ({
                    let rng = stats_range(old(self)@);
                    let rl = old(self)@.lines.subrange(rng.0, rng.1);
                    &&& out.rewards.wf() && out.rewards@ == agg_of(rl, Extractor::RewardGranted)
                    &&& out.sells.wf() && out.sells@ == agg_of(rl, Extractor::RewardSold)
                    &&& out.statics@.len() == 4
                    &&& out.statics@[0].wf() && out.statics@[0]@ == agg_of(rl, Extractor::ItemGet)
                    &&& out.statics@[1].wf() && out.statics@[1]@ == agg_of(rl, Extractor::ItemUse)
                    &&& out.statics@[2].wf() && out.statics@[2]@ == agg_of(rl, Extractor::PartGet)
                    &&& out.statics@[3].wf() && out.statics@[3]@ == agg_of(rl, Extractor::KillSelf)
                    &&& opt_int(out.lap_time) == lap_time_of(old(self)@, now as int)
                }),
                None => false,
            },
    {
        let pair: (usize, usize) = match self.dungeon_range {
            Some(p) => p,
            None => (self.from, self.current_line),
        };
        let a = pair.0;
        let b = pair.1;
        let whole: &[String] = self.texts.as_slice();
        let range_slice: &[String] = &whole[a..b];
        proof {
            lemma_views_of_subrange(self.texts@, a as int, b as int);
            assert(crate::engines::views_of(range_slice@).skip(0) =~= crate::engines::views_of(
                range_slice@,
            ));
        }
        let items = engine_item_get(range_slice, 0);
        let item_use = engine_item_use(range_slice, 0);
        let parts = engine_get_part(range_slice, 0);
        let kill = engine_kill_self(range_slice, 0);
        let rewards = run_extractor(range_slice, 0, Extractor::RewardGranted);
        let sells = run_extractor(range_slice, 0, Extractor::RewardSold);
        let lap_time: Option<i64> = match self.state {
            DungeonState::OutOfDungeon => None,
            DungeonState::Dungeon => {
                let t = self.get_current_time(now);
                Some(sat_sub_i64(t, self.start_time.unwrap()))
            },
            _ => Some(sat_sub_i64(self.clear_time.unwrap(), self.start_time.unwrap())),
        };
        let mut stats: Vec<NamedAggregate> = Vec::new();
        stats.push(items);
        stats.push(item_use);
        stats.push(parts);
        stats.push(kill);
        Some(DungeonOutPut { rewards, sells, statics: stats, lap_time })
    }

    /// The current phase.
    pub fn inspect_state(&self) -> (r: &DungeonState)
        ensures
            *r == self@.state,
    {
        &self.state
    }

    /// Appends newly discovered corpus growth: timestamps and texts, in
    /// step. Never rewinds the cursor or the window.
    pub fn supply_text(&mut self, other: (&[i64], &[String]))
        requires
            old(self)@.wf(),
            other.0@.len() == other.1@.len(),
        ensures
            final(self)@.wf(),
            final(self)@ == (TrackerView {
                lines: old(self)@.lines + views_of(other.1@),
                stamps: old(self)@.stamps + stamps_of(other.0@),
                ..old(self)@
            }),
    {
        let n = other.1.len();
        let mut k: usize = 0;
        while k < n
            invariant
                k <= n,
                n == other.1@.len(),
                other.0@.len() == other.1@.len(),
                self.texts@ == old(self).texts@ + other.1@.subrange(0, k as int),
                self.time_stamps@ == old(self).time_stamps@ + other.0@.subrange(0, k as int),
                self.state == old(self).state,
                self.from == old(self).from,
                self.current_line == old(self).current_line,
                self.clear_time == old(self).clear_time,
                self.start_time == old(self).start_time,
                self.dungeon_range == old(self).dungeon_range,
                self.sync == old(self).sync,
            decreases n - k,
        {
            proof {
                assert(old(self).texts@ + other.1@.subrange(0, k as int + 1) =~= (old(self).texts@
                    + other.1@.subrange(0, k as int)).push(other.1@[k as int]));
                assert(old(self).time_stamps@ + other.0@.subrange(0, k as int + 1) =~= (old(
                    self,
                ).time_stamps@ + other.0@.subrange(0, k as int)).push(other.0@[k as int]));
            }
            self.texts.push(other.1[k].clone());
            self.time_stamps.push(other.0[k]);
            k += 1;
        }
        proof {
            assert(other.1@.subrange(0, n as int) =~= other.1@);
            assert(other.0@.subrange(0, n as int) =~= other.0@);
            assert(views_of(self.texts@) =~= old(self)@.lines + views_of(other.1@));
            assert(stamps_of(self.time_stamps@) =~= old(self)@.stamps + stamps_of(other.0@));
            assert(final(self)@ =~= (TrackerView {
                lines: old(self)@.lines + views_of(other.1@),
                stamps: old(self)@.stamps + stamps_of(other.0@),
                ..old(self)@
            }));
        }
    }

    /// How many lines the tracker's corpus holds.
    pub fn get_current_text_len(&self) -> (r: usize)
        ensures
            r as int == self@.lines.len(),
    {
        self.texts.len()
    }

    /// Takes the pending closed-session range, clearing it: at-most-once
    /// consumption per closed session.
    pub fn query_dungeon_range(&mut self) -> (r: Option<(usize, usize)>)
        ensures
            opt_range(r) == old(self)@.pending,
            final(self)@ == (TrackerView { pending: None, ..old(self)@ }),
    {
        let r = self.dungeon_range;
        self.dungeon_range = None;
        r
    }
}

} // verus!
