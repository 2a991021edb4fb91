//! Window-local state the room snapshot cannot carry: the share counters that title new lives,
//! the source picker, the status line, and the rate meters fed from the snapshot's counters.
use vstd::prelude::*;

use crate::assoc::{
    assoc_map, has_key, keys_unique, lemma_entry_of, lemma_map_at, lemma_push, lemma_update,
};
use crate::kinds::{SourceId, SourceKind};
use crate::presets::lemma_filter_insert;
use crate::text::{
    compare_str, concat, decimal, decimal_string, lemma_text_lt_irreflexive, lemma_text_lt_transitive,
    lemma_text_lt_trichotomy, text_lt, Order,
};

verus! {

/// Nanoseconds in a second, the unit the meters divide elapsed time into.
pub const NANOS_PER_SEC: u64 = 1_000_000_000;

/// How long a monotonic clock moved from `then` to `now`, zero when it did not.
pub open spec fn elapsed_since(now: u64, then: u64) -> int {
    if now >= then {
        now - then
    } else {
        0
    }
}

/// Whole seconds in `ns`, counted as at least one.
pub open spec fn whole_seconds(ns: int) -> int {
    if ns / (NANOS_PER_SEC as int) < 1 {
        1
    } else {
        ns / (NANOS_PER_SEC as int)
    }
}

/// Kilobits per second for `bytes` over `ns` nanoseconds, rounded down.
pub open spec fn rate_kbps(bytes: int, ns: int) -> int {
    bytes * 8 / 1000 / whole_seconds(ns)
}

/// A meter's state: the last byte count, when it was read, and the rate last computed.
pub type MeterState = (u64, Option<u64>, u64);

/// The meter after reading `total` bytes at `now`: the first reading only starts the
/// measurement, a reading within `interval` of the last one changes nothing, and a later one
/// computes the rate over the bytes added since.
pub open spec fn stepped(m: MeterState, total: u64, now: u64, interval: u64) -> MeterState {
    match m.1 {
        None => (total, Some(now), m.2),
        Some(then) => if elapsed_since(now, then) < interval {
            m
        } else {
            let added: int = if total >= m.0 { total - m.0 } else { 0 };
            (total, Some(now), rate_kbps(added, elapsed_since(now, then)) as u64)
        },
    }
}

/// Two readings that each recompute the rate: the second rate counts only the bytes added
/// since the first reading, over the time since the first reading, so a steady stream reads
/// the same rate every interval. A first reading only starts the measurement at its own count.
pub proof fn lemma_meter_counts_bytes_since_last_reading(
    m: MeterState,
    first: u64,
    first_at: u64,
    second: u64,
    second_at: u64,
    interval: u64,
)
    requires
        m.1 is None || elapsed_since(first_at, m.1->0) >= interval,
        elapsed_since(second_at, first_at) >= interval,
        first <= second,
    ensures
        stepped(m, first, first_at, interval).0 == first,
        stepped(m, first, first_at, interval).1 == Some(first_at),
        stepped(stepped(m, first, first_at, interval), second, second_at, interval).0 == second,
        stepped(stepped(m, first, first_at, interval), second, second_at, interval).2 == (second - first) * 8
            / 1000 / whole_seconds(second_at - first_at),
{
}

/// A first reading only starts the measurement: it records its count and time and shows the
/// rate as it was. A reading before `interval` has passed since the last one changes nothing.
pub proof fn lemma_meter_waits_for_its_interval(m: MeterState, total: u64, now: u64, interval: u64)
    ensures
        m.1 is None ==> stepped(m, total, now, interval) == (total, Some(now), m.2),
        m.1 matches Some(then) ==> (elapsed_since(now, then) < interval ==> stepped(m, total, now, interval) == m),
{
}

/// Whether reading `total` bytes at `now` keeps the bit count within a `u64`.
pub open spec fn fits(m: MeterState, total: u64, now: u64, interval: u64) -> bool {
    (m.1 matches Some(then) && elapsed_since(now, then) >= interval && total > m.0) ==> (total - m.0)
        * 8 <= u64::MAX
}

/// Aggregate encode rate from the cumulative byte counters in successive snapshots.
#[derive(Debug)]
pub struct BitrateMeter {
    last_bytes: u64,
    last_at: Option<u64>,
    kbps: u64,
}

impl View for BitrateMeter {
    type V = MeterState;

    closed spec fn view(&self) -> MeterState {
        (self.last_bytes, self.last_at, self.kbps)
    }
}

impl Default for BitrateMeter {
    fn default() -> (m: BitrateMeter)
        ensures
            m@ == (0u64, None::<u64>, 0u64),
    {
        BitrateMeter { last_bytes: 0, last_at: None, kbps: 0 }
    }
}

impl BitrateMeter {
    /// Recomputes once per `interval` (in nanoseconds of the monotonic clock `now` reads); in
    /// between it returns the previous rate.
    pub fn update(&mut self, total_bytes: u64, now: u64, interval: u64) -> (k: u64)
        requires
            fits(old(self)@, total_bytes, now, interval),
        ensures
            final(self)@ == stepped(old(self)@, total_bytes, now, interval),
            k == final(self)@.2,
            (old(self)@.1 is None || elapsed_since(now, old(self)@.1->0) >= interval) ==> final(self)@.0
                == total_bytes && final(self)@.1 == Some(now),
            old(self)@.1 matches Some(then) ==> (elapsed_since(now, then) >= interval && total_bytes >= old(
                self,
            )@.0 ==> k == (total_bytes - old(self)@.0) * 8 / 1000 / whole_seconds(elapsed_since(now, then))),
    {
        let last_at = match self.last_at {
            None => {
                self.last_at = Some(now);
                self.last_bytes = total_bytes;
                return self.kbps;
            },
            Some(t) => t,
        };
        let elapsed = if now >= last_at { now - last_at } else { 0 };
        if elapsed < interval {
            return self.kbps;
        }
        let added = if total_bytes >= self.last_bytes { total_bytes - self.last_bytes } else { 0 };
        let bits = added * 8;
        let whole = elapsed / NANOS_PER_SEC;
        let secs = if whole < 1 { 1 } else { whole };
        self.kbps = bits / 1000 / secs;
        self.last_bytes = total_bytes;
        self.last_at = Some(now);
        self.kbps
    }

    /// Whether reading `total_bytes` at `now` keeps the bit count within a `u64`: what
    /// [`BitrateMeter::update`] needs.
    pub fn reading_fits(&self, total_bytes: u64, now: u64, interval: u64) -> (b: bool)
        ensures
            b == fits(self@, total_bytes, now, interval),
    {
        match self.last_at {
            None => true,
            Some(then) => {
                let elapsed = if now >= then { now - then } else { 0 };
                if elapsed >= interval && total_bytes > self.last_bytes {
                    let added = total_bytes - self.last_bytes;
                    proof {
                        assert(added <= u64::MAX / 8 <==> added * 8 <= u64::MAX) by (nonlinear_arith)
                            requires added >= 0;
                    }
                    added <= u64::MAX / 8
                } else {
                    true
                }
            },
        }
    }

    /// The rate last computed, in kilobits per second.
    pub fn kbps(&self) -> (k: u64)
        ensures
            k == self@.2,
    {
        self.kbps
    }
}

/// One capturable source as a listing offers it.
#[derive(Debug, Clone, PartialEq, Eq)]
pub struct SourceDescriptor {
    pub id: SourceId,
    pub kind: SourceKind,
    pub name: String,
    pub width: u32,
    pub height: u32,
}

/// The source list the user is choosing from, on platforms without a picker of their own.
#[derive(Debug, Clone, PartialEq, Eq)]
pub struct SourcePicker {
    pub kind: SourceKind,
    pub choices: Vec<SourceDescriptor>,
}

/// A request to start a live of `kind`, from `source` when one was picked.
#[derive(Debug, Clone, Copy, PartialEq, Eq, Structural)]
pub struct ShareRequest {
    pub kind: SourceKind,
    pub source: Option<SourceId>,
}

/// One encoder as the snapshot reports it: its live and preset, and its cumulative byte count
/// while it runs.
#[derive(Debug, Clone, Copy, PartialEq, Eq, Structural)]
pub struct EncoderReading {
    pub live_id: u32,
    pub preset_id: u32,
    pub bytes_encoded: Option<u64>,
}

/// The bytes encoded across every running encoder.
pub open spec fn encoded_total(s: Seq<EncoderReading>) -> int
    decreases s.len(),
{
    if s.len() == 0 {
        0
    } else {
        encoded_total(s.drop_last()) + match s.last().bytes_encoded {
            Some(b) => b as int,
            None => 0,
        }
    }
}

/// The running encoders by (live, preset), each with its byte count; a later reading of the same
/// encoder replaces an earlier one.
pub open spec fn running(s: Seq<EncoderReading>) -> Map<(u32, u32), u64>
    decreases s.len(),
{
    if s.len() == 0 {
        Map::empty()
    } else {
        let m = running(s.drop_last());
        match s.last().bytes_encoded {
            Some(b) => m.insert((s.last().live_id, s.last().preset_id), b),
            None => m,
        }
    }
}

/// The meter under `k`, or a fresh one.
pub open spec fn meter_or_fresh(m: Map<(u32, u32), MeterState>, k: (u32, u32)) -> MeterState {
    if m.contains_key(k) {
        m[k]
    } else {
        (0u64, None::<u64>, 0u64)
    }
}

/// The label a kind's lives are titled with.
pub open spec fn kind_label(kind: SourceKind) -> Seq<char> {
    match kind {
        SourceKind::Monitor => "Monitor"@,
        SourceKind::Window => "Window"@,
    }
}

/// The meters' states by key.
pub open spec fn meter_states(s: Seq<((u32, u32), BitrateMeter)>) -> Seq<((u32, u32), MeterState)> {
    s.map_values(|e: ((u32, u32), BitrateMeter)| (e.0, e.1@))
}

/// Window-local state the room snapshot cannot carry: the status line, the share in progress,
/// the picker, and the rate meters.
#[derive(Debug)]
pub struct UiState {
    /// Last error or notice, shown in the status bar.
    pub status: String,
    /// True from the share click until the live started or failed.
    pub share_pending: bool,
    /// Open while the user picks a source from the platform's list.
    pub picker: Option<SourcePicker>,
    /// Lives of each kind titled so far.
    pub monitor_shares: u32,
    pub window_shares: u32,
    /// Aggregate upload rate across every running encoder, in kilobits per second.
    pub upload_kbps: u64,
    pub upload_meter: BitrateMeter,
    /// One meter per running encoder, keyed by (live id, preset id).
    pub preset_meters: Vec<((u32, u32), BitrateMeter)>,
}

impl UiState {
    /// How many lives of `kind` this window has titled.
    pub open spec fn shares(&self, kind: SourceKind) -> u32 {
        match kind {
            SourceKind::Monitor => self.monitor_shares,
            SourceKind::Window => self.window_shares,
        }
    }

    /// The upload meter's state.
    pub open spec fn upload_meter(&self) -> MeterState {
        self.upload_meter@
    }

    /// The per-encoder meters' states.
    pub open spec fn meters(&self) -> Map<(u32, u32), MeterState> {
        assoc_map(meter_states(self.preset_meters@))
    }

    /// Each encoder has at most one meter.
    pub open spec fn wf(&self) -> bool {
        keys_unique(meter_states(self.preset_meters@))
    }

    /// An empty state for a freshly opened window.
    pub fn new() -> (s: UiState)
        ensures
            s.wf(),
            s.status@ == Seq::<char>::empty(),
            !s.share_pending,
            s.picker is None,
            s.shares(SourceKind::Monitor) == 0,
            s.shares(SourceKind::Window) == 0,
            s.upload_kbps == 0,
            s.upload_meter() == (0u64, None::<u64>, 0u64),
            s.meters() == Map::<(u32, u32), MeterState>::empty(),
    {
        let s = UiState {
            status: String::new(),
            share_pending: false,
            picker: None,
            monitor_shares: 0,
            window_shares: 0,
            upload_kbps: 0,
            upload_meter: BitrateMeter::default(),
            preset_meters: Vec::new(),
        };
        assert(meter_states(s.preset_meters@) =~= Seq::empty());
        assert(s.meters() =~= Map::<(u32, u32), MeterState>::empty());
        s
    }

    /// New lives are titled by kind and ordinal; the ordinal never repeats within a session.
    pub fn next_title(&mut self, kind: SourceKind) -> (title: String)
        requires
            old(self).shares(kind) < u32::MAX,
        ensures
            final(self).shares(kind) == old(self).shares(kind) + 1,
            kind == SourceKind::Monitor ==> final(self).shares(SourceKind::Window) == old(self).shares(SourceKind::Window),
            kind == SourceKind::Window ==> final(self).shares(SourceKind::Monitor) == old(self).shares(SourceKind::Monitor),
            title@ == kind_label(kind) + " "@ + decimal(final(self).shares(kind) as nat),
            final(self).status == old(self).status,
            final(self).share_pending == old(self).share_pending,
            final(self).picker == old(self).picker,
            final(self).upload_kbps == old(self).upload_kbps,
            final(self).upload_meter() == old(self).upload_meter(),
            final(self).meters() == old(self).meters(),
            final(self).wf() == old(self).wf(),
    {
        let n = match kind {
            SourceKind::Monitor => {
                self.monitor_shares = self.monitor_shares + 1;
                self.monitor_shares
            },
            SourceKind::Window => {
                self.window_shares = self.window_shares + 1;
                self.window_shares
            },
        };
        let name = match kind {
            SourceKind::Monitor => "Monitor ",
            SourceKind::Window => "Window ",
        };
        let digits = decimal_string(n as u64);
        let title = concat(name, digits.as_str());
        proof {
            reveal_strlit("Monitor ");
            reveal_strlit("Window ");
            reveal_strlit("Monitor");
            reveal_strlit("Window");
            reveal_strlit(" ");
            assert(title@ =~= kind_label(kind) + " "@ + decimal(n as nat));
        }
        title
    }

    /// Opens the picker. Refuses while a share is pending or a picker is already open, so a
    /// second click cannot discard an in-progress choice. Returns whether it opened.
    pub fn open_picker(&mut self, kind: SourceKind, choices: Vec<SourceDescriptor>) -> (opened: bool)
        ensures
            opened == (!old(self).share_pending && old(self).picker is None),
            opened ==> final(self).picker == Some(SourcePicker { kind, choices }),
            !opened ==> final(self).picker == old(self).picker,
            final(self).status == old(self).status,
            final(self).share_pending == old(self).share_pending,
            final(self).shares(SourceKind::Monitor) == old(self).shares(SourceKind::Monitor),
            final(self).shares(SourceKind::Window) == old(self).shares(SourceKind::Window),
            final(self).meters() == old(self).meters(),
            final(self).wf() == old(self).wf(),
    {
        if self.share_pending || self.picker.is_some() {
            return false;
        }
        self.picker = Some(SourcePicker { kind, choices });
        true
    }

    /// The share for a picked source, closing the picker. `None` when no picker is open or the
    /// id is not one of its choices.
    pub fn pick_source(&mut self, id: SourceId) -> (r: Option<ShareRequest>)
        ensures
            match old(self).picker {
                None => r is None && final(self).picker is None,
                Some(p) => if exists|i: int| 0 <= i < p.choices@.len() && (#[trigger] p.choices@[i]).id == id {
                    r == Some(ShareRequest { kind: p.kind, source: Some(id) }) && final(self).picker is None
                } else {
                    r is None && final(self).picker == old(self).picker
                },
            },
            final(self).status == old(self).status,
            final(self).share_pending == old(self).share_pending,
            final(self).shares(SourceKind::Monitor) == old(self).shares(SourceKind::Monitor),
            final(self).shares(SourceKind::Window) == old(self).shares(SourceKind::Window),
            final(self).meters() == old(self).meters(),
            final(self).wf() == old(self).wf(),
    {
        let (kind, listed) = match &self.picker {
            None => {
                return None;
            },
            Some(picker) => {
                let mut listed = false;
                let mut i: usize = 0;
                while i < picker.choices.len()
                    invariant
                        i <= picker.choices@.len(),
                        listed == exists|j: int| 0 <= j < i && (#[trigger] picker.choices@[j]).id == id,
                    decreases picker.choices@.len() - i,
                {
                    if picker.choices[i].id == id {
                        listed = true;
                    }
                    i = i + 1;
                }
                (picker.kind, listed)
            },
        };
        if !listed {
            return None;
        }
        self.picker = None;
        Some(ShareRequest { kind, source: Some(id) })
    }

    /// Closes the picker without sharing; a no-op when none is open.
    pub fn cancel_picker(&mut self)
        ensures
            final(self).picker is None,
            final(self).status == old(self).status,
            final(self).share_pending == old(self).share_pending,
            final(self).shares(SourceKind::Monitor) == old(self).shares(SourceKind::Monitor),
            final(self).shares(SourceKind::Window) == old(self).shares(SourceKind::Window),
            final(self).meters() == old(self).meters(),
            final(self).wf() == old(self).wf(),
    {
        self.picker = None;
    }

    /// Measured encode rate of one running encoder, or `None` while it has no meter.
    pub fn preset_kbps(&self, live_id: u32, preset_id: u32) -> (r: Option<u64>)
        requires
            self.wf(),
        ensures
            r == (if self.meters().contains_key((live_id, preset_id)) {
                Some(self.meters()[(live_id, preset_id)].2)
            } else {
                None::<u64>
            }),
    {
        let ghost s = meter_states(self.preset_meters@);
        let mut i: usize = 0;
        while i < self.preset_meters.len()
            invariant
                i <= self.preset_meters@.len(),
                s == meter_states(self.preset_meters@),
                keys_unique(s),
                forall|j: int| 0 <= j < i ==> (#[trigger] s[j]).0 != (live_id, preset_id),
            decreases self.preset_meters@.len() - i,
        {
            let key = self.preset_meters[i].0;
            if key.0 == live_id && key.1 == preset_id {
                proof {
                    assert(s[i as int].0 == key);
                    lemma_map_at(s, i as int);
                }
                return Some(self.preset_meters[i].1.kbps());
            }
            i = i + 1;
        }
        proof {
            if has_key(s, (live_id, preset_id)) {
                let j = choose|j: int| 0 <= j < s.len() && (#[trigger] s[j]).0 == (live_id, preset_id);
            }
        }
        None
    }

    /// Whether [`UiState::refresh_rates`] can take `readings` at `now`: the bytes of every
    /// encoder sum within a `u64`, and no meter's bit count overflows one.
    pub fn can_refresh(&self, readings: &[EncoderReading], now: u64, interval: u64) -> (b: bool)
        requires
            self.wf(),
        ensures
            b == (encoded_total(readings@) <= u64::MAX && fits(self.upload_meter(), encoded_total(readings@) as u64, now, interval)
                && forall|k: (u32, u32)| #[trigger] running(readings@).contains_key(k) ==> fits(
                meter_or_fresh(self.meters(), k), running(readings@)[k], now, interval)),
    {
        let total = match checked_total(readings) {
            Some(t) => t,
            None => {
                return false;
            },
        };
        if !self.upload_meter.reading_fits(total, now, interval) {
            return false;
        }
        let live = running_encoders(readings);
        let mut j: usize = 0;
        while j < live.len()
            invariant
                j <= live@.len(),
                keys_unique(live@),
                assoc_map(live@) == running(readings@),
                self.wf(),
                forall|t: int| 0 <= t < j ==> fits(meter_or_fresh(self.meters(), (#[trigger] live@[t]).0), live@[t].1, now, interval),
            decreases live@.len() - j,
        {
            let (key, bytes) = live[j];
            let meter = self.take_meter(key);
            if !meter.reading_fits(bytes, now, interval) {
                proof {
                    lemma_map_at(live@, j as int);
                    assert(running(readings@).contains_key(key));
                }
                return false;
            }
            j = j + 1;
        }
        proof {
            assert forall|k: (u32, u32)| #[trigger] running(readings@).contains_key(k) implies fits(
                meter_or_fresh(self.meters(), k), running(readings@)[k], now, interval) by {
                let t = lemma_entry_of(live@, k);
                lemma_map_at(live@, t);
            }
        }
        true
    }

    /// Feeds the cumulative byte counters of a snapshot into the upload and per-encoder meters,
    /// read at `now` and recomputed once per `interval`. Meters of encoders that are no longer
    /// running are forgotten, so a restarted encoder starts a fresh measurement.
    pub fn refresh_rates(&mut self, readings: &[EncoderReading], now: u64, interval: u64)
        requires
            old(self).wf(),
            encoded_total(readings@) <= u64::MAX,
            fits(old(self).upload_meter(), encoded_total(readings@) as u64, now, interval),
            forall|k: (u32, u32)| #[trigger] running(readings@).contains_key(k) ==> fits(
                meter_or_fresh(old(self).meters(), k), running(readings@)[k], now, interval),
        ensures
            final(self).wf(),
            final(self).upload_meter() == stepped(old(self).upload_meter(), encoded_total(readings@) as u64, now, interval),
            final(self).upload_kbps == final(self).upload_meter().2,
            final(self).meters().dom() == running(readings@).dom(),
            forall|k: (u32, u32)| #[trigger] final(self).meters().contains_key(k) ==> final(self).meters()[k]
                == stepped(meter_or_fresh(old(self).meters(), k), running(readings@)[k], now, interval),
            final(self).status == old(self).status,
            final(self).share_pending == old(self).share_pending,
            final(self).picker == old(self).picker,
            final(self).shares(SourceKind::Monitor) == old(self).shares(SourceKind::Monitor),
            final(self).shares(SourceKind::Window) == old(self).shares(SourceKind::Window),
    {
        let total = total_encoded_bytes(readings);
        self.upload_kbps = self.upload_meter.update(total, now, interval);
        let live = running_encoders(readings);
        let ghost old_meters = self.meters();
        let ghost old_s = meter_states(self.preset_meters@);
        let mut fresh: Vec<((u32, u32), BitrateMeter)> = Vec::new();
        let mut j: usize = 0;
        while j < live.len()
            invariant
                j <= live@.len(),
                keys_unique(live@),
                assoc_map(live@) == running(readings@),
                old_s == meter_states(self.preset_meters@),
                keys_unique(old_s),
                old_meters == assoc_map(old_s),
                forall|k: (u32, u32)| #[trigger] running(readings@).contains_key(k) ==> fits(
                    meter_or_fresh(old_meters, k), running(readings@)[k], now, interval),
                fresh@.len() == j,
                forall|t: int| 0 <= t < j ==> (#[trigger] fresh@[t]).0 == live@[t].0 && fresh@[t].1@
                    == stepped(meter_or_fresh(old_meters, live@[t].0), live@[t].1, now, interval),
            decreases live@.len() - j,
        {
            let (key, bytes) = live[j];
            proof {
                lemma_map_at(live@, j as int);
            }
            let mut meter = self.take_meter(key);
            meter.update(bytes, now, interval);
            fresh.push((key, meter));
            j = j + 1;
        }
        proof {
            let s = meter_states(fresh@);
            assert forall|a: int, b: int| 0 <= a < s.len() && 0 <= b < s.len() && a != b implies
                (#[trigger] s[a]).0 != (#[trigger] s[b]).0 by {
                assert(s[a].0 == live@[a].0);
                assert(s[b].0 == live@[b].0);
            }
            assert forall|k: (u32, u32)| assoc_map(s).contains_key(k) <==> running(readings@).contains_key(k) by {
                if assoc_map(s).contains_key(k) {
                    let t = lemma_entry_of(s, k);
                    lemma_map_at(live@, t);
                }
                if running(readings@).contains_key(k) {
                    let t = lemma_entry_of(live@, k);
                    assert(s[t].0 == k);
                    lemma_map_at(s, t);
                }
            }
            assert(assoc_map(s).dom() =~= running(readings@).dom());
            assert forall|k: (u32, u32)| #[trigger] assoc_map(s).contains_key(k) implies assoc_map(s)[k]
                == stepped(meter_or_fresh(old_meters, k), running(readings@)[k], now, interval) by {
                let t = lemma_entry_of(s, k);
                lemma_map_at(live@, t);
            }
        }
        self.preset_meters = fresh;
    }

    /// The meter kept under `key`, or a fresh one; the old entries are left in place.
    fn take_meter(&self, key: (u32, u32)) -> (m: BitrateMeter)
        requires
            keys_unique(meter_states(self.preset_meters@)),
        ensures
            m@ == meter_or_fresh(assoc_map(meter_states(self.preset_meters@)), key),
    {
        let ghost s = meter_states(self.preset_meters@);
        let mut i: usize = 0;
        while i < self.preset_meters.len()
            invariant
                i <= self.preset_meters@.len(),
                s == meter_states(self.preset_meters@),
                keys_unique(s),
                forall|j: int| 0 <= j < i ==> (#[trigger] s[j]).0 != key,
            decreases self.preset_meters@.len() - i,
        {
            let k = self.preset_meters[i].0;
            if k.0 == key.0 && k.1 == key.1 {
                proof {
                    assert(s[i as int].0 == key);
                    lemma_map_at(s, i as int);
                }
                let m = &self.preset_meters[i].1;
                return BitrateMeter { last_bytes: m.last_bytes, last_at: m.last_at, kbps: m.kbps };
            }
            i = i + 1;
        }
        proof {
            if has_key(s, key) {
                let j = choose|j: int| 0 <= j < s.len() && (#[trigger] s[j]).0 == key;
            }
        }
        BitrateMeter::default()
    }
}

/// Sums encoded bytes across every running encoder, for the upload meter.
pub fn total_encoded_bytes(readings: &[EncoderReading]) -> (total: u64)
    requires
        encoded_total(readings@) <= u64::MAX,
    ensures
        total == encoded_total(readings@),
{
    let mut total: u64 = 0;
    let mut i: usize = 0;
    while i < readings.len()
        invariant
            i <= readings@.len(),
            encoded_total(readings@) <= u64::MAX,
            total == encoded_total(readings@.take(i as int)),
        decreases readings@.len() - i,
    {
        proof {
            assert(readings@.take(i + 1).drop_last() =~= readings@.take(i as int));
            lemma_total_prefix(readings@, i + 1);
        }
        match readings[i].bytes_encoded {
            Some(b) => {
                total = total + b;
            },
            None => {},
        }
        i = i + 1;
    }
    assert(readings@.take(readings@.len() as int) =~= readings@);
    total
}

/// The bytes encoded across every running encoder, or `None` when the sum exceeds a `u64`.
pub fn checked_total(readings: &[EncoderReading]) -> (total: Option<u64>)
    ensures
        total is Some <==> encoded_total(readings@) <= u64::MAX,
        total matches Some(t) ==> t == encoded_total(readings@),
{
    let mut total: u64 = 0;
    let mut i: usize = 0;
    while i < readings.len()
        invariant
            i <= readings@.len(),
            total == encoded_total(readings@.take(i as int)),
        decreases readings@.len() - i,
    {
        proof {
            assert(readings@.take(i + 1).drop_last() =~= readings@.take(i as int));
            lemma_total_prefix(readings@, i + 1);
        }
        match readings[i].bytes_encoded {
            Some(b) => {
                match total.checked_add(b) {
                    Some(t) => {
                        total = t;
                    },
                    None => {
                        return None;
                    },
                }
            },
            None => {},
        }
        i = i + 1;
    }
    assert(readings@.take(readings@.len() as int) =~= readings@);
    Some(total)
}

/// A prefix never encodes more than the whole.
proof fn lemma_total_prefix(s: Seq<EncoderReading>, n: int)
    requires
        0 <= n <= s.len(),
    ensures
        encoded_total(s.take(n)) <= encoded_total(s),
    decreases s.len() - n,
{
    if n < s.len() {
        lemma_total_prefix(s, n + 1);
        assert(s.take(n + 1).drop_last() =~= s.take(n));
    } else {
        assert(s.take(n) =~= s);
    }
}

/// The running encoders, each once, with the byte count of its last reading.
fn running_encoders(readings: &[EncoderReading]) -> (live: Vec<((u32, u32), u64)>)
    ensures
        keys_unique(live@),
        assoc_map(live@) == running(readings@),
{
    let mut live: Vec<((u32, u32), u64)> = Vec::new();
    let mut i: usize = 0;
    assert(assoc_map(live@) =~= running(readings@.take(0)));
    while i < readings.len()
        invariant
            i <= readings@.len(),
            keys_unique(live@),
            assoc_map(live@) == running(readings@.take(i as int)),
        decreases readings@.len() - i,
    {
        let r = readings[i];
        proof {
            assert(readings@.take(i + 1).drop_last() =~= readings@.take(i as int));
            assert(readings@.take(i + 1).last() == r);
        }
        match r.bytes_encoded {
            Some(b) => {
                let key = (r.live_id, r.preset_id);
                let mut found: Option<usize> = None;
                let mut j: usize = 0;
                while j < live.len()
                    invariant
                        j <= live@.len(),
                        found matches Some(p) ==> p < live@.len() && live@[p as int].0 == key,
                        found is None ==> forall|t: int| 0 <= t < j ==> (#[trigger] live@[t]).0 != key,
                    decreases live@.len() - j,
                {
                    if found.is_none() && live[j].0.0 == key.0 && live[j].0.1 == key.1 {
                        found = Some(j);
                    }
                    j = j + 1;
                }
                match found {
                    Some(p) => {
                        proof {
                            lemma_update(live@, p as int, b);
                        }
                        live.set(p, (key, b));
                    },
                    None => {
                        proof {
                            if has_key(live@, key) {
                                let t = choose|t: int| 0 <= t < live@.len() && (#[trigger] live@[t]).0 == key;
                            }
                            lemma_push(live@, key, b);
                        }
                        live.push((key, b));
                    },
                }
            },
            None => {},
        }
        i = i + 1;
    }
    assert(readings@.take(readings@.len() as int) =~= readings@);
    live
}

/// `a` sorts strictly before `b`, byte by byte.
pub open spec fn bytes_lt(a: Seq<u8>, b: Seq<u8>) -> bool
    decreases a.len(),
{
    if a.len() == 0 {
        b.len() > 0
    } else if b.len() == 0 {
        false
    } else if a[0] != b[0] {
        a[0] < b[0]
    } else {
        bytes_lt(a.drop_first(), b.drop_first())
    }
}

/// Any two different byte strings are ordered one way or the other, never both.
pub proof fn lemma_bytes_lt_trichotomy(a: Seq<u8>, b: Seq<u8>)
    ensures
        a != b ==> (bytes_lt(a, b) || bytes_lt(b, a)),
        !(bytes_lt(a, b) && bytes_lt(b, a)),
        !bytes_lt(a, a),
    decreases a.len(),
{
    if a.len() > 0 {
        lemma_bytes_lt_trichotomy(a.drop_first(), a.drop_first());
    }
    if a.len() == 0 {
        if b.len() == 0 {
            assert(a =~= b);
        }
    } else if b.len() == 0 {
    } else if a[0] != b[0] {
    } else {
        lemma_bytes_lt_trichotomy(a.drop_first(), b.drop_first());
        if a.drop_first() == b.drop_first() {
            assert(a =~= seq![a[0]] + a.drop_first());
            assert(b =~= seq![b[0]] + b.drop_first());
        }
    }
}

/// The byte order is transitive.
pub proof fn lemma_bytes_lt_transitive(a: Seq<u8>, b: Seq<u8>, c: Seq<u8>)
    requires
        bytes_lt(a, b),
        bytes_lt(b, c),
    ensures
        bytes_lt(a, c),
    decreases a.len(),
{
    if a.len() > 0 && b.len() > 0 && c.len() > 0 && a[0] == b[0] && b[0] == c[0] {
        lemma_bytes_lt_transitive(a.drop_first(), b.drop_first(), c.drop_first());
    }
}

/// Compares two public keys byte by byte.
pub fn compare_keys(a: &[u8; 32], b: &[u8; 32]) -> (r: Order)
    ensures
        (r == Order::Less) == bytes_lt(a@, b@),
        (r == Order::Equal) == (a@ == b@),
        (r == Order::Greater) == bytes_lt(b@, a@),
{
    proof {
        lemma_bytes_lt_trichotomy(a@, b@);
        lemma_bytes_lt_trichotomy(b@, a@);
        assert(a@.skip(0) =~= a@);
        assert(b@.skip(0) =~= b@);
    }
    let mut i: usize = 0;
    while i < 32
        invariant
            i <= 32,
            a@.len() == 32,
            b@.len() == 32,
            a@.take(i as int) == b@.take(i as int),
            bytes_lt(a@, b@) == bytes_lt(a@.skip(i as int), b@.skip(i as int)),
            bytes_lt(b@, a@) == bytes_lt(b@.skip(i as int), a@.skip(i as int)),
        decreases 32 - i,
    {
        let x = a[i];
        let y = b[i];
        assert(a@.skip(i as int)[0] == x);
        assert(b@.skip(i as int)[0] == y);
        if x != y {
            proof {
                assert(a@ != b@) by {
                    assert(a@[i as int] != b@[i as int]);
                }
            }
            if x < y {
                return Order::Less;
            } else {
                return Order::Greater;
            }
        }
        assert(a@.skip(i as int).drop_first() =~= a@.skip(i + 1));
        assert(b@.skip(i as int).drop_first() =~= b@.skip(i + 1));
        assert(a@.take(i + 1) =~= a@.take(i as int).push(x));
        assert(b@.take(i + 1) =~= b@.take(i as int).push(y));
        i = i + 1;
    }
    assert(a@ =~= a@.take(32));
    assert(b@ =~= b@.take(32));
    Order::Equal
}

/// A room member as the members panel orders it: its public key and nickname, what it
/// publishes, when it was last heard from, and how its connection runs.
#[derive(Debug, Clone, PartialEq, Eq)]
pub struct MemberView {
    pub id: [u8; 32],
    pub nickname: String,
    pub lives: Vec<crate::presets::LiveInfo>,
    pub seen_ago_ms: u64,
    pub path: crate::kinds::PathKind,
}

/// `a` comes before `b` in the panel: by nickname, then by public key.
pub open spec fn member_before(a: MemberView, b: MemberView) -> bool {
    text_lt(a.nickname@, b.nickname@) || (a.nickname@ == b.nickname@ && bytes_lt(a.id@, b.id@))
}

/// `a` does not come after `b`.
pub open spec fn member_not_after(a: MemberView, b: MemberView) -> bool {
    member_before(a, b) || (a.nickname@ == b.nickname@ && a.id@ == b.id@)
}

proof fn lemma_member_not_after_transitive(a: MemberView, b: MemberView, c: MemberView)
    requires
        member_not_after(a, b),
        member_not_after(b, c),
    ensures
        member_not_after(a, c),
{
    if text_lt(a.nickname@, b.nickname@) && text_lt(b.nickname@, c.nickname@) {
        lemma_text_lt_transitive(a.nickname@, b.nickname@, c.nickname@);
    }
    if a.nickname@ == b.nickname@ && b.nickname@ == c.nickname@ && bytes_lt(a.id@, b.id@) && bytes_lt(b.id@, c.id@) {
        lemma_bytes_lt_transitive(a.id@, b.id@, c.id@);
    }
}

/// Whether a member has the nickname and public key of `key`.
pub open spec fn has_member_key(key: (Seq<char>, Seq<u8>)) -> spec_fn(MemberView) -> bool {
    |m: MemberView| m.nickname@ == key.0 && m.id@ == key.1
}

/// The members a list of references points at.
pub open spec fn members_of(s: Seq<&MemberView>) -> Seq<MemberView> {
    s.map_values(|m: &MemberView| *m)
}

/// Members by nickname then key, so the panel does not reorder between snapshots; members equal
/// on both keep their order.
pub fn ordered_members(members: &Vec<MemberView>) -> (out: Vec<&MemberView>)
    ensures
        forall|i: int, j: int| 0 <= i < j < out@.len() ==> member_not_after(*#[trigger] out@[i], *#[trigger] out@[j]),
        forall|key: (Seq<char>, Seq<u8>)| #[trigger] members_of(out@).filter(has_member_key(key)) == members@.filter(
            has_member_key(key)),
        members_of(out@).to_multiset() == members@.to_multiset(),
{
    let mut out: Vec<&MemberView> = Vec::new();
    let mut i: usize = 0;
    proof {
        assert(members_of(out@) =~= Seq::<MemberView>::empty());
        assert(members@.take(0) =~= Seq::<MemberView>::empty());
    }
    while i < members.len()
        invariant
            i <= members@.len(),
            forall|a: int, b: int| 0 <= a < b < out@.len() ==> member_not_after(*#[trigger] out@[a], *#[trigger] out@[b]),
            forall|key: (Seq<char>, Seq<u8>)| #[trigger] members_of(out@).filter(has_member_key(key)) == members@.take(
                i as int).filter(has_member_key(key)),
            members_of(out@).to_multiset() == members@.take(i as int).to_multiset(),
        decreases members@.len() - i,
    {
        let m = &members[i];
        let mut pos: usize = out.len();
        while pos > 0 && later_member(out[pos - 1], m)
            invariant
                pos <= out@.len(),
                forall|j: int| pos <= j < out@.len() ==> member_before(*m, *#[trigger] out@[j]),
            decreases pos,
        {
            pos = pos - 1;
        }
        let ghost before = out@;
        proof {
            if pos > 0 {
                lemma_text_lt_trichotomy(before[pos - 1].nickname@, m.nickname@);
                lemma_bytes_lt_trichotomy(before[pos - 1].id@, m.id@);
                assert(member_not_after(*before[pos - 1], *m));
            }
        }
        out.insert(pos, m);
        proof {
            assert(out@ =~= before.insert(pos as int, m));
            assert forall|a: int, b: int| 0 <= a < b < out@.len() implies member_not_after(*#[trigger] out@[a], *#[trigger] out@[b]) by {
                if a < pos && b < pos {
                    assert(out@[a] == before[a] && out@[b] == before[b]);
                } else if a < pos && b == pos {
                    assert(out@[a] == before[a]);
                    if a < pos - 1 {
                        lemma_member_not_after_transitive(*before[a], *before[pos - 1], *m);
                    }
                } else if a < pos {
                    assert(out@[a] == before[a] && out@[b] == before[b - 1]);
                } else if a == pos {
                    assert(out@[b] == before[b - 1]);
                } else {
                    assert(out@[a] == before[a - 1] && out@[b] == before[b - 1]);
                }
            }
            let vb = members_of(before);
            assert(members_of(out@) =~= vb.insert(pos as int, *m));
            vstd::seq_lib::to_multiset_insert(vb, pos as int, *m);
            assert(members@.take(i + 1) =~= members@.take(i as int).push(members@[i as int]));
            vstd::seq_lib::to_multiset_build(members@.take(i as int), members@[i as int]);
            lemma_text_lt_irreflexive(m.nickname@);
            lemma_bytes_lt_trichotomy(m.id@, m.id@);
            assert forall|key: (Seq<char>, Seq<u8>)| #[trigger] members_of(out@).filter(has_member_key(key))
                == members@.take(i + 1).filter(has_member_key(key)) by {
                assert forall|j: int| pos <= j < vb.len() implies !has_member_key(key)(#[trigger] vb[j]) || !has_member_key(
                    key)(*m) by {
                    assert(vb[j] == *before[j]);
                    assert(member_before(*m, *before[j]));
                }
                lemma_filter_insert(vb, pos as int, *m, has_member_key(key));
                members@.take(i as int).lemma_filter_push(members@[i as int], has_member_key(key));
                assert(members_of(out@).filter(has_member_key(key)) == vb.insert(pos as int, *m).filter(has_member_key(key)));
                assert(members@.take(i + 1).filter(has_member_key(key)) == members@.take(i as int).push(members@[i as int]).filter(
                    has_member_key(key)));
                assert(vb.filter(has_member_key(key)) == members@.take(i as int).filter(has_member_key(key)));
            }
        }
        i = i + 1;
    }
    assert(members@.take(members@.len() as int) =~= members@);
    out
}

/// Whether `a` comes strictly after `b` in the panel.
fn later_member(a: &MemberView, b: &MemberView) -> (r: bool)
    ensures
        r == member_before(*b, *a),
{
    proof {
        lemma_text_lt_trichotomy(a.nickname@, b.nickname@);
        lemma_bytes_lt_trichotomy(a.id@, b.id@);
    }
    match compare_str(a.nickname.as_str(), b.nickname.as_str()) {
        Order::Greater => true,
        Order::Less => false,
        Order::Equal => compare_keys(&a.id, &b.id) == Order::Greater,
    }
}

/// A watch as the grid orders it: the publisher's key and the live's id.
#[derive(Debug, Clone, Copy, PartialEq, Eq)]
pub struct WatchView {
    pub publisher: [u8; 32],
    pub live_id: u32,
}

/// `a` comes before `b` in the grid: by publisher, then by live id.
pub open spec fn watch_before(a: WatchView, b: WatchView) -> bool {
    bytes_lt(a.publisher@, b.publisher@) || (a.publisher@ == b.publisher@ && a.live_id < b.live_id)
}

/// `a` does not come after `b`.
pub open spec fn watch_not_after(a: WatchView, b: WatchView) -> bool {
    watch_before(a, b) || (a.publisher@ == b.publisher@ && a.live_id == b.live_id)
}

/// Watches by publisher then live id, so tiles keep their grid position.
pub fn ordered_watches(watches: &Vec<WatchView>) -> (out: Vec<WatchView>)
    ensures
        forall|i: int, j: int| 0 <= i < j < out@.len() ==> watch_not_after(#[trigger] out@[i], #[trigger] out@[j]),
        out@.to_multiset() == watches@.to_multiset(),
{
    let mut out: Vec<WatchView> = Vec::new();
    let mut i: usize = 0;
    proof {
        assert(out@ =~= Seq::<WatchView>::empty());
        assert(watches@.take(0) =~= Seq::<WatchView>::empty());
    }
    while i < watches.len()
        invariant
            i <= watches@.len(),
            forall|a: int, b: int| 0 <= a < b < out@.len() ==> watch_not_after(#[trigger] out@[a], #[trigger] out@[b]),
            out@.to_multiset() == watches@.take(i as int).to_multiset(),
        decreases watches@.len() - i,
    {
        let w = watches[i];
        let mut pos: usize = out.len();
        while pos > 0 && later_watch(&out[pos - 1], &w)
            invariant
                pos <= out@.len(),
                forall|j: int| pos <= j < out@.len() ==> watch_before(w, #[trigger] out@[j]),
            decreases pos,
        {
            pos = pos - 1;
        }
        let ghost before = out@;
        proof {
            if pos > 0 {
                lemma_bytes_lt_trichotomy(before[pos - 1].publisher@, w.publisher@);
                assert(watch_not_after(before[pos - 1], w));
            }
        }
        out.insert(pos, w);
        proof {
            assert(out@ =~= before.insert(pos as int, w));
            assert forall|a: int, b: int| 0 <= a < b < out@.len() implies watch_not_after(#[trigger] out@[a], #[trigger] out@[b]) by {
                if a < pos && b < pos {
                    assert(out@[a] == before[a] && out@[b] == before[b]);
                } else if a < pos && b == pos {
                    assert(out@[a] == before[a]);
                    if a < pos - 1 {
                        let x = before[a];
                        let y = before[pos - 1];
                        if bytes_lt(x.publisher@, y.publisher@) && bytes_lt(y.publisher@, w.publisher@) {
                            lemma_bytes_lt_transitive(x.publisher@, y.publisher@, w.publisher@);
                        }
                    }
                } else if a < pos {
                    assert(out@[a] == before[a] && out@[b] == before[b - 1]);
                } else if a == pos {
                    assert(out@[b] == before[b - 1]);
                } else {
                    assert(out@[a] == before[a - 1] && out@[b] == before[b - 1]);
                }
            }
            vstd::seq_lib::to_multiset_insert(before, pos as int, w);
            assert(watches@.take(i + 1) =~= watches@.take(i as int).push(watches@[i as int]));
            vstd::seq_lib::to_multiset_build(watches@.take(i as int), watches@[i as int]);
        }
        i = i + 1;
    }
    assert(watches@.take(watches@.len() as int) =~= watches@);
    out
}

/// Whether `a` comes strictly after `b` in the grid.
fn later_watch(a: &WatchView, b: &WatchView) -> (r: bool)
    ensures
        r == watch_before(*b, *a),
{
    proof {
        lemma_bytes_lt_trichotomy(a.publisher@, b.publisher@);
    }
    match compare_keys(&a.publisher, &b.publisher) {
        Order::Greater => true,
        Order::Less => false,
        Order::Equal => a.live_id > b.live_id,
    }
}

} // verus!
