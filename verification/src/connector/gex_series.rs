//! The histories of derived snapshots, one per series.
use vstd::prelude::*;
use crate::connector::gex_history::SnapshotRef;
use crate::connector::gex_keys::{DerivedGexSeriesKey, SeriesModel};
use crate::connector::records;
use crate::connector::records::keep_oldest;
use crate::units;
use crate::units::UnixMs;

verus! {

pub const DISK_RETENTION_MS: u64 = 86_400_000;

pub const MAX_HISTORY_SNAPSHOTS: usize = 5_760;

/// A derived snapshot of the history: the revision of the raw data it was computed from,
/// when that was observed, and where the figures are kept.
#[derive(Clone, Copy, Debug, PartialEq, Eq, Structural)]
pub struct HistoryEntry {
    pub revision: u64,
    pub observed_at: UnixMs,
    pub slot: usize,
}

/// The history of one series, and whether its stored part has been read.
#[derive(Debug)]
pub struct SeriesHistory {
    pub key: DerivedGexSeriesKey,
    pub loaded: bool,
    pub entries: Vec<HistoryEntry>,
}

/// The histories that are held.
#[derive(Debug)]
pub struct Histories {
    pub list: Vec<SeriesHistory>,
}

/// The place of a series in the list, or the length of the list.
pub open spec fn place_of(list: Seq<SeriesHistory>, key: SeriesModel) -> int
    decreases list.len(),
{
    if list.len() == 0 {
        0
    } else if place_of(list.drop_last(), key) < list.len() - 1 {
        place_of(list.drop_last(), key)
    } else if list.last().key@ == key {
        list.len() - 1
    } else {
        list.len() as int
    }
}

proof fn lemma_place(list: Seq<SeriesHistory>, key: SeriesModel)
    ensures
        0 <= place_of(list, key) <= list.len(),
        place_of(list, key) < list.len() ==> list[place_of(list, key)].key@ == key,
        forall|i: int| 0 <= i < place_of(list, key) ==> (#[trigger] list[i]).key@ != key,
    decreases list.len(),
{
    if list.len() > 0 {
        lemma_place(list.drop_last(), key);
        assert forall|i: int| 0 <= i < place_of(list, key) implies (#[trigger] list[i]).key@
            != key by {
            if i < list.len() - 1 {
                assert(list.drop_last()[i] == list[i]);
            }
        }
    }
}

proof fn lemma_place_is(list: Seq<SeriesHistory>, key: SeriesModel, at: int)
    requires
        0 <= at <= list.len(),
        at < list.len() ==> list[at].key@ == key,
        forall|i: int| 0 <= i < at ==> (#[trigger] list[i]).key@ != key,
    ensures
        place_of(list, key) == at,
{
    lemma_place(list, key);
    let found = place_of(list, key);
    if found < at {
        assert(list[found].key@ != key);
    }
    if at < found {
        assert(list[at].key@ != key);
    }
}

/// Two lists with the same keys in the same places have every series in the same place.
proof fn lemma_same_places(a: Seq<SeriesHistory>, b: Seq<SeriesHistory>, key: SeriesModel)
    requires
        a.len() == b.len(),
        forall|i: int| 0 <= i < a.len() ==> (#[trigger] a[i]).key@ == b[i].key@,
    ensures
        place_of(a, key) == place_of(b, key),
{
    lemma_place(a, key);
    let at = place_of(a, key);
    assert forall|i: int| 0 <= i < at implies (#[trigger] b[i]).key@ != key by {
        assert(a[i].key@ == b[i].key@);
    }
    lemma_place_is(b, key, at);
}

/// Whether an entry repeats the revision or the moment of one that is there.
pub open spec fn repeats(entries: Seq<HistoryEntry>, entry: HistoryEntry) -> bool {
    exists|i: int|
        0 <= i < entries.len() && ((#[trigger] entries[i]).revision == entry.revision
            || entries[i].observed_at == entry.observed_at)
}

/// The place before the first later entry.
pub open spec fn insertion_place(entries: Seq<HistoryEntry>, moment: u64) -> int
    decreases entries.len(),
{
    if entries.len() == 0 {
        0
    } else if insertion_place(entries.drop_last(), moment) < entries.len() - 1 {
        insertion_place(entries.drop_last(), moment)
    } else if entries.last().observed_at.ms > moment {
        entries.len() - 1
    } else {
        entries.len() as int
    }
}

proof fn lemma_insertion_place(entries: Seq<HistoryEntry>, moment: u64)
    ensures
        0 <= insertion_place(entries, moment) <= entries.len(),
        insertion_place(entries, moment) < entries.len()
            ==> entries[insertion_place(entries, moment)].observed_at.ms > moment,
        forall|i: int|
            0 <= i < insertion_place(entries, moment) ==> (#[trigger] entries[i]).observed_at.ms
                <= moment,
    decreases entries.len(),
{
    if entries.len() > 0 {
        lemma_insertion_place(entries.drop_last(), moment);
        assert forall|i: int| 0 <= i < insertion_place(entries, moment) implies (
        #[trigger] entries[i]).observed_at.ms <= moment by {
            if i < entries.len() - 1 {
                assert(entries.drop_last()[i] == entries[i]);
            }
        }
    }
}

/// The entries without those at the front that are too old or too many.
pub open spec fn pruned(entries: Seq<HistoryEntry>, cutoff: u64) -> Seq<HistoryEntry>
    decreases entries.len(),
{
    if entries.len() > 0 && (entries[0].observed_at.ms < cutoff || entries.len()
        > MAX_HISTORY_SNAPSHOTS) {
        pruned(entries.skip(1), cutoff)
    } else {
        entries
    }
}

/// The history after an entry has come in: unchanged where the entry repeats one, else
/// with the entry in its place and without what has become too old or too much.
pub open spec fn appended(entries: Seq<HistoryEntry>, entry: HistoryEntry, now: u64) -> Seq<
    HistoryEntry,
> {
    if repeats(entries, entry) {
        entries
    } else {
        pruned(
            entries.insert(insertion_place(entries, entry.observed_at.ms), entry),
            units::sat_sub(now, DISK_RETENTION_MS),
        )
    }
}

/// Entries of strictly ascending moments.
pub open spec fn ascending(entries: Seq<HistoryEntry>) -> bool {
    forall|i: int, j: int|
        0 <= i < j < entries.len() ==> (#[trigger] entries[i]).observed_at.ms < (
        #[trigger] entries[j]).observed_at.ms
}

proof fn lemma_pruned(entries: Seq<HistoryEntry>, cutoff: u64)
    requires
        ascending(entries),
    ensures
        ascending(pruned(entries, cutoff)),
        pruned(entries, cutoff).len() <= MAX_HISTORY_SNAPSHOTS,
        pruned(entries, cutoff).len() <= entries.len(),
        pruned(entries, cutoff) == entries.skip(entries.len() - pruned(entries, cutoff).len()),
        forall|i: int|
            0 <= i < pruned(entries, cutoff).len() ==> (#[trigger] pruned(
                entries,
                cutoff,
            )[i]).observed_at.ms >= cutoff,
    decreases entries.len(),
{
    if entries.len() > 0 && (entries[0].observed_at.ms < cutoff || entries.len()
        > MAX_HISTORY_SNAPSHOTS) {
        let rest = entries.skip(1);
        assert forall|i: int, j: int| 0 <= i < j < rest.len() implies (
        #[trigger] rest[i]).observed_at.ms < (#[trigger] rest[j]).observed_at.ms by {
            assert(entries[i + 1].observed_at.ms < entries[j + 1].observed_at.ms);
        }
        lemma_pruned(rest, cutoff);
        let out = pruned(rest, cutoff);
        assert(rest.skip(rest.len() - out.len()) =~= entries.skip(entries.len() - out.len()));
    } else {
        assert(entries.skip(0) =~= entries);
        assert forall|i: int| 0 <= i < entries.len() implies (
        #[trigger] entries[i]).observed_at.ms >= cutoff by {
            if i > 0 {
                assert(entries[0].observed_at.ms < entries[i].observed_at.ms);
            }
        }
    }
}

/// A history that is ordered and bounded stays so: moments ascend strictly, so none
/// occurs twice, and there are never more entries than the limit. Once an entry has been
/// taken in, none is older than the retention.
pub proof fn history_stays_ordered_and_bounded(
    entries: Seq<HistoryEntry>,
    entry: HistoryEntry,
    now: u64,
)
    requires
        ascending(entries),
        entries.len() <= MAX_HISTORY_SNAPSHOTS,
    ensures
        ascending(appended(entries, entry, now)),
        appended(entries, entry, now).len() <= MAX_HISTORY_SNAPSHOTS,
        !repeats(entries, entry) ==> forall|i: int|
            0 <= i < appended(entries, entry, now).len() ==> (#[trigger] appended(
                entries,
                entry,
                now,
            )[i]).observed_at.ms >= units::sat_sub(now, DISK_RETENTION_MS),
{
    if !repeats(entries, entry) {
        let moment = entry.observed_at.ms;
        let at = insertion_place(entries, moment);
        lemma_insertion_place(entries, moment);
        let longer = entries.insert(at, entry);
        assert forall|i: int, j: int| 0 <= i < j < longer.len() implies (
        #[trigger] longer[i]).observed_at.ms < (#[trigger] longer[j]).observed_at.ms by {
            if i < at && j == at {
                assert(entries[i].observed_at != entry.observed_at);
            } else if i == at {
                assert(longer[j] == entries[j - 1]);
                if j - 1 > at {
                    assert(entries[at].observed_at.ms < entries[j - 1].observed_at.ms);
                }
            } else if i < at && j > at {
                assert(longer[j] == entries[j - 1]);
                assert(entries[i].observed_at.ms < entries[j - 1].observed_at.ms);
            } else if i > at {
                assert(longer[i] == entries[i - 1]);
                assert(longer[j] == entries[j - 1]);
                assert(entries[i - 1].observed_at.ms < entries[j - 1].observed_at.ms);
            }
        }
        lemma_pruned(longer, units::sat_sub(now, DISK_RETENTION_MS));
    }
}

/// A snapshot that is new, recent and, where the history is full, later than its first
/// entry is in the history afterwards.
pub proof fn recent_snapshot_is_kept(entries: Seq<HistoryEntry>, entry: HistoryEntry, now: u64)
    requires
        ascending(entries),
        entries.len() <= MAX_HISTORY_SNAPSHOTS,
        entries.len() == MAX_HISTORY_SNAPSHOTS ==> entry.observed_at.ms
            > entries[0].observed_at.ms,
        !repeats(entries, entry),
        entry.observed_at.ms >= units::sat_sub(now, DISK_RETENTION_MS),
    ensures
        appended(entries, entry, now).contains(entry),
{
    let cutoff = units::sat_sub(now, DISK_RETENTION_MS);
    let at = insertion_place(entries, entry.observed_at.ms);
    lemma_insertion_place(entries, entry.observed_at.ms);
    let longer = entries.insert(at, entry);
    assert(longer[at] == entry);
    lemma_kept(longer, at, cutoff);
}

proof fn lemma_kept(entries: Seq<HistoryEntry>, at: int, cutoff: u64)
    requires
        0 <= at < entries.len() <= MAX_HISTORY_SNAPSHOTS + at,
        entries[at].observed_at.ms >= cutoff,
    ensures
        pruned(entries, cutoff).contains(entries[at]),
    decreases entries.len(),
{
    if entries[0].observed_at.ms < cutoff || entries.len() > MAX_HISTORY_SNAPSHOTS {
        let rest = entries.skip(1);
        assert(rest[at - 1] == entries[at]);
        lemma_kept(rest, at - 1, cutoff);
    } else {
        assert(entries[at] == entries[at]);
    }
}

/// The entries of stored snapshots.
pub open spec fn stored_entries(snapshots: Seq<SnapshotRef>) -> Seq<HistoryEntry> {
    snapshots.map_values(
        |s: SnapshotRef| HistoryEntry { revision: 0, observed_at: s.observed_at, slot: s.slot },
    )
}

/// The entries that are not older than the cutoff, in order.
pub open spec fn entries_since(entries: Seq<HistoryEntry>, cutoff: u64) -> Seq<HistoryEntry>
    decreases entries.len(),
{
    if entries.len() == 0 {
        seq![]
    } else if entries.last().observed_at.ms >= cutoff {
        entries_since(entries.drop_last(), cutoff).push(entries.last())
    } else {
        entries_since(entries.drop_last(), cutoff)
    }
}

/// How far back a history is shown: the asked minutes, between half an hour and a day.
pub open spec fn shown_ms(retention_minutes: u16) -> u64 {
    (if retention_minutes < 30 {
        30
    } else if retention_minutes > 1_440 {
        1_440
    } else {
        retention_minutes as int
    } * 60_000) as u64
}

impl Histories {
    /// The history of a series.
    pub open spec fn entries_of(self, key: SeriesModel) -> Seq<HistoryEntry> {
        let at = place_of(self.list@, key);
        if at < self.list@.len() {
            self.list@[at].entries@
        } else {
            seq![]
        }
    }

    /// Whether the stored part of a series has been read.
    pub open spec fn is_loaded(self, key: SeriesModel) -> bool {
        let at = place_of(self.list@, key);
        at < self.list@.len() && self.list@[at].loaded
    }

    pub fn new() -> (r: Self)
        ensures
            r.list@.len() == 0,
    {
        Histories { list: Vec::new() }
    }

    fn position(&self, key: &DerivedGexSeriesKey) -> (at: usize)
        ensures
            at == place_of(self.list@, key@),
            at <= self.list@.len(),
    {
        let mut i: usize = 0;
        while i < self.list.len()
            invariant
                i <= self.list@.len(),
                forall|j: int| 0 <= j < i ==> (#[trigger] self.list@[j]).key@ != key@,
            decreases self.list@.len() - i,
        {
            if self.list[i].key.same(key) {
                proof {
                    lemma_place_is(self.list@, key@, i as int);
                }
                return i;
            }
            i = i + 1;
        }
        proof {
            lemma_place_is(self.list@, key@, i as int);
        }
        i
    }

    /// The place of a series, which is added with an empty history where it is missing.
    fn place_for(&mut self, key: &DerivedGexSeriesKey) -> (at: usize)
        ensures
            at < final(self).list@.len(),
            at == place_of(final(self).list@, key@),
            final(self).list@[at as int].entries@ == old(self).entries_of(key@),
            final(self).list@[at as int].loaded == old(self).is_loaded(key@),
            forall|k: SeriesModel| #[trigger]
                final(self).entries_of(k) == old(self).entries_of(k),
            forall|k: SeriesModel| #[trigger] final(self).is_loaded(k) == old(self).is_loaded(k),
    {
        let at: usize = self.position(key);
        if at == self.list.len() {
            let ghost before = *self;
            self.list.push(
                SeriesHistory { key: key.duplicate(), loaded: false, entries: Vec::new() },
            );
            proof {
                assert forall|k: SeriesModel|
                    #![trigger self.entries_of(k)]
                    #![trigger self.is_loaded(k)]
                    self.entries_of(k) == before.entries_of(k) && self.is_loaded(k)
                        == before.is_loaded(k) by {
                    lemma_place(before.list@, k);
                    let found = place_of(before.list@, k);
                    assert(self.list@.drop_last() =~= before.list@);
                    if found < before.list@.len() {
                        assert(place_of(self.list@, k) == found);
                    } else {
                        assert(self.entries_of(k) =~= before.entries_of(k));
                    }
                }
                assert(self.list@.drop_last() =~= before.list@);
            }
        }
        at
    }

    /// Takes an entry into the history of a series.
    pub fn append_history(
        &mut self,
        key: &DerivedGexSeriesKey,
        revision: u64,
        observed_at: UnixMs,
        slot: usize,
        now: UnixMs,
    ) -> (r: bool)
        ensures
            final(self).entries_of(key@) == appended(
                old(self).entries_of(key@),
                (HistoryEntry { revision, observed_at, slot }),
                now.ms,
            ),
            forall|k: SeriesModel|
                k != key@ ==> #[trigger] final(self).entries_of(k) == old(self).entries_of(k),
            forall|k: SeriesModel| #[trigger] final(self).is_loaded(k) == old(self).is_loaded(k),
            r == !repeats(
                old(self).entries_of(key@),
                (HistoryEntry { revision, observed_at, slot }),
            ),
    {
        let at: usize = self.place_for(key);
        let ghost middle = *self;
        let entry: HistoryEntry = HistoryEntry { revision, observed_at, slot };
        let mut series = self.list.remove(at);
        let r: bool = append_entry(&mut series.entries, entry, now);
        self.list.insert(at, series);
        proof {
            assert forall|i: int| 0 <= i < self.list@.len() implies (
            #[trigger] self.list@[i]).key@ == middle.list@[i].key@ by {
                if i != at {
                    assert(self.list@[i] == middle.list@[i]);
                }
            }
            assert(self.list@.len() == middle.list@.len());
            assert forall|k: SeriesModel|
                #![trigger self.entries_of(k)]
                #![trigger self.is_loaded(k)]
                (k != key@ ==> self.entries_of(k) == middle.entries_of(k)) && self.is_loaded(k)
                    == middle.is_loaded(k) by {
                lemma_same_places(middle.list@, self.list@, k);
                lemma_place(middle.list@, k);
                lemma_place(middle.list@, key@);
                let found = place_of(middle.list@, k);
                if found != at && found < middle.list@.len() {
                    assert(self.list@[found] == middle.list@[found]);
                }
            }
            lemma_same_places(middle.list@, self.list@, key@);
        }
        r
    }

    /// The entries of a series that are not older than the asked retention.
    pub fn history(&self, key: &DerivedGexSeriesKey, retention_minutes: u16, now: UnixMs) -> (r:
        Vec<HistoryEntry>)
        ensures
            r@ == entries_since(
                self.entries_of(key@),
                units::sat_sub(now.ms, shown_ms(retention_minutes)),
            ),
    {
        let minutes: u64 = if retention_minutes < 30 {
            30
        } else if retention_minutes > 1_440 {
            1_440
        } else {
            retention_minutes as u64
        };
        let cutoff: UnixMs = now.saturating_sub(minutes * 60_000);
        let at: usize = self.position(key);
        let mut r: Vec<HistoryEntry> = Vec::new();
        if at < self.list.len() {
            let entries = &self.list[at].entries;
            let mut i: usize = 0;
            while i < entries.len()
                invariant
                    i <= entries@.len(),
                    r@ == entries_since(entries@.take(i as int), cutoff.ms),
                decreases entries@.len() - i,
            {
                assert(entries@.take(i + 1).drop_last() =~= entries@.take(i as int));
                let entry: HistoryEntry = entries[i];
                if entry.observed_at.ms >= cutoff.ms {
                    r.push(entry);
                }
                i = i + 1;
            }
            assert(entries@.take(entries@.len() as int) =~= entries@);
        }
        r
    }

    /// Whether the stored part of a series is to be read now: once, where storing is on
    /// and the store can be reached.
    pub fn begin_load(&mut self, key: &DerivedGexSeriesKey, persistent: bool, available: bool) -> (r:
        bool)
        ensures
            r == (!old(self).is_loaded(key@) && persistent && available),
            forall|k: SeriesModel| #[trigger]
                final(self).is_loaded(k) == (old(self).is_loaded(k) || (r && k == key@)),
            forall|k: SeriesModel| #[trigger]
                final(self).entries_of(k) == old(self).entries_of(k),
    {
        let at: usize = self.position(key);
        let loaded: bool = at < self.list.len() && self.list[at].loaded;
        if loaded || !persistent || !available {
            return false;
        }
        let at: usize = self.place_for(key);
        let ghost middle = *self;
        let mut series = self.list.remove(at);
        series.loaded = true;
        self.list.insert(at, series);
        proof {
            assert forall|i: int| 0 <= i < self.list@.len() implies (
            #[trigger] self.list@[i]).key@ == middle.list@[i].key@ by {
                if i != at {
                    assert(self.list@[i] == middle.list@[i]);
                }
            }
            assert forall|k: SeriesModel|
                #![trigger self.entries_of(k)]
                #![trigger self.is_loaded(k)]
                self.entries_of(k) == middle.entries_of(k) && self.is_loaded(k) == (
                middle.is_loaded(k) || k == key@) by {
                lemma_same_places(middle.list@, self.list@, k);
                lemma_place(middle.list@, k);
                lemma_place(middle.list@, key@);
                let found = place_of(middle.list@, k);
                if found != at && found < middle.list@.len() {
                    assert(self.list@[found] == middle.list@[found]);
                }
            }
        }
        true
    }

    /// Adds the stored snapshots of a series behind what is there: of two of one moment
    /// the first, in ascending order.
    pub fn finish_load(&mut self, key: &DerivedGexSeriesKey, snapshots: Vec<SnapshotRef>)
        ensures
            exists|stored: Seq<SnapshotRef>| #[trigger]
                records::oldest_per_moment(snapshots@, stored) && final(self).entries_of(key@)
                    == old(self).entries_of(key@) + stored_entries(stored),
            forall|k: SeriesModel|
                k != key@ ==> #[trigger] final(self).entries_of(k) == old(self).entries_of(k),
            forall|k: SeriesModel| #[trigger] final(self).is_loaded(k) == old(self).is_loaded(k),
    {
        let stored = keep_oldest(snapshots);
        let at: usize = self.place_for(key);
        let ghost middle = *self;
        let mut series = self.list.remove(at);
        let ghost held = series.entries@;
        let mut i: usize = 0;
        while i < stored.len()
            invariant
                i <= stored@.len(),
                series.key == middle.list@[at as int].key,
                series.loaded == middle.list@[at as int].loaded,
                series.entries@ == held + stored_entries(stored@).take(i as int),
            decreases stored@.len() - i,
        {
            series.entries.push(
                HistoryEntry {
                    revision: 0,
                    observed_at: stored[i].observed_at,
                    slot: stored[i].slot,
                },
            );
            assert(series.entries@ =~= held + stored_entries(stored@).take(i + 1));
            i = i + 1;
        }
        assert(stored_entries(stored@).take(stored@.len() as int) =~= stored_entries(stored@));
        self.list.insert(at, series);
        proof {
            assert forall|i: int| 0 <= i < self.list@.len() implies (
            #[trigger] self.list@[i]).key@ == middle.list@[i].key@ by {
                if i != at {
                    assert(self.list@[i] == middle.list@[i]);
                }
            }
            assert forall|k: SeriesModel|
                #![trigger self.entries_of(k)]
                #![trigger self.is_loaded(k)]
                (k != key@ ==> self.entries_of(k) == middle.entries_of(k)) && self.is_loaded(k)
                    == middle.is_loaded(k) by {
                lemma_same_places(middle.list@, self.list@, k);
                lemma_place(middle.list@, k);
                lemma_place(middle.list@, key@);
                let found = place_of(middle.list@, k);
                if found != at && found < middle.list@.len() {
                    assert(self.list@[found] == middle.list@[found]);
                }
            }
            lemma_same_places(middle.list@, self.list@, key@);
            assert(self.entries_of(key@) == held + stored_entries(stored@));
        }
    }
}

/// Takes an entry into a history, and says whether it was new.
fn append_entry(entries: &mut Vec<HistoryEntry>, entry: HistoryEntry, now: UnixMs) -> (r: bool)
    ensures
        final(entries)@ == appended(old(entries)@, entry, now.ms),
        r == !repeats(old(entries)@, entry),
{
    let ghost held = entries@;
    let mut i: usize = 0;
    while i < entries.len()
        invariant
            entries@ == held,
            i <= held.len(),
            forall|j: int|
                0 <= j < i ==> (#[trigger] held[j]).revision != entry.revision
                    && held[j].observed_at != entry.observed_at,
        decreases held.len() - i,
    {
        if entries[i].revision == entry.revision || entries[i].observed_at.ms
            == entry.observed_at.ms {
            assert(repeats(held, entry)) by {
                assert(held[i as int] == entries@[i as int]);
            }
            return false;
        }
        i = i + 1;
    }
    let mut at: usize = 0;
    while at < entries.len() && entries[at].observed_at.ms <= entry.observed_at.ms
        invariant
            entries@ == held,
            at <= held.len(),
            forall|j: int|
                0 <= j < at ==> (#[trigger] held[j]).observed_at.ms <= entry.observed_at.ms,
        decreases held.len() - at,
    {
        at = at + 1;
    }
    proof {
        lemma_insertion_place(held, entry.observed_at.ms);
        let place = insertion_place(held, entry.observed_at.ms);
        if place < at {
            assert(held[place].observed_at.ms <= entry.observed_at.ms);
        }
        if at < place {
            assert(held[at as int].observed_at.ms <= entry.observed_at.ms);
        }
    }
    entries.insert(at, entry);
    let ghost longer = entries@;
    let cutoff: UnixMs = now.saturating_sub(DISK_RETENTION_MS);
    let total: usize = entries.len();
    let mut dropped: usize = 0;
    assert(longer.skip(0) =~= longer);
    while dropped < total && (entries[dropped].observed_at.ms < cutoff.ms || total - dropped
        > MAX_HISTORY_SNAPSHOTS)
        invariant
            entries@ == longer,
            total == longer.len(),
            dropped <= total,
            pruned(longer.skip(dropped as int), cutoff.ms) == pruned(longer, cutoff.ms),
        decreases total - dropped,
    {
        assert(longer.skip(dropped as int).skip(1) =~= longer.skip(dropped + 1));
        dropped = dropped + 1;
    }
    let tail = entries.split_off(dropped);
    assert(tail@ =~= longer.skip(dropped as int));
    *entries = tail;
    true
}

} // verus!
