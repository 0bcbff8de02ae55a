//! Bookkeeping for the icon pipeline: the freshness-checked cache of
//! rasterized icons, the battery-state tracker that suppresses redundant
//! regeneration, and the bounded exponential-backoff retry schedule. The
//! caller performs the filesystem and subprocess work and hands the
//! observations (modification times, file existence) to these decisions.
use vstd::prelude::*;

use crate::cmd::CommandRunner;
use crate::text::str_equal;

verus! {

/// One cache record: a source SVG path mapped to the rasterized file
/// produced from it and the source's modification time at conversion.
#[derive(Debug, Clone)]
pub struct CacheEntry {
    pub svg_path: String,
    pub raster_path: String,
    pub src_mtime: u64,
}

/// Mathematical model of one cache record.
pub struct EntryModel {
    pub key: Seq<char>,
    pub raster: Seq<char>,
    pub mtime: u64,
}

impl View for CacheEntry {
    type V = EntryModel;

    open spec fn view(&self) -> EntryModel {
        EntryModel { key: self.svg_path@, raster: self.raster_path@, mtime: self.src_mtime }
    }
}

impl DeepView for CacheEntry {
    type V = EntryModel;

    open spec fn deep_view(&self) -> EntryModel {
        self.view()
    }
}

/// The value stored under `key`, read off the first record holding it.
pub open spec fn cache_get(m: Seq<EntryModel>, key: Seq<char>) -> Option<(Seq<char>, u64)>
    decreases m.len(),
{
    if m.len() == 0 {
        None
    } else if m[0].key == key {
        Some((m[0].raster, m[0].mtime))
    } else {
        cache_get(m.drop_first(), key)
    }
}

proof fn lemma_cache_get_at(m: Seq<EntryModel>, key: Seq<char>, i: int)
    requires
        0 <= i < m.len(),
        m[i].key == key,
        forall|j: int| 0 <= j < i ==> m[j].key != key,
    ensures
        cache_get(m, key) == Some((m[i].raster, m[i].mtime)),
    decreases i,
{
    if i > 0 {
        assert(m.drop_first()[i - 1] == m[i]);
        assert(forall|j: int| 0 <= j < i - 1 ==> m.drop_first()[j] == m[j + 1]);
        lemma_cache_get_at(m.drop_first(), key, i - 1);
    }
}

proof fn lemma_cache_get_absent(m: Seq<EntryModel>, key: Seq<char>)
    requires
        forall|j: int| 0 <= j < m.len() ==> m[j].key != key,
    ensures
        cache_get(m, key) is None,
    decreases m.len(),
{
    if m.len() > 0 {
        assert(forall|j: int| 0 <= j < m.drop_first().len() ==> m.drop_first()[j] == m[j + 1]);
        lemma_cache_get_absent(m.drop_first(), key);
    }
}

proof fn lemma_cache_get_push(m: Seq<EntryModel>, e: EntryModel, key: Seq<char>)
    ensures
        cache_get(m.push(e), key) == (match cache_get(m, key) {
            Some(v) => Some(v),
            None => if e.key == key {
                Some((e.raster, e.mtime))
            } else {
                None
            },
        }),
    decreases m.len(),
{
    if m.len() == 0 {
        assert(m.push(e)[0] == e);
        assert(m.push(e).drop_first() =~= Seq::<EntryModel>::empty());
        assert(cache_get(Seq::<EntryModel>::empty(), key) is None);
    } else {
        assert(m.push(e)[0] == m[0]);
        assert(m.push(e).drop_first() =~= m.drop_first().push(e));
        lemma_cache_get_push(m.drop_first(), e, key);
    }
}

proof fn lemma_cache_get_update_same_key(
    m: Seq<EntryModel>,
    i: int,
    e: EntryModel,
    key: Seq<char>,
)
    requires
        0 <= i < m.len(),
        e.key == m[i].key,
        key != e.key,
    ensures
        cache_get(m.update(i, e), key) == cache_get(m, key),
    decreases i,
{
    let m2 = m.update(i, e);
    if i == 0 {
        assert(m2[0].key == m[0].key);
        assert(m2.drop_first() =~= m.drop_first());
    } else {
        assert(m2[0] == m[0]);
        assert(m2.drop_first() =~= m.drop_first().update(i - 1, e));
        lemma_cache_get_update_same_key(m.drop_first(), i - 1, e, key);
    }
}

/// The position of the record holding `svg_path`, if one does.
fn index_of_key(entries: &Vec<CacheEntry>, svg_path: &str) -> (r: Option<usize>)
    ensures
        match r {
            Some(i) => i < entries@.len() && entries.deep_view()[i as int].key == svg_path@
                && forall|j: int|
                0 <= j < i ==> (#[trigger] entries.deep_view()[j]).key != svg_path@,
            None => forall|j: int|
                0 <= j < entries@.len() ==> (#[trigger] entries.deep_view()[j]).key != svg_path@,
        },
{
    let n = entries.len();
    let mut i: usize = 0;
    while i < n
        invariant
            n == entries@.len(),
            i <= n,
            forall|j: int| 0 <= j < i ==> (#[trigger] entries.deep_view()[j]).key != svg_path@,
        decreases n - i,
    {
        if str_equal(entries[i].svg_path.as_str(), svg_path) {
            return Some(i);
        }
        i = i + 1;
    }
    None
}

/// The cache of rasterized icons, keyed by the source SVG's path.
#[derive(Debug)]
pub struct IconCache {
    entries: Vec<CacheEntry>,
}

impl View for IconCache {
    type V = Seq<EntryModel>;

    closed spec fn view(&self) -> Seq<EntryModel> {
        self.entries.deep_view()
    }
}

/// The raster paths of the records, in record order.
pub open spec fn rasters_of(m: Seq<EntryModel>) -> Seq<Seq<char>>
    decreases m.len(),
{
    if m.len() == 0 {
        Seq::empty()
    } else {
        rasters_of(m.drop_last()) + seq![m.last().raster]
    }
}

impl IconCache {
    /// No two records share a key.
    pub open spec fn wf(&self) -> bool {
        forall|i: int, j: int|
            0 <= i < j < self@.len() ==> (#[trigger] self@[i]).key != (#[trigger] self@[j]).key
    }

    /// The empty cache.
    pub fn new() -> (r: IconCache)
        ensures
            r@.len() == 0,
            r.wf(),
    {
        IconCache { entries: Vec::new() }
    }

    /// How many records the cache holds.
    pub fn len(&self) -> (r: usize)
        ensures
            r == self@.len(),
    {
        self.entries.len()
    }

    /// Look up the record for a source path: the raster produced from it
    /// and the source's modification time at conversion, if recorded.
    pub fn get(&self, svg_path: &str) -> (r: Option<(String, u64)>)
        ensures
            match r {
                Some((p, t)) => cache_get(self@, svg_path@) == Some((p@, t)),
                None => cache_get(self@, svg_path@) is None,
            },
    {
        let n = self.entries.len();
        let mut i: usize = 0;
        while i < n
            invariant
                n == self@.len(),
                i <= n,
                forall|j: int| 0 <= j < i ==> (#[trigger] self@[j]).key != svg_path@,
            decreases n - i,
        {
            if str_equal(self.entries[i].svg_path.as_str(), svg_path) {
                proof {
                    lemma_cache_get_at(self@, svg_path@, i as int);
                }
                return Some((self.entries[i].raster_path.clone(), self.entries[i].src_mtime));
            }
            i = i + 1;
        }
        proof {
            lemma_cache_get_absent(self@, svg_path@);
        }
        None
    }

    /// Record a successful conversion, replacing any earlier record for the
    /// same source path and leaving every other record's value unchanged.
    pub fn record(&mut self, svg_path: &str, raster_path: String, src_mtime: u64)
        requires
            old(self).wf(),
        ensures
            final(self).wf(),
            cache_get(final(self)@, svg_path@) == Some((raster_path@, src_mtime)),
            forall|k: Seq<char>|
                k != svg_path@ ==> #[trigger] cache_get(final(self)@, k) == cache_get(
                    old(self)@,
                    k,
                ),
    {
        let entry = CacheEntry {
            svg_path: svg_path.to_owned(),
            raster_path,
            src_mtime,
        };
        let found = index_of_key(&self.entries, svg_path);
        match found {
            Some(i) => {
                let ghost pre = self@;
                let ghost idx = i as int;
                self.entries.set(i, entry);
                proof {
                    assert(self@ =~= pre.update(idx, EntryModel {
                        key: svg_path@,
                        raster: raster_path@,
                        mtime: src_mtime,
                    }));
                    lemma_cache_get_at(self@, svg_path@, idx);
                    assert forall|k: Seq<char>| k != svg_path@ implies #[trigger] cache_get(
                        self@,
                        k,
                    ) == cache_get(pre, k) by {
                        lemma_cache_get_update_same_key(pre, idx, self@[idx], k);
                    }
                    assert(forall|j: int|
                        0 <= j < self@.len() ==> (#[trigger] self@[j]).key == pre[j].key);
                }
            },
            None => {
                let ghost pre = self@;
                self.entries.push(entry);
                proof {
                    assert(self@ =~= pre.push(EntryModel {
                        key: svg_path@,
                        raster: raster_path@,
                        mtime: src_mtime,
                    }));
                    lemma_cache_get_absent(pre, svg_path@);
                    lemma_cache_get_push(pre, self@.last(), svg_path@);
                    assert forall|k: Seq<char>| k != svg_path@ implies #[trigger] cache_get(
                        self@,
                        k,
                    ) == cache_get(pre, k) by {
                        lemma_cache_get_push(pre, self@.last(), k);
                    }
                }
            },
        }
    }

    /// The raster paths now cached, in record order: what a sweep probes
    /// and deletes.
    pub fn raster_paths(&self) -> (r: Vec<String>)
        ensures
            r.deep_view() == rasters_of(self@),
    {
        let n = self.entries.len();
        let mut r: Vec<String> = Vec::new();
        let mut i: usize = 0;
        while i < n
            invariant
                n == self@.len(),
                i <= n,
                r.deep_view() == rasters_of(self@.subrange(0, i as int)),
            decreases n - i,
        {
            let ghost pre = r.deep_view();
            let item = self.entries[i].raster_path.clone();
            let ghost iv = item@;
            r.push(item);
            proof {
                assert(r.deep_view() =~= pre.push(iv));
                assert(self@.subrange(0, i + 1).drop_last() =~= self@.subrange(0, i as int));
                assert(self@.subrange(0, i + 1).last() == self@[i as int]);
                assert(r.deep_view() =~= rasters_of(self@.subrange(0, i + 1)));
            }
            i = i + 1;
        }
        proof {
            assert(self@.subrange(0, self@.len() as int) =~= self@);
        }
        r
    }

    /// The destructive sweep: every record is dropped, and the paths of the
    /// rasters observed still to exist (flags in record order) are returned
    /// for the caller to delete. The next lookup after a sweep is always a
    /// miss.
    pub fn sweep(&mut self, raster_exists: &Vec<bool>) -> (to_delete: Vec<String>)
        requires
            raster_exists@.len() == old(self)@.len(),
        ensures
            final(self)@.len() == 0,
            final(self).wf(),
            to_delete.deep_view() == flagged_rasters(old(self)@, raster_exists@),
    {
        let n = self.entries.len();
        let mut to_delete: Vec<String> = Vec::new();
        let mut i: usize = 0;
        while i < n
            invariant
                n == self@.len(),
                raster_exists@.len() == self@.len(),
                self@ == old(self)@,
                i <= n,
                to_delete.deep_view() == flagged_rasters(
                    self@.subrange(0, i as int),
                    raster_exists@.subrange(0, i as int),
                ),
            decreases n - i,
        {
            proof {
                assert(self@.subrange(0, i + 1).drop_last() =~= self@.subrange(0, i as int));
                assert(raster_exists@.subrange(0, i + 1).drop_last() =~= raster_exists@.subrange(
                    0,
                    i as int,
                ));
                assert(self@.subrange(0, i + 1).last() == self@[i as int]);
                assert(raster_exists@.subrange(0, i + 1).last() == raster_exists@[i as int]);
            }
            if raster_exists[i] {
                let ghost pre = to_delete.deep_view();
                let item = self.entries[i].raster_path.clone();
                let ghost iv = item@;
                to_delete.push(item);
                proof {
                    assert(to_delete.deep_view() =~= pre.push(iv));
                    assert(to_delete.deep_view() =~= flagged_rasters(
                        self@.subrange(0, i + 1),
                        raster_exists@.subrange(0, i + 1),
                    ));
                }
            }
            i = i + 1;
        }
        proof {
            assert(self@.subrange(0, self@.len() as int) =~= self@);
            assert(raster_exists@.subrange(0, raster_exists@.len() as int) =~= raster_exists@);
        }
        self.entries = Vec::new();
        to_delete
    }
}

/// The rasters of the records whose flag is set, in record order.
pub open spec fn flagged_rasters(m: Seq<EntryModel>, flags: Seq<bool>) -> Seq<Seq<char>>
    decreases m.len(),
{
    if m.len() == 0 || flags.len() != m.len() {
        Seq::empty()
    } else if flags.last() {
        flagged_rasters(m.drop_last(), flags.drop_last()) + seq![m.last().raster]
    } else {
        flagged_rasters(m.drop_last(), flags.drop_last())
    }
}

/// A cached record is a hit exactly when its raster still exists and the
/// source has not been modified since the conversion it records.
pub open spec fn cache_hit(cached_mtime: u64, src_mtime: u64, raster_exists: bool) -> bool {
    raster_exists && cached_mtime >= src_mtime
}

/// Decide whether a cached record may be reused, from the source's current
/// modification time and whether the raster was observed to exist.
pub fn is_fresh(cached_mtime: u64, src_mtime: u64, raster_exists: bool) -> (r: bool)
    ensures
        r == cache_hit(cached_mtime, src_mtime, raster_exists),
{
    raster_exists && cached_mtime >= src_mtime
}

/// A record whose backing raster has been deleted is never a hit, whatever
/// the recorded time: the next lookup falls through to a fresh conversion.
pub proof fn lemma_deleted_raster_is_miss(cached_mtime: u64, src_mtime: u64)
    ensures
        !cache_hit(cached_mtime, src_mtime, false),
{
}

/// Recording a conversion makes the very next lookup of that source a hit:
/// `record` leaves the source's modification time in the entry, so as long
/// as the source is no newer and the raster still exists, no conversion runs.
pub proof fn lemma_record_then_hit(mtime: u64, src_mtime: u64)
    requires
        src_mtime <= mtime,
    ensures
        cache_hit(mtime, src_mtime, true),
{
}

/// The last battery state observed, used to suppress redundant icon
/// regeneration.
#[derive(Debug)]
pub struct BatteryTracker {
    last: Option<(u8, bool)>,
}

impl View for BatteryTracker {
    type V = Option<(u8, bool)>;

    closed spec fn view(&self) -> Option<(u8, bool)> {
        self.last
    }
}

/// What one observation does to the tracker: the state is always
/// overwritten, and the report says whether it differed from the one before.
pub open spec fn tracker_step(last: Option<(u8, bool)>, level: u8, charging: bool) -> (Option<
    (u8, bool)
>, bool) {
    (Some((level, charging)), last != Some((level, charging)))
}

impl BatteryTracker {
    /// A tracker that has observed nothing yet.
    pub fn new() -> (r: BatteryTracker)
        ensures
            r@ is None,
    {
        BatteryTracker { last: None }
    }

    /// The last state observed, if any.
    pub fn current(&self) -> (r: Option<(u8, bool)>)
        ensures
            r == self@,
    {
        self.last
    }

    /// Record a freshly fetched state unconditionally and report whether it
    /// changed; an unchanged state lets the caller skip all regeneration.
    pub fn update(&mut self, level: u8, charging: bool) -> (changed: bool)
        ensures
            final(self)@ == tracker_step(old(self)@, level, charging).0,
            changed == tracker_step(old(self)@, level, charging).1,
    {
        let changed = match &self.last {
            Some((l, c)) => !(*l == level && *c == charging),
            None => true,
        };
        self.last = Some((level, charging));
        changed
    }
}

/// Observing the same state twice in a row reports no change the second
/// time: the regeneration path short-circuits idempotently.
pub proof fn lemma_tracker_idempotent(last: Option<(u8, bool)>, level: u8, charging: bool)
    ensures
        tracker_step(tracker_step(last, level, charging).0, level, charging).1 == false,
{
}

/// Fetch the battery state through the runner, falling back to an empty,
/// not-charging reading, and record it in the tracker. The returned triple
/// is the level, the charging flag, and whether the state changed since the
/// last observation — regeneration is skipped when it did not.
pub fn fetch_and_track<R: CommandRunner>(runner: &R, tracker: &mut BatteryTracker) -> (r: (
    u8,
    bool,
    bool,
))
    ensures
        final(tracker)@ == tracker_step(old(tracker)@, r.0, r.1).0,
        r.2 == tracker_step(old(tracker)@, r.0, r.1).1,
        r.0 <= 100,
{
    let (level, charging) = match crate::cmd::get_battery_level_with_runner(runner) {
        Some(s) => s,
        None => (0, false),
    };
    let changed = tracker.update(level, charging);
    (level, charging, changed)
}

/// The delay before retry `k` of a failed conversion: 100 ms doubled `k`
/// times, an exponentially increasing backoff.
pub open spec fn backoff_delay_ms(k: int) -> int
    decreases k,
{
    if k <= 0 {
        100
    } else {
        2 * backoff_delay_ms(k - 1)
    }
}

/// How many conversion attempts the retry policy allows in all.
pub open spec fn max_attempts() -> int {
    5
}

/// The retry schedule for failed conversions: up to five attempts, with
/// exponentially increasing backoff between them.
#[derive(Debug)]
pub struct RetryState {
    attempts: u8,
}

impl View for RetryState {
    type V = int;

    closed spec fn view(&self) -> int {
        self.attempts as int
    }
}

impl RetryState {
    /// A schedule with no attempt made yet.
    pub fn new() -> (r: RetryState)
        ensures
            r@ == 0,
    {
        RetryState { attempts: 0 }
    }

    /// How many attempts have been made.
    pub fn attempts_made(&self) -> (r: u8)
        ensures
            r as int == self@,
    {
        self.attempts
    }

    /// Record a failed attempt. While attempts remain the result is the
    /// backoff delay in milliseconds to sleep before the next one; once the
    /// budget of attempts is spent the result is nothing and the caller
    /// gives up.
    pub fn on_failure(&mut self) -> (r: Option<u64>)
        requires
            old(self)@ < max_attempts(),
        ensures
            final(self)@ == old(self)@ + 1,
            final(self)@ < max_attempts() ==> r == Some(backoff_delay_ms(final(self)@) as u64),
            final(self)@ >= max_attempts() ==> r is None,
    {
        self.attempts = self.attempts + 1;
        proof {
            assert(backoff_delay_ms(0) == 100);
            assert(backoff_delay_ms(1) == 200);
            assert(backoff_delay_ms(2) == 400);
            assert(backoff_delay_ms(3) == 800);
            assert(backoff_delay_ms(4) == 1600);
        }
        if self.attempts == 1 {
            Some(200)
        } else if self.attempts == 2 {
            Some(400)
        } else if self.attempts == 3 {
            Some(800)
        } else if self.attempts == 4 {
            Some(1600)
        } else {
            None
        }
    }
}

} // verus!
