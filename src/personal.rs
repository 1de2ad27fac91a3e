//! The record store: a document of daily exercise records keyed by date.
use vstd::prelude::*;

use crate::calendar::{date_rules, is_calendar_date, is_date_text, is_lower_ascii, keyword_rules, lower_of, local_timestamp, local_today, normalize_date, normalized};
use crate::config::AppConfig;
use crate::error::AppError;

verus! {

/// The three exercises the tracker records.
#[derive(Debug, Clone, Copy, PartialEq, Eq, Structural)]
pub enum ExerciseKind {
    Pushups,
    Situps,
    Pullups,
}

impl ExerciseKind {
    /// The exercise's name as shown to the user.
    pub fn label(&self) -> (r: &'static str)
        ensures
            r@ == match self {
                ExerciseKind::Pushups => "push-ups"@,
                ExerciseKind::Situps => "sit-ups"@,
                ExerciseKind::Pullups => "pull-ups"@,
            },
    {
        match self {
            ExerciseKind::Pushups => "push-ups",
            ExerciseKind::Situps => "sit-ups",
            ExerciseKind::Pullups => "pull-ups",
        }
    }
}

/// One count of one exercise, with the local time at which it was written.
#[derive(Debug, Clone)]
pub struct ExerciseRecord {
    pub count: u32,
    pub timestamp: String,
}

/// A record as a value: (count, timestamp).
pub type RecordView = (u32, Seq<char>);

impl View for ExerciseRecord {
    type V = RecordView;

    open spec fn view(&self) -> RecordView {
        (self.count, self.timestamp@)
    }
}

impl ExerciseRecord {
    /// A copy with the same count and timestamp.
    pub fn duplicate(&self) -> (r: ExerciseRecord)
        ensures
            r@ == self@,
    {
        ExerciseRecord { count: self.count, timestamp: self.timestamp.clone() }
    }
}

fn duplicate_opt(r: &Option<ExerciseRecord>) -> (o: Option<ExerciseRecord>)
    ensures
        record_opt_view(o) == record_opt_view(*r),
{
    match r {
        Some(e) => Some(e.duplicate()),
        None => None,
    }
}

pub open spec fn record_opt_view(r: Option<ExerciseRecord>) -> Option<RecordView> {
    match r {
        Some(e) => Some(e@),
        None => None,
    }
}

/// What was recorded on one day; each exercise may be absent.
#[derive(Debug, Clone)]
pub struct DailyRecord {
    pub pushups: Option<ExerciseRecord>,
    pub situps: Option<ExerciseRecord>,
    pub pullups: Option<ExerciseRecord>,
}

/// A day as a value: (push-ups, sit-ups, pull-ups).
pub type DayView = (Option<RecordView>, Option<RecordView>, Option<RecordView>);

impl View for DailyRecord {
    type V = DayView;

    open spec fn view(&self) -> DayView {
        (record_opt_view(self.pushups), record_opt_view(self.situps), record_opt_view(self.pullups))
    }
}

impl DailyRecord {
    /// A day on which nothing is recorded.
    pub fn empty() -> (r: DailyRecord)
        ensures
            r@ == empty_day(),
    {
        DailyRecord { pushups: None, situps: None, pullups: None }
    }

    /// A copy with the same records.
    pub fn duplicate(&self) -> (r: DailyRecord)
        ensures
            r@ == self@,
    {
        DailyRecord {
            pushups: duplicate_opt(&self.pushups),
            situps: duplicate_opt(&self.situps),
            pullups: duplicate_opt(&self.pullups),
        }
    }
}

/// A day on which nothing is recorded.
pub open spec fn empty_day() -> DayView {
    (None, None, None)
}

/// The record of `kind` on `day`.
pub open spec fn exercise_of(day: DayView, kind: ExerciseKind) -> Option<RecordView> {
    match kind {
        ExerciseKind::Pushups => day.0,
        ExerciseKind::Situps => day.1,
        ExerciseKind::Pullups => day.2,
    }
}

/// `day` with the record of `kind` replaced by `r`, the others kept.
pub open spec fn with_exercise(day: DayView, kind: ExerciseKind, r: Option<RecordView>) -> DayView {
    match kind {
        ExerciseKind::Pushups => (r, day.1, day.2),
        ExerciseKind::Situps => (day.0, r, day.2),
        ExerciseKind::Pullups => (day.0, day.1, r),
    }
}

/// The document after writing `r` as the record of `kind` on date key `k`:
/// the day is created if absent, the record of `kind` is replaced whole, and
/// everything else is kept.
pub open spec fn upsert_spec(
    m: Map<Seq<char>, DayView>,
    k: Seq<char>,
    kind: ExerciseKind,
    r: RecordView,
) -> Map<Seq<char>, DayView> {
    let day = if m.contains_key(k) {
        m[k]
    } else {
        empty_day()
    };
    m.insert(k, with_exercise(day, kind, Some(r)))
}

/// The days of a document, in the order they are held, as values.
pub open spec fn entries_view(s: Seq<(String, DailyRecord)>) -> Seq<(Seq<char>, DayView)> {
    s.map_values(|e: (String, DailyRecord)| (e.0@, e.1@))
}

pub open spec fn keys_unique(s: Seq<(Seq<char>, DayView)>) -> bool {
    forall|i: int, j: int|
        0 <= i < j < s.len() ==> #[trigger] s[i].0 != #[trigger] s[j].0
}

/// The mapping that a list of (date key, day) pairs describes; where a key
/// occurs twice the later pair counts.
pub open spec fn map_of(s: Seq<(Seq<char>, DayView)>) -> Map<Seq<char>, DayView>
    decreases s.len(),
{
    if s.len() == 0 {
        Map::empty()
    } else {
        map_of(s.drop_last()).insert(s.last().0, s.last().1)
    }
}

proof fn lemma_map_of_push(s: Seq<(Seq<char>, DayView)>, e: (Seq<char>, DayView))
    ensures
        map_of(s.push(e)) == map_of(s).insert(e.0, e.1),
{
    assert(s.push(e).drop_last() =~= s);
}

proof fn lemma_map_of_contains(s: Seq<(Seq<char>, DayView)>, k: Seq<char>)
    ensures
        map_of(s).contains_key(k) <==> exists|i: int| 0 <= i < s.len() && #[trigger] s[i].0 == k,
    decreases s.len(),
{
    if s.len() > 0 {
        let t = s.drop_last();
        lemma_map_of_contains(t, k);
        if map_of(s).contains_key(k) && k != s.last().0 {
            let i = choose|i: int| 0 <= i < t.len() && #[trigger] t[i].0 == k;
            assert(s[i].0 == k);
        }
        if exists|i: int| 0 <= i < s.len() && #[trigger] s[i].0 == k {
            let i = choose|i: int| 0 <= i < s.len() && #[trigger] s[i].0 == k;
            if i < s.len() - 1 {
                assert(t[i].0 == k);
            }
        }
    }
}

proof fn lemma_map_of_index(s: Seq<(Seq<char>, DayView)>, i: int)
    requires
        keys_unique(s),
        0 <= i < s.len(),
    ensures
        map_of(s).contains_key(s[i].0),
        map_of(s)[s[i].0] == s[i].1,
    decreases s.len(),
{
    let t = s.drop_last();
    if i < s.len() - 1 {
        assert(t[i] == s[i]);
        lemma_map_of_index(t, i);
        assert(s[i].0 != s[s.len() - 1].0);
    }
}

proof fn lemma_map_of_update(s: Seq<(Seq<char>, DayView)>, i: int, v: DayView)
    requires
        keys_unique(s),
        0 <= i < s.len(),
    ensures
        map_of(s.update(i, (s[i].0, v))) == map_of(s).insert(s[i].0, v),
    decreases s.len(),
{
    let u = s.update(i, (s[i].0, v));
    let t = s.drop_last();
    if i == s.len() - 1 {
        assert(u.drop_last() =~= t);
        assert(map_of(u) =~= map_of(s).insert(s[i].0, v));
    } else {
        assert(u.drop_last() =~= t.update(i, (t[i].0, v)));
        lemma_map_of_update(t, i, v);
        assert(s[i].0 != s[s.len() - 1].0);
        assert(map_of(u) =~= map_of(s).insert(s[i].0, v));
    }
}

proof fn lemma_map_of_len(s: Seq<(Seq<char>, DayView)>)
    requires
        keys_unique(s),
    ensures
        map_of(s).dom().finite(),
        map_of(s).len() == s.len(),
    decreases s.len(),
{
    if s.len() > 0 {
        let t = s.drop_last();
        assert(keys_unique(t)) by {
            assert forall|i: int, j: int| 0 <= i < j < t.len() implies #[trigger] t[i].0 != #[trigger] t[j].0 by {
                assert(t[i] == s[i] && t[j] == s[j]);
            }
        }
        lemma_map_of_len(t);
        lemma_map_of_contains(t, s.last().0);
        if map_of(t).contains_key(s.last().0) {
            let i = choose|i: int| 0 <= i < t.len() && #[trigger] t[i].0 == s.last().0;
            assert(s[i].0 == s[s.len() - 1].0);
        }
    }
}

/// Recording the same exercise twice on one date keeps only the second
/// record: the first is overwritten, not merged, and the other exercises of
/// that day stay as they were before either recording.
pub proof fn lemma_upsert_overwrites(
    m: Map<Seq<char>, DayView>,
    k: Seq<char>,
    kind: ExerciseKind,
    first: RecordView,
    second: RecordView,
)
    ensures
        upsert_spec(upsert_spec(m, k, kind, first), k, kind, second) == upsert_spec(m, k, kind, second),
        upsert_spec(m, k, kind, second).contains_key(k),
        exercise_of(upsert_spec(m, k, kind, second)[k], kind) == Some(second),
        forall|other: ExerciseKind|
            other != kind ==> exercise_of(#[trigger] upsert_spec(m, k, kind, second)[k], other)
                == exercise_of(
                if m.contains_key(k) {
                    m[k]
                } else {
                    empty_day()
                },
                other,
            ),
        forall|j: Seq<char>| j != k ==> #[trigger] upsert_spec(m, k, kind, second).contains_key(j) == m.contains_key(j)
            && (m.contains_key(j) ==> upsert_spec(m, k, kind, second)[j] == m[j]),
{
    let once = upsert_spec(m, k, kind, first);
    assert(upsert_spec(once, k, kind, second) =~= upsert_spec(m, k, kind, second));
}

/// Listing the days of a document and building a document from that list
/// gives back the same date keys with the same days.
pub proof fn lemma_listing_round_trip(s: Seq<(Seq<char>, DayView)>)
    requires
        keys_unique(s),
    ensures
        forall|k: Seq<char>|
            #[trigger] map_of(s).contains_key(k) <==> exists|i: int| 0 <= i < s.len() && #[trigger] s[i].0 == k,
        forall|i: int| 0 <= i < s.len() ==> #[trigger] map_of(s)[s[i].0] == s[i].1,
{
    assert forall|k: Seq<char>|
        #[trigger] map_of(s).contains_key(k) <==> exists|i: int| 0 <= i < s.len() && #[trigger] s[i].0 == k by {
        lemma_map_of_contains(s, k);
    }
    assert forall|i: int| 0 <= i < s.len() implies #[trigger] map_of(s)[s[i].0] == s[i].1 by {
        lemma_map_of_index(s, i);
    }
}

/// The whole persisted document: every recorded day, keyed by its date key.
#[derive(Debug)]
pub struct PersonalData {
    fitness: Vec<(String, DailyRecord)>,
}

impl View for PersonalData {
    type V = Map<Seq<char>, DayView>;

    closed spec fn view(&self) -> Map<Seq<char>, DayView> {
        map_of(entries_view(self.fitness@))
    }
}

impl PersonalData {
    /// Each date key occurs once.
    pub closed spec fn wf(&self) -> bool {
        keys_unique(entries_view(self.fitness@))
    }

    /// The days as they are held, each with its date key.
    pub closed spec fn days_view(&self) -> Seq<(Seq<char>, DayView)> {
        entries_view(self.fitness@)
    }

    /// The days held, each with its date key, each key once.
    pub fn days(&self) -> (r: &Vec<(String, DailyRecord)>)
        requires
            self.wf(),
        ensures
            entries_view(r@) == self.days_view(),
            keys_unique(entries_view(r@)),
            map_of(entries_view(r@)) == self@,
    {
        &self.fitness
    }

    /// The document that a list of days describes; where a date key occurs
    /// twice the later day counts.
    pub fn from_days(days: Vec<(String, DailyRecord)>) -> (r: PersonalData)
        ensures
            r.wf(),
            r@ == map_of(entries_view(days@)),
    {
        let mut r = PersonalData::new();
        let ghost all = entries_view(days@);
        let ghost n = days@.len() as int;
        let mut rest = days;
        proof {
            assert(entries_view(rest@) =~= all.subrange(0, n));
        }
        while rest.len() > 0
            invariant
                r.wf(),
                rest@.len() <= n,
                n == all.len(),
                entries_view(rest@) == all.subrange(n - rest@.len(), n),
                r@ == map_of(all.subrange(0, n - rest@.len())),
            decreases rest@.len(),
        {
            let ghost done = n - rest@.len();
            let ghost before = rest@;
            let (key, day) = rest.remove(0);
            proof {
                assert(entries_view(before)[0] == all[done]);
                assert(entries_view(rest@) =~= entries_view(before).subrange(1, before.len() as int));
                assert(entries_view(rest@) =~= all.subrange(n - rest@.len(), n));
                assert(all.subrange(0, done + 1) =~= all.subrange(0, done).push(all[done]));
                lemma_map_of_push(all.subrange(0, done), all[done]);
            }
            r.insert_day(key, day);
        }
        assert(all.subrange(0, n) =~= all);
        r
    }

    /// The number of days held.
    pub fn len(&self) -> (r: usize)
        requires
            self.wf(),
        ensures
            r == self@.len(),
    {
        proof {
            lemma_map_of_len(entries_view(self.fitness@));
        }
        self.fitness.len()
    }

    /// The day held under date key `key`, if any.
    pub fn get(&self, key: &str) -> (r: Option<&DailyRecord>)
        requires
            self.wf(),
        ensures
            match r {
                Some(d) => self@.contains_key(key@) && d@ == self@[key@],
                None => !self@.contains_key(key@),
            },
    {
        let k = key.to_owned();
        let ghost s = entries_view(self.fitness@);
        match self.find(&k) {
            Some(i) => {
                proof {
                    assert(s[i as int].0 == key@);
                    lemma_map_of_index(s, i as int);
                }
                Some(&self.fitness[i].1)
            },
            None => {
                proof {
                    lemma_map_of_contains(s, key@);
                    if map_of(s).contains_key(key@) {
                        let j = choose|j: int| 0 <= j < s.len() && #[trigger] s[j].0 == key@;
                        assert(self.fitness@[j].0@ == key@);
                    }
                }
                None
            },
        }
    }

    /// A document with no days.
    pub fn new() -> (r: PersonalData)
        ensures
            r.wf(),
            r@ == Map::<Seq<char>, DayView>::empty(),
    {
        let r = PersonalData { fitness: Vec::new() };
        proof {
            assert(entries_view(r.fitness@) =~= Seq::empty());
        }
        r
    }

    /// Where the day with date key `key` is held, if any.
    fn find(&self, key: &String) -> (r: Option<usize>)
        ensures
            match r {
                Some(i) => i < self.fitness@.len() && self.fitness@[i as int].0@ == key@,
                None => forall|i: int|
                    0 <= i < self.fitness@.len() ==> #[trigger] self.fitness@[i].0@ != key@,
            },
    {
        let mut i: usize = 0;
        while i < self.fitness.len()
            invariant
                i <= self.fitness@.len(),
                forall|j: int| 0 <= j < i ==> #[trigger] self.fitness@[j].0@ != key@,
            decreases self.fitness@.len() - i,
        {
            if self.fitness[i].0 == *key {
                return Some(i);
            }
            i = i + 1;
        }
        None
    }

    /// Puts `day` under `key`, replacing a day already held there.
    pub fn insert_day(&mut self, key: String, day: DailyRecord)
        requires
            old(self).wf(),
        ensures
            final(self).wf(),
            final(self)@ == old(self)@.insert(key@, day@),
    {
        let ghost s = entries_view(self.fitness@);
        let ghost kv = key@;
        let ghost dv = day@;
        match self.find(&key) {
            Some(i) => {
                self.fitness.set(i, (key, day));
                proof {
                    assert(entries_view(self.fitness@) =~= s.update(i as int, (s[i as int].0, dv)));
                    lemma_map_of_update(s, i as int, dv);
                }
            },
            None => {
                self.fitness.push((key, day));
                proof {
                    assert(entries_view(self.fitness@) =~= s.push((kv, dv)));
                    lemma_map_of_push(s, (kv, dv));
                    assert forall|i: int| 0 <= i < s.len() implies s[i].0 != kv by {
                        assert(s[i].0 == old(self).fitness@[i].0@);
                    }
                }
            },
        }
    }

    /// Writes `record` as the record of `kind` on date key `key`: the day is
    /// created if absent, the record of `kind` is replaced whole, and the
    /// other records of that day and all other days are kept.
    pub fn upsert(&mut self, key: String, kind: ExerciseKind, record: ExerciseRecord)
        requires
            old(self).wf(),
        ensures
            final(self).wf(),
            final(self)@ == upsert_spec(old(self)@, key@, kind, record@),
    {
        let ghost s = entries_view(self.fitness@);
        let ghost kv = key@;
        let found = self.find(&key);
        let day = match found {
            Some(i) => {
                proof {
                    assert(s[i as int].0 == kv);
                    lemma_map_of_index(s, i as int);
                }
                self.fitness[i].1.duplicate()
            },
            None => {
                proof {
                    lemma_map_of_contains(s, kv);
                    if map_of(s).contains_key(kv) {
                        let j = choose|j: int| 0 <= j < s.len() && #[trigger] s[j].0 == kv;
                        assert(self.fitness@[j].0@ == kv);
                    }
                }
                DailyRecord::empty()
            },
        };
        let mut day = day;
        match kind {
            ExerciseKind::Pushups => day.pushups = Some(record),
            ExerciseKind::Situps => day.situps = Some(record),
            ExerciseKind::Pullups => day.pullups = Some(record),
        }
        self.insert_day(key, day);
    }
}

/// The outcome of recording `count` of `kind` for the date argument `date`,
/// with `today` as the current date and `ts` as the timestamp: `r` is the date
/// key or the rejection of the argument, and the document goes from `before`
/// to `after`, unchanged on rejection. A key from a keyword is in normal
/// form whenever its year has four digits.
pub open spec fn recorded(
    before: Map<Seq<char>, DayView>,
    kind: ExerciseKind,
    count: u32,
    date: Seq<char>,
    today: (i32, u32, u32),
    ts: Seq<char>,
    r: Result<String, AppError>,
    after: Map<Seq<char>, DayView>,
) -> bool {
    &&& normalized(date, today, r)
    &&& date_rules(date, r)
    &&& keyword_rules(date, today, r)
    &&& match r {
        Ok(k) => after == upsert_spec(before, k@, kind, (count, ts)),
        Err(_) => after == before,
    }
}

/// A recording on the store `before` that ended in `after` with result `r`:
/// it is the outcome of some current date and some timestamp, and the date
/// argument obeys the rules of `date_rules`.
pub open spec fn records(
    before: Tracker,
    after: Tracker,
    kind: ExerciseKind,
    count: u32,
    date: Seq<char>,
    r: Result<String, AppError>,
) -> bool {
    &&& after.wf()
    &&& after.config_spec() == before.config_spec()
    &&& exists|today: (i32, u32, u32), ts: Seq<char>|
        is_calendar_date(today) && #[trigger] recorded(
            before.data_view(),
            kind,
            count,
            date,
            today,
            ts,
            r,
            after.data_view(),
        )
    &&& date_rules(date, r)
}

/// A date argument that is neither keyword nor `YYYY-MM-DD` text naming a
/// calendar date is rejected with `InvalidDate`, and the store is left as it
/// was.
pub proof fn lemma_rejected_date_changes_nothing(
    before: Tracker,
    after: Tracker,
    kind: ExerciseKind,
    count: u32,
    date: Seq<char>,
    r: Result<String, AppError>,
)
    requires
        records(before, after, kind, count, date, r),
        lower_of(date) != "today"@,
        lower_of(date) != "yesterday"@,
        !is_date_text(date),
    ensures
        r is Err,
        r->Err_0 is InvalidDate,
        after.data_view() == before.data_view(),
{
    let (today, ts) = choose|today: (i32, u32, u32), ts: Seq<char>|
        is_calendar_date(today) && #[trigger] recorded(
            before.data_view(),
            kind,
            count,
            date,
            today,
            ts,
            r,
            after.data_view(),
        );
}

/// With one reading of the clock, recording push-ups and then sit-ups for
/// "today" on an empty document leaves one day, holding both counts and no
/// pull-ups.
pub proof fn lemma_today_shortcut(
    today: (i32, u32, u32),
    pushups: u32,
    situps: u32,
    ts1: Seq<char>,
    ts2: Seq<char>,
    r1: Result<String, AppError>,
    r2: Result<String, AppError>,
    middle: Map<Seq<char>, DayView>,
    end: Map<Seq<char>, DayView>,
)
    requires
        is_calendar_date(today),
        recorded(Map::empty(), ExerciseKind::Pushups, pushups, "today"@, today, ts1, r1, middle),
        recorded(middle, ExerciseKind::Situps, situps, "today"@, today, ts2, r2, end),
    ensures
        r1 is Ok,
        r2 is Ok,
        r1->Ok_0@ == r2->Ok_0@,
        end.dom() == Set::<Seq<char>>::empty().insert(r1->Ok_0@),
        end[r1->Ok_0@] == (Some((pushups, ts1)), Some((situps, ts2)), None::<RecordView>),
{
    reveal_strlit("today");
    assert(is_lower_ascii("today"@));
    assert(lower_of("today"@) == "today"@);
    assert(end.dom() =~= Set::<Seq<char>>::empty().insert(r1->Ok_0@));
}

/// The record store: the document together with where it is kept.
pub struct Tracker {
    config: AppConfig,
    data: PersonalData,
}

impl Tracker {
    pub closed spec fn wf(&self) -> bool {
        self.data.wf()
    }

    /// The document held, as a mapping from date key to day.
    pub closed spec fn data_view(&self) -> Map<Seq<char>, DayView> {
        self.data@
    }

    pub closed spec fn config_spec(&self) -> AppConfig {
        self.config
    }

    /// A store over the document read from the data file, or over an empty
    /// document where there was none to read or it could not be parsed.
    pub fn new(config: AppConfig, stored: Option<PersonalData>) -> (r: Tracker)
        requires
            stored matches Some(d) ==> d.wf(),
        ensures
            r.wf(),
            r.config_spec() == config,
            r.data_view() == match stored {
                Some(d) => d@,
                None => Map::<Seq<char>, DayView>::empty(),
            },
    {
        let data = match stored {
            Some(d) => d,
            None => PersonalData::new(),
        };
        Tracker { config, data }
    }

    pub fn config(&self) -> (r: &AppConfig)
        ensures
            *r == self.config_spec(),
    {
        &self.config
    }

    pub fn data(&self) -> (r: &PersonalData)
        requires
            self.wf(),
        ensures
            r.wf(),
            r@ == self.data_view(),
    {
        &self.data
    }

    /// Turns a date argument into a date key, reading the local clock for
    /// "today" and "yesterday".
    pub fn parse_date(&self, date: &str) -> (r: Result<String, AppError>)
        ensures
            exists|today: (i32, u32, u32)|
                is_calendar_date(today) && #[trigger] normalized(date@, today, r) && keyword_rules(
                    date@,
                    today,
                    r,
                ),
            date_rules(date@, r),
    {
        let today = local_today();
        let r = normalize_date(date, today);
        assert(is_calendar_date(today) && normalized(date@, today, r) && keyword_rules(date@, today, r));
        r
    }

    /// Records `count` of `kind` for the date argument `date`, with `today`
    /// as the current date and `timestamp` as the time of writing. Returns the
    /// date key written.
    pub fn record_with(
        &mut self,
        kind: ExerciseKind,
        count: u32,
        date: &str,
        today: (i32, u32, u32),
        timestamp: String,
    ) -> (r: Result<String, AppError>)
        requires
            old(self).wf(),
            is_calendar_date(today),
        ensures
            final(self).wf(),
            final(self).config_spec() == old(self).config_spec(),
            recorded(old(self).data_view(), kind, count, date@, today, timestamp@, r, final(self).data_view()),
    {
        let key = normalize_date(date, today)?;
        self.data.upsert(key.clone(), kind, ExerciseRecord { count, timestamp });
        Ok(key)
    }

    /// Records `count` of `kind` for the date argument `date`, stamped with the
    /// local time. Returns the date key written; on a rejected date nothing
    /// changes.
    pub fn record(&mut self, kind: ExerciseKind, count: u32, date: &str) -> (r: Result<String, AppError>)
        requires
            old(self).wf(),
        ensures
            records(*old(self), *final(self), kind, count, date@, r),
    {
        let key = self.parse_date(date);
        let ghost today = choose|today: (i32, u32, u32)|
            is_calendar_date(today) && #[trigger] normalized(date@, today, key) && keyword_rules(
                date@,
                today,
                key,
            );
        match key {
            Ok(key) => {
                let timestamp = local_timestamp();
                let ghost ts = timestamp@;
                self.data.upsert(key.clone(), kind, ExerciseRecord { count, timestamp });
                let r = Ok(key);
                assert(recorded(old(self).data_view(), kind, count, date@, today, ts, r, self.data_view()));
                r
            },
            Err(e) => {
                let r = Err(e);
                assert(recorded(old(self).data_view(), kind, count, date@, today, Seq::empty(), r, self.data_view()));
                r
            },
        }
    }

    /// Records a push-up count; see `record`.
    pub fn record_pushups(&mut self, count: u32, date: &str) -> (r: Result<String, AppError>)
        requires
            old(self).wf(),
        ensures
            records(*old(self), *final(self), ExerciseKind::Pushups, count, date@, r),
    {
        self.record(ExerciseKind::Pushups, count, date)
    }

    /// Records a sit-up count; see `record`.
    pub fn record_situps(&mut self, count: u32, date: &str) -> (r: Result<String, AppError>)
        requires
            old(self).wf(),
        ensures
            records(*old(self), *final(self), ExerciseKind::Situps, count, date@, r),
    {
        self.record(ExerciseKind::Situps, count, date)
    }

    /// Records a pull-up count; see `record`.
    pub fn record_pullups(&mut self, count: u32, date: &str) -> (r: Result<String, AppError>)
        requires
            old(self).wf(),
        ensures
            records(*old(self), *final(self), ExerciseKind::Pullups, count, date@, r),
    {
        self.record(ExerciseKind::Pullups, count, date)
    }
}

} // verus!
