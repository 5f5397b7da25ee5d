//! The media context: the single value carried from extraction through rule
//! evaluation and template expansion.
//!
//! Coordinates are held as fixed-point integers scaled by ten million (the
//! "E7" form of the location-history source); altitude by one thousand.
//! Instants are signed UTC epoch milliseconds. Tagged metadata values model
//! the heterogeneous tag map: integers, rationals (for the rational tags the
//! tag pass reduces), text and booleans.

use crate::text::str_eq;
use vstd::prelude::*;

verus! {

/// A tagged dynamic metadata value. Rationals carry (numerator, denominator)
/// exactly as the tag pass produced them.
#[derive(Clone, Debug, PartialEq)]
pub enum MetaValue {
    Int(i64),
    Rat(i64, u64),
    Text(String),
    Truth(bool),
}

/// Mathematical counterpart of `MetaValue`, used in contracts.
pub enum MetaValV {
    Int(int),
    Rat(int, int),
    Text(Seq<char>),
    Truth(bool),
}

impl View for MetaValue {
    type V = MetaValV;

    open spec fn view(&self) -> MetaValV {
        match self {
            MetaValue::Int(i) => MetaValV::Int(*i as int),
            MetaValue::Rat(n, d) => MetaValV::Rat(*n as int, *d as int),
            MetaValue::Text(s) => MetaValV::Text(s@),
            MetaValue::Truth(b) => MetaValV::Truth(*b),
        }
    }
}

impl MetaValue {
    /// A structural copy whose view equals this value's view.
    pub fn duplicate(&self) -> (r: MetaValue)
        ensures
            r@ == self@,
    {
        match self {
            MetaValue::Int(i) => MetaValue::Int(*i),
            MetaValue::Rat(n, d) => MetaValue::Rat(*n, *d),
            MetaValue::Text(s) => MetaValue::Text(s.clone()),
            MetaValue::Truth(b) => MetaValue::Truth(*b),
        }
    }
}

/// First value stored under `key`, if any.
pub open spec fn meta_lookup(m: Seq<(Seq<char>, MetaValV)>, key: Seq<char>) -> Option<MetaValV>
    decreases m.len(),
{
    if m.len() == 0 {
        Option::None
    } else if m[0].0 == key {
        Option::Some(m[0].1)
    } else {
        meta_lookup(m.subrange(1, m.len() as int), key)
    }
}

/// Index of the first entry stored under `key`, or -1.
pub open spec fn meta_first_index(m: Seq<(Seq<char>, MetaValV)>, key: Seq<char>) -> int
    decreases m.len(),
{
    if m.len() == 0 {
        -1
    } else if m[0].0 == key {
        0
    } else {
        let r = meta_first_index(m.subrange(1, m.len() as int), key);
        if r < 0 {
            -1
        } else {
            r + 1
        }
    }
}

/// How an insert rewrites the entry sequence: the first entry under the key
/// is replaced in place, otherwise the pair is appended.
pub open spec fn spec_meta_insert(
    m: Seq<(Seq<char>, MetaValV)>,
    key: Seq<char>,
    v: MetaValV,
) -> Seq<(Seq<char>, MetaValV)> {
    let i = meta_first_index(m, key);
    if i >= 0 {
        m.update(i, (key, v))
    } else {
        m.push((key, v))
    }
}

pub proof fn lemma_meta_first_index_range(m: Seq<(Seq<char>, MetaValV)>, key: Seq<char>)
    ensures
        meta_first_index(m, key) < m.len(),
        meta_first_index(m, key) >= 0 ==> m[meta_first_index(m, key)].0 == key && meta_lookup(
            m,
            key,
        ) == Option::Some(m[meta_first_index(m, key)].1),
        meta_first_index(m, key) < 0 ==> meta_lookup(m, key) is None,
    decreases m.len(),
{
    if m.len() > 0 && m[0].0 != key {
        lemma_meta_first_index_range(m.subrange(1, m.len() as int), key);
    }
}

/// Looking a key up after an insert sees the new value; other keys are
/// untouched.
pub proof fn lemma_meta_lookup_insert(
    m: Seq<(Seq<char>, MetaValV)>,
    key: Seq<char>,
    v: MetaValV,
    k2: Seq<char>,
)
    ensures
        meta_lookup(spec_meta_insert(m, key, v), k2) == if k2 == key {
            Option::Some(v)
        } else {
            meta_lookup(m, k2)
        },
    decreases m.len(),
{
    lemma_meta_first_index_range(m, key);
    let out = spec_meta_insert(m, key, v);
    if m.len() == 0 {
        assert(out =~= seq![(key, v)]);
        assert(out[0] == (key, v));
        assert(out.subrange(1, out.len() as int) =~= Seq::<(Seq<char>, MetaValV)>::empty());
        assert(meta_lookup(out, k2) == if k2 == key {
            Option::Some(v)
        } else {
            meta_lookup(out.subrange(1, out.len() as int), k2)
        });
    } else if m[0].0 == key {
        assert(out == m.update(0, (key, v)));
        assert(out[0] == (key, v));
        assert(out.subrange(1, out.len() as int) =~= m.subrange(1, m.len() as int));
        assert(meta_lookup(out, k2) == if k2 == key {
            Option::Some(v)
        } else {
            meta_lookup(m.subrange(1, m.len() as int), k2)
        });
        assert(meta_lookup(m, k2) == if k2 == key {
            Option::Some(m[0].1)
        } else {
            meta_lookup(m.subrange(1, m.len() as int), k2)
        });
    } else {
        let rest = m.subrange(1, m.len() as int);
        let ri = meta_first_index(rest, key);
        let i = meta_first_index(m, key);
        assert(i == if ri < 0 {
            -1int
        } else {
            ri + 1
        });
        lemma_meta_lookup_insert(rest, key, v, k2);
        lemma_meta_first_index_range(rest, key);
        if i >= 0 {
            assert(out == m.update(i, (key, v)));
            assert(out[0] == m[0]);
            assert(out.subrange(1, out.len() as int) =~= rest.update(ri, (key, v)));
            assert(out.subrange(1, out.len() as int) =~= spec_meta_insert(rest, key, v));
        } else {
            assert(out == m.push((key, v)));
            assert(out[0] == m[0]);
            assert(out.subrange(1, out.len() as int) =~= rest.push((key, v)));
            assert(out.subrange(1, out.len() as int) =~= spec_meta_insert(rest, key, v));
        }
        assert(meta_lookup(out, k2) == if k2 == m[0].0 {
            Option::Some(m[0].1)
        } else {
            meta_lookup(spec_meta_insert(rest, key, v), k2)
        });
    }
}

/// The tag map: unique keys, insertion order kept, first match wins on
/// lookup.
#[derive(Clone, Debug, PartialEq)]
pub struct MetaMap {
    entries: Vec<(String, MetaValue)>,
}

impl View for MetaMap {
    type V = Seq<(Seq<char>, MetaValV)>;

    closed spec fn view(&self) -> Seq<(Seq<char>, MetaValV)> {
        self.entries@.map(|i: int, p: (String, MetaValue)| (p.0@, p.1@))
    }
}

impl MetaMap {
    pub fn new() -> (r: MetaMap)
        ensures
            r@ == Seq::<(Seq<char>, MetaValV)>::empty(),
    {
        let r = MetaMap { entries: Vec::new() };
        proof {
            assert(r@ =~= Seq::<(Seq<char>, MetaValV)>::empty());
        }
        r
    }

    pub fn len(&self) -> (r: usize)
        ensures
            r == self@.len(),
    {
        self.entries.len()
    }

    pub fn is_empty(&self) -> (r: bool)
        ensures
            r == (self@.len() == 0),
    {
        self.entries.len() == 0
    }

    /// The key and value views at one position.
    pub fn entry_at(&self, i: usize) -> (r: (String, MetaValue))
        requires
            i < self@.len(),
        ensures
            (r.0@, r.1@) == self@[i as int],
    {
        let p = &self.entries[i];
        (p.0.clone(), p.1.duplicate())
    }

    pub fn contains_key(&self, key: &str) -> (r: bool)
        ensures
            r == (meta_lookup(self@, key@) is Some),
    {
        let mut i: usize = 0;
        let n = self.entries.len();
        proof {
            assert(self@.subrange(0, self@.len() as int) =~= self@);
        }
        while i < n
            invariant
                i <= n,
                n == self@.len(),
                meta_lookup(self@, key@) == meta_lookup(
                    self@.subrange(i as int, self@.len() as int),
                    key@,
                ),
                forall|j: int| 0 <= j < i ==> self@[j].0 != key@,
            decreases n - i,
        {
            proof {
                assert(self@.subrange(i as int, self@.len() as int)[0] == self@[i as int]);
            }
            if str_eq(self.entries[i].0.as_str(), key) {
                return true;
            }
            proof {
                assert(self@.subrange(i as int, self@.len() as int).subrange(
                    1,
                    self@.len() - i as int,
                ) =~= self@.subrange(i + 1 as int, self@.len() as int));
            }
            i += 1;
        }
        proof {
            assert(self@.subrange(self@.len() as int, self@.len() as int) =~= Seq::<
                (Seq<char>, MetaValV),
            >::empty());
        }
        false
    }

    /// First value stored under `key`, copied out.
    pub fn get(&self, key: &str) -> (r: Option<MetaValue>)
        ensures
            match r {
                Option::Some(v) => meta_lookup(self@, key@) == Option::Some(v@),
                Option::None => meta_lookup(self@, key@) is None,
            },
    {
        let mut i: usize = 0;
        let n = self.entries.len();
        proof {
            assert(self@.subrange(0, self@.len() as int) =~= self@);
        }
        while i < n
            invariant
                i <= n,
                n == self@.len(),
                meta_lookup(self@, key@) == meta_lookup(
                    self@.subrange(i as int, self@.len() as int),
                    key@,
                ),
            decreases n - i,
        {
            proof {
                assert(self@.subrange(i as int, self@.len() as int)[0] == self@[i as int]);
            }
            if str_eq(self.entries[i].0.as_str(), key) {
                return Option::Some(self.entries[i].1.duplicate());
            }
            proof {
                assert(self@.subrange(i as int, self@.len() as int).subrange(
                    1,
                    self@.len() - i as int,
                ) =~= self@.subrange(i + 1 as int, self@.len() as int));
            }
            i += 1;
        }
        proof {
            assert(self@.subrange(self@.len() as int, self@.len() as int) =~= Seq::<
                (Seq<char>, MetaValV),
            >::empty());
        }
        Option::None
    }

    /// Stores `v` under `key`, replacing the first entry with that key if one
    /// exists, else appending.
    pub fn insert(&mut self, key: String, v: MetaValue)
        ensures
            final(self)@ == spec_meta_insert(old(self)@, key@, v@),
    {
        let ghost m = self@;
        let mut i: usize = 0;
        let n = self.entries.len();
        while i < n
            invariant
                i <= n,
                n == self@.len(),
                self@ == m,
                m == old(self)@,
                forall|j: int| 0 <= j < i ==> self@[j].0 != key@,
            decreases n - i,
        {
            if str_eq(self.entries[i].0.as_str(), key.as_str()) {
                proof {
                    assert(m[i as int].0 == self.entries@[i as int].0@);
                    lemma_meta_first_index_head(m, key@, i as int);
                    assert(meta_first_index(m, key@) == i as int);
                }
                self.entries.set(i, (key, v));
                proof {
                    assert(self@ =~= m.update(i as int, (key@, v@)));
                    assert(spec_meta_insert(m, key@, v@) == m.update(i as int, (key@, v@)));
                }
                return ;
            }
            i += 1;
        }
        proof {
            lemma_meta_first_index_none(m, key@);
        }
        self.entries.push((key, v));
        proof {
            assert(self@ =~= m.push((key@, v@)));
        }
    }
}

/// If positions before `i` miss the key and position `i` hits it, `i` is the
/// first index.
proof fn lemma_meta_first_index_head(m: Seq<(Seq<char>, MetaValV)>, key: Seq<char>, i: int)
    requires
        0 <= i < m.len(),
        m[i].0 == key,
        forall|j: int| 0 <= j < i ==> m[j].0 != key,
    ensures
        meta_first_index(m, key) == i,
    decreases i,
{
    if i > 0 {
        lemma_meta_first_index_head(m.subrange(1, m.len() as int), key, i - 1);
    }
}

/// If no position holds the key, the first index is -1.
proof fn lemma_meta_first_index_none(m: Seq<(Seq<char>, MetaValV)>, key: Seq<char>)
    requires
        forall|j: int| 0 <= j < m.len() ==> m[j].0 != key,
    ensures
        meta_first_index(m, key) == -1,
    decreases m.len(),
{
    if m.len() > 0 {
        lemma_meta_first_index_none(m.subrange(1, m.len() as int), key);
    }
}

impl Default for MetaMap {
    fn default() -> (r: MetaMap)
        ensures
            r@ == Seq::<(Seq<char>, MetaValV)>::empty(),
    {
        MetaMap::new()
    }
}

/// Calendar decomposition of the file's primary timestamp, plus the instant
/// itself (UTC epoch milliseconds) when one was found.
#[derive(Clone, Debug, PartialEq)]
pub struct TimeContext {
    pub yyyy: String,
    pub mm: String,
    pub dd: String,
    pub hh: String,
    pub minute: String,
    pub ss: String,
    pub month_name: String,
    pub weekday: String,
    pub timestamp: Option<i64>,
}

pub struct TimeContextV {
    pub yyyy: Seq<char>,
    pub mm: Seq<char>,
    pub dd: Seq<char>,
    pub hh: Seq<char>,
    pub minute: Seq<char>,
    pub ss: Seq<char>,
    pub month_name: Seq<char>,
    pub weekday: Seq<char>,
    pub timestamp: Option<int>,
}

impl View for TimeContext {
    type V = TimeContextV;

    open spec fn view(&self) -> TimeContextV {
        TimeContextV {
            yyyy: self.yyyy@,
            mm: self.mm@,
            dd: self.dd@,
            hh: self.hh@,
            minute: self.minute@,
            ss: self.ss@,
            month_name: self.month_name@,
            weekday: self.weekday@,
            timestamp: match self.timestamp {
                Option::Some(t) => Option::Some(t as int),
                Option::None => Option::None,
            },
        }
    }
}

pub open spec fn time_context_v_default() -> TimeContextV {
    TimeContextV {
        yyyy: Seq::<char>::empty(),
        mm: Seq::<char>::empty(),
        dd: Seq::<char>::empty(),
        hh: Seq::<char>::empty(),
        minute: Seq::<char>::empty(),
        ss: Seq::<char>::empty(),
        month_name: Seq::<char>::empty(),
        weekday: Seq::<char>::empty(),
        timestamp: Option::None,
    }
}

impl TimeContext {
    pub fn empty() -> (r: TimeContext)
        ensures
            r@ == time_context_v_default(),
    {
        let r = TimeContext {
            yyyy: String::new(),
            mm: String::new(),
            dd: String::new(),
            hh: String::new(),
            minute: String::new(),
            ss: String::new(),
            month_name: String::new(),
            weekday: String::new(),
            timestamp: Option::None,
        };
        proof {
            assert(r@ == time_context_v_default());
        }
        r
    }
}

impl Default for TimeContext {
    fn default() -> (r: TimeContext)
        ensures
            r@ == time_context_v_default(),
    {
        TimeContext::empty()
    }
}

/// Geographic coordinates (E7 fixed point) and administrative names.
#[derive(Clone, Debug, PartialEq)]
pub struct SpaceContext {
    pub country: String,
    pub country_code: String,
    pub state: String,
    pub city: String,
    pub district: String,
    pub road: String,
    pub lat_e7: i64,
    pub lon_e7: i64,
    pub altitude_e3: Option<i64>,
}

pub struct SpaceContextV {
    pub country: Seq<char>,
    pub country_code: Seq<char>,
    pub state: Seq<char>,
    pub city: Seq<char>,
    pub district: Seq<char>,
    pub road: Seq<char>,
    pub lat_e7: int,
    pub lon_e7: int,
    pub altitude_e3: Option<int>,
}

impl View for SpaceContext {
    type V = SpaceContextV;

    open spec fn view(&self) -> SpaceContextV {
        SpaceContextV {
            country: self.country@,
            country_code: self.country_code@,
            state: self.state@,
            city: self.city@,
            district: self.district@,
            road: self.road@,
            lat_e7: self.lat_e7 as int,
            lon_e7: self.lon_e7 as int,
            altitude_e3: match self.altitude_e3 {
                Option::Some(a) => Option::Some(a as int),
                Option::None => Option::None,
            },
        }
    }
}

pub open spec fn space_context_v_default() -> SpaceContextV {
    SpaceContextV {
        country: Seq::<char>::empty(),
        country_code: Seq::<char>::empty(),
        state: Seq::<char>::empty(),
        city: Seq::<char>::empty(),
        district: Seq::<char>::empty(),
        road: Seq::<char>::empty(),
        lat_e7: 0,
        lon_e7: 0,
        altitude_e3: Option::None,
    }
}

impl SpaceContext {
    pub fn empty() -> (r: SpaceContext)
        ensures
            r@ == space_context_v_default(),
    {
        SpaceContext {
            country: String::new(),
            country_code: String::new(),
            state: String::new(),
            city: String::new(),
            district: String::new(),
            road: String::new(),
            lat_e7: 0,
            lon_e7: 0,
            altitude_e3: Option::None,
        }
    }
}

impl Default for SpaceContext {
    fn default() -> (r: SpaceContext)
        ensures
            r@ == space_context_v_default(),
    {
        SpaceContext::empty()
    }
}

/// Where the file came from: directory, stem, extension, basename, size.
#[derive(Clone, Debug, PartialEq)]
pub struct SourceContext {
    pub path: String,
    pub name: String,
    pub extension: String,
    pub original: String,
    pub size: u64,
}

pub struct SourceContextV {
    pub path: Seq<char>,
    pub name: Seq<char>,
    pub extension: Seq<char>,
    pub original: Seq<char>,
    pub size: int,
}

impl View for SourceContext {
    type V = SourceContextV;

    open spec fn view(&self) -> SourceContextV {
        SourceContextV {
            path: self.path@,
            name: self.name@,
            extension: self.extension@,
            original: self.original@,
            size: self.size as int,
        }
    }
}

pub open spec fn source_context_v_default() -> SourceContextV {
    SourceContextV {
        path: Seq::<char>::empty(),
        name: Seq::<char>::empty(),
        extension: Seq::<char>::empty(),
        original: Seq::<char>::empty(),
        size: 0,
    }
}

impl SourceContext {
    pub fn empty() -> (r: SourceContext)
        ensures
            r@ == source_context_v_default(),
    {
        SourceContext {
            path: String::new(),
            name: String::new(),
            extension: String::new(),
            original: String::new(),
            size: 0,
        }
    }
}

impl Default for SourceContext {
    fn default() -> (r: SourceContext)
        ensures
            r@ == source_context_v_default(),
    {
        SourceContext::empty()
    }
}

/// Digest-derived fields some templates reference.
#[derive(Clone, Debug, PartialEq)]
pub struct SpecialContext {
    pub md5: String,
    pub md5_short: String,
    pub count: u32,
}

pub struct SpecialContextV {
    pub md5: Seq<char>,
    pub md5_short: Seq<char>,
    pub count: int,
}

impl View for SpecialContext {
    type V = SpecialContextV;

    open spec fn view(&self) -> SpecialContextV {
        SpecialContextV { md5: self.md5@, md5_short: self.md5_short@, count: self.count as int }
    }
}

pub open spec fn special_context_v_default() -> SpecialContextV {
    SpecialContextV { md5: Seq::<char>::empty(), md5_short: Seq::<char>::empty(), count: 0 }
}

impl SpecialContext {
    pub fn empty() -> (r: SpecialContext)
        ensures
            r@ == special_context_v_default(),
    {
        SpecialContext { md5: String::new(), md5_short: String::new(), count: 0 }
    }
}

impl Default for SpecialContext {
    fn default() -> (r: SpecialContext)
        ensures
            r@ == special_context_v_default(),
    {
        SpecialContext::empty()
    }
}

/// The uniform typed container passed through the whole pipeline.
#[derive(Clone, Debug, PartialEq)]
pub struct MediaContext {
    pub time: TimeContext,
    pub space: SpaceContext,
    pub source: SourceContext,
    pub special: SpecialContext,
    pub media_type: String,
    pub meta: MetaMap,
}

pub struct MediaContextV {
    pub time: TimeContextV,
    pub space: SpaceContextV,
    pub source: SourceContextV,
    pub special: SpecialContextV,
    pub media_type: Seq<char>,
    pub meta: Seq<(Seq<char>, MetaValV)>,
}

impl View for MediaContext {
    type V = MediaContextV;

    open spec fn view(&self) -> MediaContextV {
        MediaContextV {
            time: self.time@,
            space: self.space@,
            source: self.source@,
            special: self.special@,
            media_type: self.media_type@,
            meta: self.meta@,
        }
    }
}

pub open spec fn media_context_v_default() -> MediaContextV {
    MediaContextV {
        time: time_context_v_default(),
        space: space_context_v_default(),
        source: source_context_v_default(),
        special: special_context_v_default(),
        media_type: Seq::<char>::empty(),
        meta: Seq::<(Seq<char>, MetaValV)>::empty(),
    }
}

impl MediaContext {
    pub fn empty() -> (r: MediaContext)
        ensures
            r@ == media_context_v_default(),
    {
        let r = MediaContext {
            time: TimeContext::empty(),
            space: SpaceContext::empty(),
            source: SourceContext::empty(),
            special: SpecialContext::empty(),
            media_type: String::new(),
            meta: MetaMap::new(),
        };
        proof {
            assert(r@.meta =~= media_context_v_default().meta);
        }
        r
    }
}

impl Default for MediaContext {
    fn default() -> (r: MediaContext)
        ensures
            r@ == media_context_v_default(),
    {
        MediaContext::empty()
    }
}

} // verus!
