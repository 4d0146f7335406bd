//! The price registry itself: one record per trading pair, written atomically
//! by an authorized provider and read back by pair name.

use vstd::prelude::*;

verus! {

/// The single failure a write can signal: the claimed provider did not pass
/// the host's authorization check. A rejected write changes nothing.
#[derive(Clone, Copy, PartialEq, Eq, Structural, Debug)]
pub enum OracleError {
    Unauthorized,
}

/// One published record: the price, the host-clock reading at the time of
/// the write, and the provider that published it. The three fields are only
/// ever written together.
pub struct PriceRecord {
    pub price: i64,
    pub timestamp: u64,
    pub provider: String,
}

/// The mathematical content of one record.
pub ghost struct RecordModel {
    pub price: i64,
    pub timestamp: u64,
    pub provider: Seq<char>,
}

impl View for PriceRecord {
    type V = RecordModel;

    open spec fn view(&self) -> RecordModel {
        RecordModel {
            price: self.price,
            timestamp: self.timestamp,
            provider: self.provider@,
        }
    }
}

/// What a successful write leaves behind: the written pair now maps to the
/// written record, and every other pair keeps its record.
pub open spec fn spec_set(
    m: Map<Seq<char>, RecordModel>,
    pair: Seq<char>,
    price: i64,
    timestamp: u64,
    provider: Seq<char>,
) -> Map<Seq<char>, RecordModel> {
    m.insert(pair, RecordModel { price, timestamp, provider })
}

/// The price on record for `pair`, or absence when the pair was never
/// written.
pub open spec fn spec_price(m: Map<Seq<char>, RecordModel>, pair: Seq<char>) -> Option<i64> {
    if m.dom().contains(pair) {
        Some(m[pair].price)
    } else {
        None
    }
}

/// The publication time on record for `pair`, or absence.
pub open spec fn spec_timestamp(m: Map<Seq<char>, RecordModel>, pair: Seq<char>) -> Option<u64> {
    if m.dom().contains(pair) {
        Some(m[pair].timestamp)
    } else {
        None
    }
}

/// The provider on record for `pair`, or absence.
pub open spec fn spec_provider(
    m: Map<Seq<char>, RecordModel>,
    pair: Seq<char>,
) -> Option<Seq<char>> {
    if m.dom().contains(pair) {
        Some(m[pair].provider)
    } else {
        None
    }
}

/// The age of a record written at `timestamp` when the clock reads `now`.
/// The age is clamped to zero when the clock reads earlier than the record
/// (a regressed clock, or a future-dated write): the registry treats such a
/// record as just written rather than letting the subtraction wrap around.
pub open spec fn spec_age(timestamp: u64, now: u64) -> int {
    if now >= timestamp {
        now - timestamp
    } else {
        0
    }
}

/// A pair is fresh when it has a record whose clamped age is at most
/// `max_age`; the boundary itself counts as fresh. A pair never written is
/// never fresh.
pub open spec fn spec_fresh(
    m: Map<Seq<char>, RecordModel>,
    pair: Seq<char>,
    now: u64,
    max_age: u64,
) -> bool {
    m.dom().contains(pair) && spec_age(m[pair].timestamp, now) <= max_age
}

struct Entry {
    pair: String,
    record: PriceRecord,
}

/// The registry: one record per trading pair. Its abstract value (`@`) is
/// the map from pair name to record model.
pub struct PriceOracle {
    entries: Vec<Entry>,
}

spec fn entries_map(s: Seq<Entry>) -> Map<Seq<char>, RecordModel>
    decreases s.len(),
{
    if s.len() == 0 {
        Map::empty()
    } else {
        entries_map(s.drop_last()).insert(s.last().pair@, s.last().record@)
    }
}

spec fn pairs_unique(s: Seq<Entry>) -> bool {
    forall|i: int, j: int| 0 <= i < j < s.len() ==> s[i].pair@ != s[j].pair@
}

proof fn lemma_entries_map_dom(s: Seq<Entry>, k: Seq<char>)
    ensures
        entries_map(s).dom().contains(k) <==> exists|i: int|
            0 <= i < s.len() && s[i].pair@ == k,
    decreases s.len(),
{
    if s.len() > 0 {
        lemma_entries_map_dom(s.drop_last(), k);
        if entries_map(s).dom().contains(k) {
            if k == s.last().pair@ {
                assert(s[s.len() - 1].pair@ == k);
            } else {
                let i = choose|i: int| 0 <= i < s.drop_last().len() && s.drop_last()[i].pair@ == k;
                assert(s[i].pair@ == k);
            }
        }
        if exists|i: int| 0 <= i < s.len() && s[i].pair@ == k {
            let i = choose|i: int| 0 <= i < s.len() && s[i].pair@ == k;
            if i < s.len() - 1 {
                assert(s.drop_last()[i].pair@ == k);
            }
        }
    }
}

proof fn lemma_entries_map_at(s: Seq<Entry>, i: int)
    requires
        pairs_unique(s),
        0 <= i < s.len(),
    ensures
        entries_map(s).dom().contains(s[i].pair@),
        entries_map(s)[s[i].pair@] == s[i].record@,
    decreases s.len(),
{
    if i < s.len() - 1 {
        assert(pairs_unique(s.drop_last())) by {
            assert forall|a: int, b: int|
                0 <= a < b < s.drop_last().len() implies s.drop_last()[a].pair@
                != s.drop_last()[b].pair@ by {
                assert(s[a].pair@ != s[b].pair@);
            }
        }
        assert(s.drop_last()[i] == s[i]);
        lemma_entries_map_at(s.drop_last(), i);
        assert(s[i].pair@ != s.last().pair@);
    }
}

proof fn lemma_entries_map_update(s: Seq<Entry>, i: int, e: Entry)
    requires
        pairs_unique(s),
        0 <= i < s.len(),
        e.pair@ == s[i].pair@,
    ensures
        entries_map(s.update(i, e)) == entries_map(s).insert(e.pair@, e.record@),
    decreases s.len(),
{
    let t = s.update(i, e);
    if i == s.len() - 1 {
        assert(t.drop_last() =~= s.drop_last());
        assert(t.last() == e);
        assert(entries_map(t) =~= entries_map(s).insert(e.pair@, e.record@));
    } else {
        assert(pairs_unique(s.drop_last())) by {
            assert forall|a: int, b: int|
                0 <= a < b < s.drop_last().len() implies s.drop_last()[a].pair@
                != s.drop_last()[b].pair@ by {
                assert(s[a].pair@ != s[b].pair@);
            }
        }
        assert(s.drop_last()[i] == s[i]);
        lemma_entries_map_update(s.drop_last(), i, e);
        assert(t.drop_last() =~= s.drop_last().update(i, e));
        assert(t.last() == s.last());
        assert(s[i].pair@ != s.last().pair@);
        assert(entries_map(t) =~= entries_map(s).insert(e.pair@, e.record@));
    }
}

impl View for PriceOracle {
    type V = Map<Seq<char>, RecordModel>;

    closed spec fn view(&self) -> Map<Seq<char>, RecordModel> {
        entries_map(self.entries@)
    }
}

impl PriceOracle {
    /// Internal well-formedness: no pair name occurs twice, so the entry
    /// list and the abstract map agree. Established by `new` and preserved
    /// by every operation.
    pub closed spec fn wf(self) -> bool {
        pairs_unique(self.entries@)
    }

    /// An empty registry: no pair has ever been written.
    pub fn new() -> (r: PriceOracle)
        ensures
            r.wf(),
            r@ == Map::<Seq<char>, RecordModel>::empty(),
    {
        PriceOracle { entries: Vec::new() }
    }

    fn find(&self, pair: &String) -> (r: Option<usize>)
        ensures
            match r {
                Some(i) => i < self.entries@.len() && self.entries@[i as int].pair@ == pair@,
                None => forall|i: int|
                    0 <= i < self.entries@.len() ==> self.entries@[i].pair@ != pair@,
            },
    {
        let mut i: usize = 0;
        while i < self.entries.len()
            invariant
                i <= self.entries@.len(),
                forall|j: int| 0 <= j < i ==> self.entries@[j].pair@ != pair@,
            decreases self.entries@.len() - i,
        {
            if self.entries[i].pair == *pair {
                return Some(i);
            }
            i = i + 1;
        }
        None
    }

    /// Publish `price` for `pair` in the name of `provider`.
    ///
    /// `now` is the host-clock reading for this call and `authorized` is the
    /// outcome of the host's authorization check for `provider`. When the
    /// check failed, the write is rejected as a whole: the registry signals
    /// `Unauthorized` and no state changes. When it passed, the pair's
    /// record — price, timestamp, and provider together — is created or
    /// overwritten in place, and every other pair is untouched.
    pub fn set_price(
        &mut self,
        pair: String,
        price: i64,
        provider: String,
        now: u64,
        authorized: bool,
    ) -> (r: Result<(), OracleError>)
        requires
            old(self).wf(),
        ensures
            final(self).wf(),
            authorized ==> r == Ok::<(), OracleError>(()) && final(self)@ == spec_set(
                old(self)@,
                pair@,
                price,
                now,
                provider@,
            ),
            !authorized ==> r == Err::<(), OracleError>(OracleError::Unauthorized)
                && final(self)@ == old(self)@,
    {
        if !authorized {
            return Err(OracleError::Unauthorized);
        }
        let record = PriceRecord { price, timestamp: now, provider };
        let ghost s0 = self.entries@;
        match self.find(&pair) {
            Some(i) => {
                let e = Entry { pair, record };
                let ghost ge = e;
                self.entries[i] = e;
                proof {
                    lemma_entries_map_update(s0, i as int, ge);
                    assert forall|a: int, b: int|
                        0 <= a < b < self.entries@.len() implies self.entries@[a].pair@
                        != self.entries@[b].pair@ by {
                        assert(self.entries@[a].pair@ == s0[a].pair@);
                        assert(self.entries@[b].pair@ == s0[b].pair@);
                    }
                }
            },
            None => {
                let e = Entry { pair, record };
                let ghost ge = e;
                self.entries.push(e);
                proof {
                    assert(self.entries@.drop_last() =~= s0);
                    assert(self.entries@.last() == ge);
                    assert forall|a: int, b: int|
                        0 <= a < b < self.entries@.len() implies self.entries@[a].pair@
                        != self.entries@[b].pair@ by {
                        if b < self.entries@.len() - 1 {
                            assert(s0[a].pair@ != s0[b].pair@);
                        } else {
                            assert(s0[a].pair@ != ge.pair@);
                        }
                    }
                }
            },
        }
        Ok(())
    }

    /// The latest price published for `pair`, or `None` when no price has
    /// ever been set for it — absence, not zero.
    pub fn get_price(&self, pair: &String) -> (r: Option<i64>)
        requires
            self.wf(),
        ensures
            r == spec_price(self@, pair@),
    {
        match self.find(pair) {
            Some(i) => {
                proof {
                    lemma_entries_map_at(self.entries@, i as int);
                }
                Some(self.entries[i].record.price)
            },
            None => {
                proof {
                    lemma_entries_map_dom(self.entries@, pair@);
                }
                None
            },
        }
    }

    /// The publication time of `pair`'s record, or `None` when the pair was
    /// never written. Absent exactly when `get_price` is absent: the record
    /// is written atomically.
    pub fn get_timestamp(&self, pair: &String) -> (r: Option<u64>)
        requires
            self.wf(),
        ensures
            r == spec_timestamp(self@, pair@),
    {
        match self.find(pair) {
            Some(i) => {
                proof {
                    lemma_entries_map_at(self.entries@, i as int);
                }
                Some(self.entries[i].record.timestamp)
            },
            None => {
                proof {
                    lemma_entries_map_dom(self.entries@, pair@);
                }
                None
            },
        }
    }

    /// The provider that published `pair`'s record, or `None` when the pair
    /// was never written.
    pub fn get_provider(&self, pair: &String) -> (r: Option<String>)
        requires
            self.wf(),
        ensures
            match r {
                Some(p) => spec_provider(self@, pair@) == Some(p@),
                None => spec_provider(self@, pair@) is None,
            },
    {
        match self.find(pair) {
            Some(i) => {
                proof {
                    lemma_entries_map_at(self.entries@, i as int);
                }
                Some(self.entries[i].record.provider.clone())
            },
            None => {
                proof {
                    lemma_entries_map_dom(self.entries@, pair@);
                }
                None
            },
        }
    }

    /// Whether `pair`'s record is at most `max_age` seconds old when the
    /// clock reads `now`; `false` when the pair was never written. The age
    /// is clamped: a record dated after `now` counts as age zero and is
    /// fresh, instead of tripping unsigned wraparound.
    pub fn is_fresh(&self, pair: &String, max_age: u64, now: u64) -> (r: bool)
        requires
            self.wf(),
        ensures
            r == spec_fresh(self@, pair@, now, max_age),
    {
        match self.get_timestamp(pair) {
            Some(timestamp) => fresh_at(timestamp, now, max_age),
            None => false,
        }
    }
}

/// The freshness decision on its own: whether a record written at
/// `timestamp` is at most `max_age` seconds old when the clock reads `now`.
/// The age is clamped to zero when `now` is earlier than `timestamp`, so a
/// regressed clock reports a just-written record as fresh.
pub fn fresh_at(timestamp: u64, now: u64, max_age: u64) -> (r: bool)
    ensures
        r == (spec_age(timestamp, now) <= max_age),
{
    let age: u64 = if now >= timestamp {
        now - timestamp
    } else {
        0
    };
    age <= max_age
}

} // verus!
