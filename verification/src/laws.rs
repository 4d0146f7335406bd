//! The registry's laws, stated over the abstract map model and proved once
//! and for all. Each law speaks about the same spec functions that the
//! operations' contracts use, so it applies to every sequence of calls.

use vstd::prelude::*;

use crate::registry::{
    spec_age, spec_fresh, spec_price, spec_provider, spec_set, spec_timestamp, RecordModel,
};

verus! {

/// A pair that was never written reads as absent — price, timestamp, and
/// provider alike — and is never fresh, whatever the clock says and whatever
/// age is allowed.
pub proof fn lemma_unwritten_absent(
    m: Map<Seq<char>, RecordModel>,
    pair: Seq<char>,
    now: u64,
    max_age: u64,
)
    requires
        !m.dom().contains(pair),
    ensures
        spec_price(m, pair) is None,
        spec_timestamp(m, pair) is None,
        spec_provider(m, pair) is None,
        !spec_fresh(m, pair, now, max_age),
{
}

/// Reads after an authorized write return exactly what was written: the
/// price, the provider, and the clock value at the time of the write — and
/// every other pair reads as it did before.
pub proof fn lemma_read_after_write(
    m: Map<Seq<char>, RecordModel>,
    pair: Seq<char>,
    price: i64,
    now: u64,
    provider: Seq<char>,
)
    ensures
        spec_price(spec_set(m, pair, price, now, provider), pair) == Some(price),
        spec_timestamp(spec_set(m, pair, price, now, provider), pair) == Some(now),
        spec_provider(spec_set(m, pair, price, now, provider), pair) == Some(provider),
        forall|q: Seq<char>|
            q != pair ==> spec_price(spec_set(m, pair, price, now, provider), q) == spec_price(
                m,
                q,
            ),
        forall|q: Seq<char>|
            q != pair ==> spec_timestamp(spec_set(m, pair, price, now, provider), q)
                == spec_timestamp(m, q),
        forall|q: Seq<char>|
            q != pair ==> spec_provider(spec_set(m, pair, price, now, provider), q)
                == spec_provider(m, q),
{
}

/// Writing the same price and provider twice leaves exactly the state of a
/// single write carrying the second write's timestamp: nothing accumulates
/// and nothing is duplicated.
pub proof fn lemma_set_idempotent(
    m: Map<Seq<char>, RecordModel>,
    pair: Seq<char>,
    price: i64,
    provider: Seq<char>,
    t1: u64,
    t2: u64,
)
    ensures
        spec_set(spec_set(m, pair, price, t1, provider), pair, price, t2, provider) == spec_set(
            m,
            pair,
            price,
            t2,
            provider,
        ),
{
    assert(spec_set(spec_set(m, pair, price, t1, provider), pair, price, t2, provider)
        =~= spec_set(m, pair, price, t2, provider));
}

/// Freshness is inclusive at the boundary: a record whose age is exactly
/// `max_age` is fresh, and one whose age is `max_age` plus one second is
/// not.
pub proof fn lemma_freshness_boundary(
    m: Map<Seq<char>, RecordModel>,
    pair: Seq<char>,
    now: u64,
    max_age: u64,
)
    requires
        m.dom().contains(pair),
        m[pair].timestamp <= now,
    ensures
        now - m[pair].timestamp == max_age ==> spec_fresh(m, pair, now, max_age),
        now - m[pair].timestamp == max_age + 1 ==> !spec_fresh(m, pair, now, max_age),
{
}

/// The clamped-age policy, spelled out: when the clock reads earlier than a
/// record's timestamp (a regressed clock, or a future-dated write), the
/// record's age counts as zero, so the record is fresh for every allowed
/// age.
pub proof fn lemma_clock_regression_fresh(
    m: Map<Seq<char>, RecordModel>,
    pair: Seq<char>,
    now: u64,
    max_age: u64,
)
    requires
        m.dom().contains(pair),
        m[pair].timestamp > now,
    ensures
        spec_fresh(m, pair, now, max_age),
{
    assert(spec_age(m[pair].timestamp, now) == 0);
}

} // verus!
