//! The properties the audit core guarantees, stated and proved once for
//! all inputs.

use crate::classify::qualifies;
use crate::engine::{
    audit_models, count_outcome, outcome_of, record_model, AccessOutcome, DiscoveredEntry,
    EntryOutcome,
};
use crate::policy::eligible;
use vstd::prelude::*;

verus! {

/// Completeness: every discovered entry receives exactly one of the four
/// dispositions, so the four counts partition the discovered set.
pub proof fn lemma_outcomes_partition(
    entries: Seq<DiscoveredEntry>,
    directories_only: bool,
    cutoff_days: int,
    now: int,
)
    ensures
        count_outcome(entries, EntryOutcome::Qualifying, directories_only, cutoff_days, now)
            + count_outcome(entries, EntryOutcome::Retained, directories_only, cutoff_days, now)
            + count_outcome(entries, EntryOutcome::FilteredOut, directories_only, cutoff_days, now)
            + count_outcome(
            entries,
            EntryOutcome::MetadataUnavailable,
            directories_only,
            cutoff_days,
            now,
        ) == entries.len(),
    decreases entries.len(),
{
    if entries.len() > 0 {
        lemma_outcomes_partition(entries.drop_last(), directories_only, cutoff_days, now);
    }
}

/// One record per qualifying entry: the result collection is as long as
/// the qualifying count.
pub proof fn lemma_one_record_per_qualifying_entry(
    entries: Seq<DiscoveredEntry>,
    directories_only: bool,
    cutoff_days: int,
    now: int,
)
    ensures
        audit_models(entries, directories_only, cutoff_days, now).len() == count_outcome(
            entries,
            EntryOutcome::Qualifying,
            directories_only,
            cutoff_days,
            now,
        ),
    decreases entries.len(),
{
    if entries.len() > 0 {
        lemma_one_record_per_qualifying_entry(
            entries.drop_last(),
            directories_only,
            cutoff_days,
            now,
        );
    }
}

/// Filter correctness: an ineligible entry is filtered out whatever its
/// access outcome holds, so it never reaches the access classifier.
pub proof fn lemma_filter_shields(
    e: DiscoveredEntry,
    directories_only: bool,
    cutoff_days: int,
    now: int,
)
    requires
        !eligible(e.is_directory, directories_only),
    ensures
        outcome_of(e, directories_only, cutoff_days, now) == EntryOutcome::FilteredOut,
{
}

/// Cutoff boundary: an access time exactly at `now - cutoff_days` days is
/// retained, and one second older qualifies.
pub proof fn lemma_cutoff_boundary(now: int, cutoff_days: int)
    ensures
        !qualifies(now - cutoff_days * 86400, now, cutoff_days),
        qualifies(now - cutoff_days * 86400 - 1, now, cutoff_days),
{
}

/// Idempotence: two runs over the same entries yield the same records
/// whenever no entry's staleness decision differs between the two instants
/// — in particular always when the instants are equal.
pub proof fn lemma_idempotent(
    entries: Seq<DiscoveredEntry>,
    directories_only: bool,
    cutoff_days: int,
    now1: int,
    now2: int,
)
    requires
        forall|i: int|
            0 <= i < entries.len() ==> match (#[trigger] entries[i]).access {
                AccessOutcome::KnownSeconds(t) => qualifies(t as int, now1, cutoff_days)
                    == qualifies(t as int, now2, cutoff_days),
                AccessOutcome::MetadataUnavailable => true,
            },
    ensures
        audit_models(entries, directories_only, cutoff_days, now1) == audit_models(
            entries,
            directories_only,
            cutoff_days,
            now2,
        ),
    decreases entries.len(),
{
    if entries.len() > 0 {
        assert(forall|i: int|
            0 <= i < entries.len() - 1 ==> entries.drop_last()[i] == entries[i]);
        lemma_idempotent(entries.drop_last(), directories_only, cutoff_days, now1, now2);
        assert(entries[entries.len() - 1] == entries.last());
    }
}

/// Which records come out: exactly the models of the qualifying entries.
pub proof fn lemma_record_membership(
    entries: Seq<DiscoveredEntry>,
    directories_only: bool,
    cutoff_days: int,
    now: int,
    r: (Seq<char>, Seq<char>),
)
    ensures
        audit_models(entries, directories_only, cutoff_days, now).contains(r) <==> exists|i: int|
            0 <= i < entries.len() && outcome_of(
                #[trigger] entries[i],
                directories_only,
                cutoff_days,
                now,
            ) == EntryOutcome::Qualifying && record_model(entries[i]) == r,
    decreases entries.len(),
{
    if entries.len() == 0 {
    } else {
        let rest = entries.drop_last();
        let last = entries.last();
        lemma_record_membership(rest, directories_only, cutoff_days, now, r);
        let m_rest = audit_models(rest, directories_only, cutoff_days, now);
        let m_all = audit_models(entries, directories_only, cutoff_days, now);
        assert(forall|i: int| 0 <= i < rest.len() ==> rest[i] == entries[i]);
        assert(entries[entries.len() - 1] == last);
        if outcome_of(last, directories_only, cutoff_days, now) == EntryOutcome::Qualifying {
            assert(m_all == m_rest.push(record_model(last)));
            if m_all.contains(r) {
                let j = choose|j: int| 0 <= j < m_all.len() && m_all[j] == r;
                if j < m_rest.len() {
                    assert(m_rest[j] == r);
                    assert(m_rest.contains(r));
                } else {
                    assert(record_model(last) == r);
                }
            }
            if m_rest.contains(r) {
                let j = choose|j: int| 0 <= j < m_rest.len() && m_rest[j] == r;
                assert(m_all[j] == r);
                assert(m_all.contains(r));
            }
            if record_model(last) == r {
                assert(m_all[m_all.len() - 1] == r);
                assert(m_all.contains(r));
            }
        } else {
            assert(m_all == m_rest);
        }
    }
}

/// Record uniqueness: when the walker delivers each path at most once — its
/// exactly-once discovery guarantee — no two records share a path, so no
/// deduplication is needed downstream.
pub proof fn lemma_record_paths_unique(
    entries: Seq<DiscoveredEntry>,
    directories_only: bool,
    cutoff_days: int,
    now: int,
)
    requires
        forall|i: int, j: int|
            0 <= i < j < entries.len() ==> (#[trigger] entries[i].path@) != (#[trigger] entries[j].path@),
    ensures
        ({
            let m = audit_models(entries, directories_only, cutoff_days, now);
            forall|i: int, j: int| 0 <= i < j < m.len() ==> (#[trigger] m[i].0) != (#[trigger] m[j].0)
        }),
    decreases entries.len(),
{
    if entries.len() > 0 {
        let rest = entries.drop_last();
        let last = entries.last();
        assert(forall|i: int| 0 <= i < rest.len() ==> rest[i] == entries[i]);
        assert(entries[entries.len() - 1] == last);
        lemma_record_paths_unique(rest, directories_only, cutoff_days, now);
        let m_rest = audit_models(rest, directories_only, cutoff_days, now);
        let m_all = audit_models(entries, directories_only, cutoff_days, now);
        if outcome_of(last, directories_only, cutoff_days, now) == EntryOutcome::Qualifying {
            assert(m_all == m_rest.push(record_model(last)));
            assert forall|k: int| 0 <= k < m_rest.len() implies (#[trigger] m_rest[k].0)
                != record_model(last).0 by {
                assert(m_rest.contains(m_rest[k]));
                lemma_record_membership(rest, directories_only, cutoff_days, now, m_rest[k]);
                let i = choose|i: int|
                    0 <= i < rest.len() && outcome_of(rest[i], directories_only, cutoff_days, now)
                        == EntryOutcome::Qualifying && record_model(rest[i]) == m_rest[k];
                assert(rest[i].path@ != last.path@);
            }
        } else {
            assert(m_all == m_rest);
        }
    }
}

/// Concurrency safety: the qualifying record set depends only on which
/// entries were discovered, never on the order in which workers delivered
/// them; runs over reorderings of the same entries produce the same set.
pub proof fn lemma_order_insensitive(
    entries1: Seq<DiscoveredEntry>,
    entries2: Seq<DiscoveredEntry>,
    directories_only: bool,
    cutoff_days: int,
    now: int,
)
    requires
        forall|e: DiscoveredEntry| entries1.contains(e) <==> entries2.contains(e),
    ensures
        forall|r: (Seq<char>, Seq<char>)|
            audit_models(entries1, directories_only, cutoff_days, now).contains(r)
                <==> audit_models(entries2, directories_only, cutoff_days, now).contains(r),
{
    assert forall|r: (Seq<char>, Seq<char>)|
        audit_models(entries1, directories_only, cutoff_days, now).contains(r)
            <==> audit_models(entries2, directories_only, cutoff_days, now).contains(r) by {
        lemma_record_membership(entries1, directories_only, cutoff_days, now, r);
        lemma_record_membership(entries2, directories_only, cutoff_days, now, r);
        if audit_models(entries1, directories_only, cutoff_days, now).contains(r) {
            let i = choose|i: int|
                0 <= i < entries1.len() && outcome_of(
                    entries1[i],
                    directories_only,
                    cutoff_days,
                    now,
                ) == EntryOutcome::Qualifying && record_model(entries1[i]) == r;
            assert(entries1.contains(entries1[i]));
            assert(entries2.contains(entries1[i]));
            let j = choose|j: int| 0 <= j < entries2.len() && entries2[j] == entries1[i];
            assert(outcome_of(entries2[j], directories_only, cutoff_days, now)
                == EntryOutcome::Qualifying && record_model(entries2[j]) == r);
        }
        if audit_models(entries2, directories_only, cutoff_days, now).contains(r) {
            let i = choose|i: int|
                0 <= i < entries2.len() && outcome_of(
                    entries2[i],
                    directories_only,
                    cutoff_days,
                    now,
                ) == EntryOutcome::Qualifying && record_model(entries2[i]) == r;
            assert(entries2.contains(entries2[i]));
            assert(entries1.contains(entries2[i]));
            let j = choose|j: int| 0 <= j < entries1.len() && entries1[j] == entries2[i];
            assert(outcome_of(entries1[j], directories_only, cutoff_days, now)
                == EntryOutcome::Qualifying && record_model(entries1[j]) == r);
        }
    }
}

} // verus!
