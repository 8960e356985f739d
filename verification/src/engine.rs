//! The audit engine: folds the discovered entries into the qualifying
//! records and the walk statistics.
//!
//! Discovery itself (the concurrent directory walk and the metadata reads)
//! happens outside; the engine receives each discovered entry as plain
//! values and decides everything else. Because the decision for an entry
//! depends only on that entry and the configuration, the qualifying set is
//! independent of the order in which workers deliver entries and of the
//! worker count; see the lemmas in `laws`.

use crate::aggregate::Aggregator;
use crate::classify::{classify, qualifies, AuditRecord};
use crate::clock::now_unix_seconds;
use crate::config::WalkConfiguration;
use crate::policy::eligible;
use crate::timefmt::{renderable, stamp_of};
use vstd::prelude::*;

verus! {

/// What the metadata read delivered for a discovered entry.
#[derive(Debug, Clone, Copy, PartialEq, Eq, Structural)]
pub enum AccessOutcome {
    /// Last-access time in whole seconds since the Unix epoch.
    KnownSeconds(i64),
    /// The stat call failed (permission denied, entry vanished, broken
    /// symlink target); the entry is excluded from results and counted.
    MetadataUnavailable,
}

/// One entry delivered by the walker: its path, its kind, and the result
/// of the metadata read.
#[derive(Debug, Clone)]
pub struct DiscoveredEntry {
    pub path: String,
    pub is_directory: bool,
    pub access: AccessOutcome,
}

/// The disposition of one discovered entry.
#[derive(Debug, Clone, Copy, PartialEq, Eq, Structural)]
pub enum EntryOutcome {
    /// Eligible, access time known and strictly older than the boundary:
    /// an audit record is produced.
    Qualifying,
    /// Eligible and the access time lies within the retained window.
    Retained,
    /// Ineligible under the directories-only switch; the access time is
    /// never consulted.
    FilteredOut,
    /// Eligible but the access time could not be read.
    MetadataUnavailable,
}

/// Known access times must fit the canonical four-digit-year form.
pub open spec fn entry_renderable(e: DiscoveredEntry) -> bool {
    match e.access {
        AccessOutcome::KnownSeconds(t) => renderable(t as int),
        AccessOutcome::MetadataUnavailable => true,
    }
}

/// The disposition of an entry: the filter policy is consulted first, so an
/// ineligible entry is filtered out whatever its access outcome holds.
pub open spec fn outcome_of(
    e: DiscoveredEntry,
    directories_only: bool,
    cutoff_days: int,
    now: int,
) -> EntryOutcome {
    if !eligible(e.is_directory, directories_only) {
        EntryOutcome::FilteredOut
    } else {
        match e.access {
            AccessOutcome::KnownSeconds(t) => if qualifies(t as int, now, cutoff_days) {
                EntryOutcome::Qualifying
            } else {
                EntryOutcome::Retained
            },
            AccessOutcome::MetadataUnavailable => EntryOutcome::MetadataUnavailable,
        }
    }
}

/// The record a qualifying entry contributes: its path and the canonical
/// form of its access time.
pub open spec fn record_model(e: DiscoveredEntry) -> (Seq<char>, Seq<char>) {
    match e.access {
        AccessOutcome::KnownSeconds(t) => (e.path@, stamp_of(t as int)),
        AccessOutcome::MetadataUnavailable => (e.path@, Seq::<char>::empty()),
    }
}

/// The records of the qualifying entries, in delivery order.
pub open spec fn audit_models(
    entries: Seq<DiscoveredEntry>,
    directories_only: bool,
    cutoff_days: int,
    now: int,
) -> Seq<(Seq<char>, Seq<char>)>
    decreases entries.len(),
{
    if entries.len() == 0 {
        Seq::<(Seq<char>, Seq<char>)>::empty()
    } else if outcome_of(entries.last(), directories_only, cutoff_days, now)
        == EntryOutcome::Qualifying {
        audit_models(entries.drop_last(), directories_only, cutoff_days, now).push(
            record_model(entries.last()),
        )
    } else {
        audit_models(entries.drop_last(), directories_only, cutoff_days, now)
    }
}

/// How many entries receive the given disposition.
pub open spec fn count_outcome(
    entries: Seq<DiscoveredEntry>,
    o: EntryOutcome,
    directories_only: bool,
    cutoff_days: int,
    now: int,
) -> int
    decreases entries.len(),
{
    if entries.len() == 0 {
        0
    } else {
        count_outcome(entries.drop_last(), o, directories_only, cutoff_days, now) + if outcome_of(
            entries.last(),
            directories_only,
            cutoff_days,
            now,
        ) == o {
            1int
        } else {
            0int
        }
    }
}

/// Walk statistics: how many entries were discovered and how each was
/// disposed of, plus the elapsed wall time of each phase as measured by the
/// surrounding program.
#[derive(Debug, Clone, Copy, PartialEq, Eq, Structural)]
pub struct WalkStatistics {
    /// Everything the walker reported, including discovery errors.
    pub discovered: u64,
    /// Entries the walker could not read at all.
    pub discovery_errors: u64,
    /// Entries set aside by the filter policy.
    pub filtered_out: u64,
    /// Entries whose metadata read failed after discovery.
    pub metadata_unavailable: u64,
    /// Entries accessed within the retained window.
    pub retained: u64,
    /// Entries that produced an audit record.
    pub qualifying: u64,
    /// Elapsed discovery time in milliseconds; filled in by the caller.
    pub discovery_ms: u64,
    /// Elapsed classification time in milliseconds; filled in by the caller.
    pub classification_ms: u64,
    /// Elapsed report-writing time in milliseconds; filled in by the caller.
    pub write_ms: u64,
}

/// The engine's complete result.
pub struct AuditOutcome {
    pub records: Vec<AuditRecord>,
    pub stats: WalkStatistics,
}

/// Exactly what `run_audit_at` promises: the records are the models of the
/// qualifying entries in delivery order, and every statistic matches its
/// count, with the timing fields left at zero.
pub open spec fn outcome_ok(
    out: AuditOutcome,
    entries: Seq<DiscoveredEntry>,
    cfg: WalkConfiguration,
    discovery_errors: int,
    now: int,
) -> bool {
    let d = cfg.directories_only;
    let c = cfg.cutoff_days as int;
    &&& out.records@.map_values(|r: AuditRecord| r@) == audit_models(entries, d, c, now)
    &&& out.stats.discovered == entries.len() + discovery_errors
    &&& out.stats.discovery_errors == discovery_errors
    &&& out.stats.filtered_out == count_outcome(entries, EntryOutcome::FilteredOut, d, c, now)
    &&& out.stats.metadata_unavailable == count_outcome(
        entries,
        EntryOutcome::MetadataUnavailable,
        d,
        c,
        now,
    )
    &&& out.stats.retained == count_outcome(entries, EntryOutcome::Retained, d, c, now)
    &&& out.stats.qualifying == count_outcome(entries, EntryOutcome::Qualifying, d, c, now)
    &&& out.stats.discovery_ms == 0
    &&& out.stats.classification_ms == 0
    &&& out.stats.write_ms == 0
}

/// Decides the disposition of one entry, consulting the filter policy
/// before the access time.
pub fn assess_entry(e: &DiscoveredEntry, cfg: &WalkConfiguration, now_seconds: i64) -> (o:
    EntryOutcome)
    ensures
        o == outcome_of(*e, cfg.directories_only, cfg.cutoff_days as int, now_seconds as int),
{
    if !crate::policy::is_eligible(e.is_directory, cfg.directories_only) {
        EntryOutcome::FilteredOut
    } else {
        match e.access {
            AccessOutcome::KnownSeconds(t) => {
                if crate::classify::is_stale(t, now_seconds, cfg.cutoff_days) {
                    EntryOutcome::Qualifying
                } else {
                    EntryOutcome::Retained
                }
            },
            AccessOutcome::MetadataUnavailable => EntryOutcome::MetadataUnavailable,
        }
    }
}

/// Folds the discovered entries into records and statistics against the
/// given instant. Deterministic: the result is a function of the entries,
/// the configuration, the error count and the instant alone.
pub fn run_audit_at(
    entries: &Vec<DiscoveredEntry>,
    discovery_errors: u64,
    cfg: &WalkConfiguration,
    now_seconds: i64,
) -> (out: AuditOutcome)
    requires
        forall|i: int| 0 <= i < entries@.len() ==> entry_renderable(#[trigger] entries@[i]),
        entries@.len() + discovery_errors <= u64::MAX,
    ensures
        outcome_ok(out, entries@, *cfg, discovery_errors as int, now_seconds as int),
{
    let ghost d = cfg.directories_only;
    let ghost c = cfg.cutoff_days as int;
    let ghost now = now_seconds as int;
    let mut agg = Aggregator::new();
    let mut filtered_out: u64 = 0;
    let mut metadata_unavailable: u64 = 0;
    let mut retained: u64 = 0;
    let mut qualifying: u64 = 0;
    let n = entries.len();
    let mut i: usize = 0;
    while i < n
        invariant
            i <= n,
            n == entries@.len(),
            forall|k: int| 0 <= k < entries@.len() ==> entry_renderable(#[trigger] entries@[k]),
            agg@ == audit_models(entries@.take(i as int), d, c, now),
            filtered_out == count_outcome(
                entries@.take(i as int),
                EntryOutcome::FilteredOut,
                d,
                c,
                now,
            ),
            metadata_unavailable == count_outcome(
                entries@.take(i as int),
                EntryOutcome::MetadataUnavailable,
                d,
                c,
                now,
            ),
            retained == count_outcome(entries@.take(i as int), EntryOutcome::Retained, d, c, now),
            qualifying == count_outcome(
                entries@.take(i as int),
                EntryOutcome::Qualifying,
                d,
                c,
                now,
            ),
            filtered_out <= i,
            metadata_unavailable <= i,
            retained <= i,
            qualifying <= i,
            d == cfg.directories_only,
            c == cfg.cutoff_days as int,
            now == now_seconds as int,
        decreases n - i,
    {
        let e = &entries[i];
        let o = assess_entry(e, cfg, now_seconds);
        proof {
            assert(entries@.take(i as int + 1).drop_last() =~= entries@.take(i as int));
            assert(entries@.take(i as int + 1).last() == entries@[i as int]);
        }
        match o {
            EntryOutcome::Qualifying => {
                let t: i64 = match e.access {
                    AccessOutcome::KnownSeconds(t) => t,
                    AccessOutcome::MetadataUnavailable => {
                        proof {
                            assert(false);
                        }
                        0
                    },
                };
                match classify(e.path.as_str(), t, now_seconds, cfg.cutoff_days) {
                    Ok(rec) => {
                        agg.push(rec);
                        qualifying = qualifying + 1;
                    },
                    Err(_) => {
                        proof {
                            assert(false);
                        }
                    },
                }
            },
            EntryOutcome::Retained => {
                retained = retained + 1;
            },
            EntryOutcome::FilteredOut => {
                filtered_out = filtered_out + 1;
            },
            EntryOutcome::MetadataUnavailable => {
                metadata_unavailable = metadata_unavailable + 1;
            },
        }
        i = i + 1;
    }
    proof {
        assert(entries@.take(n as int) =~= entries@);
    }
    let records = agg.drain();
    let stats = WalkStatistics {
        discovered: (n as u64) + discovery_errors,
        discovery_errors,
        filtered_out,
        metadata_unavailable,
        retained,
        qualifying,
        discovery_ms: 0,
        classification_ms: 0,
        write_ms: 0,
    };
    AuditOutcome { records, stats }
}

/// Runs the audit against the wall clock, read once for the whole run.
pub fn run_audit(entries: &Vec<DiscoveredEntry>, discovery_errors: u64, cfg: &WalkConfiguration)
    -> (out: AuditOutcome)
    requires
        forall|i: int| 0 <= i < entries@.len() ==> entry_renderable(#[trigger] entries@[i]),
        entries@.len() + discovery_errors <= u64::MAX,
    ensures
        exists|now: int|
            0 <= now && outcome_ok(out, entries@, *cfg, discovery_errors as int, now),
{
    let now = now_unix_seconds();
    let out = run_audit_at(entries, discovery_errors, cfg, now);
    proof {
        assert(outcome_ok(out, entries@, *cfg, discovery_errors as int, now as int));
    }
    out
}

} // verus!
