//! The decisions taken for each entry of an archive, and the tally of their
//! outcomes. Every decision depends on the entry's own path and on the one
//! fact the caller reports about its target, never on another entry, so the
//! entries may be worked on in any order and in parallel.
use vstd::prelude::*;
use crate::filter::{all_compile, first_match_included, rules_of, EntryFilter, FilterError};
use crate::resolve::{is_target_of, names_file, resolve, ExtractionOptions, ResolvedTarget};

verus! {

/// How the work on one entry ended.
#[derive(Clone, Copy, PartialEq, Eq, Structural, Debug)]
pub enum EntryOutcome {
    Written,
    SkippedFiltered,
    SkippedExisting,
    Failed,
}

/// The outcome of the entry at `path`, given whether its target already
/// exists and whether writing it succeeds.
pub open spec fn entry_outcome(
    rules: Seq<(bool, Seq<char>)>,
    overwrite: bool,
    path: Seq<char>,
    exists: bool,
    write_ok: bool,
) -> EntryOutcome {
    if !first_match_included(rules, path) {
        EntryOutcome::SkippedFiltered
    } else if !names_file(path) {
        EntryOutcome::Failed
    } else if exists && !overwrite {
        EntryOutcome::SkippedExisting
    } else if write_ok {
        EntryOutcome::Written
    } else {
        EntryOutcome::Failed
    }
}

/// What the first decision on an entry asks for next.
pub enum EntryStep {
    /// The entry is done with this outcome.
    Finished(EntryOutcome),
    /// Find out whether this target exists, then call `after_check`.
    CheckTarget(ResolvedTarget),
}

/// Drives the entries of one archive: the filter, the options, and the
/// archive's base name.
pub struct ExtractionCoordinator {
    filter: EntryFilter,
    options: ExtractionOptions,
    archive_stem: String,
}

impl ExtractionCoordinator {
    /// The rules in force.
    pub closed spec fn rules(&self) -> Seq<(bool, Seq<char>)> {
        self.filter@
    }

    /// The options of the run.
    pub closed spec fn options(&self) -> ExtractionOptions {
        self.options
    }

    /// The archive's base name.
    pub closed spec fn stem(&self) -> Seq<char> {
        self.archive_stem@
    }

    pub closed spec fn wf(&self) -> bool {
        &&& self.filter.wf()
        &&& self.filter@ == rules_of(self.options.exclude_rules@)
    }

    /// Prepares a run over the archive with base name `archive_stem`. A
    /// malformed rule is refused here, before any entry is worked on.
    pub fn new(options: ExtractionOptions, archive_stem: String) -> (r: Result<
        ExtractionCoordinator,
        FilterError,
    >)
        ensures
            r is Ok <==> all_compile(rules_of(options.exclude_rules@)),
            r matches Ok(c) ==> c.wf() && c.options() == options && c.stem() == archive_stem@
                && c.rules() == rules_of(options.exclude_rules@),
    {
        match EntryFilter::new(&options.exclude_rules) {
            Ok(filter) => Ok(ExtractionCoordinator { filter, options, archive_stem }),
            Err(e) => Err(e),
        }
    }

    /// The first decision on the entry at `path`: an entry the rules exclude
    /// is skipped, one whose path names no file fails, and any other asks
    /// whether its target exists.
    pub fn start(&self, path: &str) -> (r: EntryStep)
        requires
            self.wf(),
        ensures
            !first_match_included(self.rules(), path@) ==> r == EntryStep::Finished(
                EntryOutcome::SkippedFiltered,
            ),
            first_match_included(self.rules(), path@) && !names_file(path@) ==> r == EntryStep::Finished(
                EntryOutcome::Failed,
            ),
            first_match_included(self.rules(), path@) && names_file(path@) ==> (r matches EntryStep::CheckTarget(
                t,
            ) && is_target_of(t, self.options(), self.stem(), path@)),
            r matches EntryStep::Finished(o) ==> forall|exists: bool, write_ok: bool|
                o == entry_outcome(self.rules(), self.options().overwrite, path@, exists, write_ok),
    {
        if !self.filter.is_included(path) {
            return EntryStep::Finished(EntryOutcome::SkippedFiltered);
        }
        match resolve(self.archive_stem.as_str(), path, &self.options) {
            Ok(t) => EntryStep::CheckTarget(t),
            Err(_) => EntryStep::Finished(EntryOutcome::Failed),
        }
    }

    /// The decision once the target is known to exist or not: an existing
    /// target is skipped unless overwriting; otherwise (`None`) the entry is
    /// to be written.
    pub fn after_check(&self, exists: bool) -> (r: Option<EntryOutcome>)
        ensures
            r == (if exists && !self.options().overwrite {
                Some(EntryOutcome::SkippedExisting)
            } else {
                None::<EntryOutcome>
            }),
    {
        if exists && !self.options.overwrite {
            Some(EntryOutcome::SkippedExisting)
        } else {
            None
        }
    }

    /// The outcome of an entry once writing it ended, well or not.
    pub fn after_write(&self, write_ok: bool) -> (r: EntryOutcome)
        ensures
            r == (if write_ok {
                EntryOutcome::Written
            } else {
                EntryOutcome::Failed
            }),
    {
        if write_ok {
            EntryOutcome::Written
        } else {
            EntryOutcome::Failed
        }
    }
}

/// How many of `os` are `o`.
pub open spec fn count_of(os: Seq<EntryOutcome>, o: EntryOutcome) -> nat
    decreases os.len(),
{
    if os.len() == 0 {
        0
    } else {
        count_of(os.drop_last(), o) + if os.last() == o {
            1nat
        } else {
            0nat
        }
    }
}

/// Every entry has exactly one of the four outcomes, so their counts add up
/// to the number of entries.
pub proof fn lemma_outcomes_partition(os: Seq<EntryOutcome>)
    ensures
        count_of(os, EntryOutcome::Written) + count_of(os, EntryOutcome::SkippedFiltered)
            + count_of(os, EntryOutcome::SkippedExisting) + count_of(os, EntryOutcome::Failed)
            == os.len(),
    decreases os.len(),
{
    if os.len() > 0 {
        lemma_outcomes_partition(os.drop_last());
    }
}

/// The outcomes of a run over the entries at `paths`, given for each whether
/// its target exists and whether writing it succeeds.
pub open spec fn run_outcomes(
    rules: Seq<(bool, Seq<char>)>,
    overwrite: bool,
    paths: Seq<Seq<char>>,
    exists: Seq<bool>,
    write_ok: Seq<bool>,
) -> Seq<EntryOutcome> {
    Seq::new(
        paths.len(),
        |i: int| entry_outcome(rules, overwrite, paths[i], exists[i], write_ok[i]),
    )
}

/// Which of the four outcomes `o` is, and on what grounds.
pub open spec fn outcome_explained(
    o: EntryOutcome,
    rules: Seq<(bool, Seq<char>)>,
    overwrite: bool,
    path: Seq<char>,
    exists: bool,
    write_ok: bool,
) -> bool {
    let kept = first_match_included(rules, path);
    let blocked = exists && !overwrite;
    &&& (o == EntryOutcome::SkippedFiltered <==> !kept)
    &&& (o == EntryOutcome::SkippedExisting <==> kept && names_file(path) && blocked)
    &&& (o == EntryOutcome::Written <==> kept && names_file(path) && !blocked && write_ok)
    &&& (o == EntryOutcome::Failed <==> kept && (!names_file(path) || (!blocked && !write_ok)))
}

/// Every entry of a run ends in exactly one outcome, decided by its own
/// path and its own target alone: skipped-filtered exactly when the rules
/// exclude it; otherwise failed when its path names no file; otherwise
/// skipped-existing exactly when its target exists and overwriting is off;
/// otherwise written, or failed where writing failed. The counts of the
/// four outcomes add up to the number of entries.
pub proof fn lemma_run_outcomes(
    rules: Seq<(bool, Seq<char>)>,
    overwrite: bool,
    paths: Seq<Seq<char>>,
    exists: Seq<bool>,
    write_ok: Seq<bool>,
)
    requires
        exists.len() == paths.len(),
        write_ok.len() == paths.len(),
    ensures
        run_outcomes(rules, overwrite, paths, exists, write_ok).len() == paths.len(),
        forall|i: int| 0 <= i < paths.len() ==> outcome_explained(
            #[trigger] run_outcomes(rules, overwrite, paths, exists, write_ok)[i],
            rules,
            overwrite,
            paths[i],
            exists[i],
            write_ok[i],
        ),
        ({
            let os = run_outcomes(rules, overwrite, paths, exists, write_ok);
            count_of(os, EntryOutcome::Written) + count_of(os, EntryOutcome::SkippedFiltered)
                + count_of(os, EntryOutcome::SkippedExisting) + count_of(os, EntryOutcome::Failed)
                == paths.len()
        }),
{
    lemma_outcomes_partition(run_outcomes(rules, overwrite, paths, exists, write_ok));
}

/// Run again without overwriting after a run that wrote every entry, every
/// entry is skipped as existing, whatever writing would have done, and the
/// skipped-existing count is the number of entries.
pub proof fn lemma_rerun_skips_existing(
    rules: Seq<(bool, Seq<char>)>,
    paths: Seq<Seq<char>>,
    prior_overwrite: bool,
    prior_exists: Seq<bool>,
)
    requires
        prior_exists.len() == paths.len(),
        forall|i: int| 0 <= i < paths.len() ==> entry_outcome(
            rules,
            prior_overwrite,
            #[trigger] paths[i],
            prior_exists[i],
            true,
        ) == EntryOutcome::Written,
    ensures
        forall|i: int, write_ok: bool| 0 <= i < paths.len() ==> #[trigger] entry_outcome(
            rules,
            false,
            paths[i],
            true,
            write_ok,
        ) == EntryOutcome::SkippedExisting,
        count_of(
            Seq::new(paths.len(), |i: int| entry_outcome(rules, false, paths[i], true, false)),
            EntryOutcome::SkippedExisting,
        ) == paths.len(),
    decreases paths.len(),
{
    let os = Seq::new(paths.len(), |i: int| entry_outcome(rules, false, paths[i], true, false));
    if paths.len() > 0 {
        let n = paths.len() - 1;
        let ps = paths.drop_last();
        let es = prior_exists.drop_last();
        assert forall|i: int| 0 <= i < ps.len() implies entry_outcome(
            rules,
            prior_overwrite,
            #[trigger] ps[i],
            es[i],
            true,
        ) == EntryOutcome::Written by {
            assert(ps[i] == paths[i]);
        }
        lemma_rerun_skips_existing(rules, ps, prior_overwrite, es);
        assert(os.drop_last() =~= Seq::new(ps.len(), |i: int| entry_outcome(rules, false, ps[i], true, false)));
        assert(entry_outcome(rules, prior_overwrite, paths[n], prior_exists[n], true)
            == EntryOutcome::Written);
    }
}

/// Counts of the outcomes of a run.
#[derive(Clone, Copy, Debug)]
pub struct RunTally {
    pub written: usize,
    pub skipped_filtered: usize,
    pub skipped_existing: usize,
    pub failed: usize,
}

impl RunTally {
    /// Entries finished so far, whatever their outcome.
    pub open spec fn total(&self) -> int {
        self.written + self.skipped_filtered + self.skipped_existing + self.failed
    }

    /// The count that `o` adds to.
    pub open spec fn count(&self, o: EntryOutcome) -> int {
        match o {
            EntryOutcome::Written => self.written as int,
            EntryOutcome::SkippedFiltered => self.skipped_filtered as int,
            EntryOutcome::SkippedExisting => self.skipped_existing as int,
            EntryOutcome::Failed => self.failed as int,
        }
    }

    pub fn new() -> (r: RunTally)
        ensures
            r.written == 0 && r.skipped_filtered == 0 && r.skipped_existing == 0 && r.failed == 0,
    {
        RunTally { written: 0, skipped_filtered: 0, skipped_existing: 0, failed: 0 }
    }

    /// Counts one finished entry: its outcome's count goes up by one, the
    /// others stay.
    pub fn record(&mut self, o: EntryOutcome)
        requires
            old(self).total() < usize::MAX,
        ensures
            forall|p: EntryOutcome| #[trigger] final(self).count(p) == old(self).count(p) + if p == o {
                1int
            } else {
                0int
            },
            final(self).total() == old(self).total() + 1,
    {
        match o {
            EntryOutcome::Written => self.written = self.written + 1,
            EntryOutcome::SkippedFiltered => self.skipped_filtered = self.skipped_filtered + 1,
            EntryOutcome::SkippedExisting => self.skipped_existing = self.skipped_existing + 1,
            EntryOutcome::Failed => self.failed = self.failed + 1,
        }
    }

    /// Entries finished so far: what progress shows as completed.
    pub fn completed(&self) -> (r: usize)
        requires
            self.total() <= usize::MAX,
        ensures
            r == self.total(),
    {
        self.written + self.skipped_filtered + self.skipped_existing + self.failed
    }
}

/// The tally of a run's outcomes: each count is how many entries ended so,
/// and together they count every entry once.
pub fn tally(outcomes: &Vec<EntryOutcome>) -> (r: RunTally)
    ensures
        forall|o: EntryOutcome| #[trigger] r.count(o) == count_of(outcomes@, o),
        r.total() == outcomes@.len(),
{
    let mut t = RunTally::new();
    let mut i: usize = 0;
    while i < outcomes.len()
        invariant
            i <= outcomes@.len(),
            forall|o: EntryOutcome| #[trigger] t.count(o) == count_of(outcomes@.take(i as int), o),
            t.total() == i,
        decreases outcomes@.len() - i,
    {
        assert(outcomes@.take(i + 1).drop_last() =~= outcomes@.take(i as int));
        t.record(outcomes[i]);
        i = i + 1;
    }
    assert(outcomes@.take(i as int) =~= outcomes@);
    t
}

} // verus!
