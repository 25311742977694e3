//! The collection orchestrator: one end-to-end run over a candidate set.
//!
//! A run walks the candidates in order, skips the ones already summarized
//! today, folds every processed repository's language shares into the
//! accumulator, counts successful persists, and emits progress events. The
//! caller performs the outside work — fetching, summarizing, persisting —
//! and reports each candidate's outcome back; every decision is made here.

use vstd::prelude::*;
use vstd::string::StringExecFns;
use vstd::string::StringSliceAdditionalSpecFns;
use crate::aggregate::{spec_fold, trends_match, LanguageAccumulator};
use crate::breakdown::{sum_shares, LanguageBreakdown};
use crate::clock::today_utc;
use crate::models::{CollectionStatus, LanguageTrend, OssInsightRow, RepoLanguage, TrendingRepo};
use crate::text::{
    bytes_of, parse_i32, parse_id_or_zero, spec_dec, spec_id_or_zero, spec_parse_i32, u64_to_dec,
};

verus! {

/// The identifier a candidate row denotes: its id text parsed, or 0 when the
/// text is malformed.
pub open spec fn row_id(row: OssInsightRow) -> int {
    spec_id_or_zero(bytes_of(row.repo_id@))
}

/// Membership in the skip set.
pub open spec fn in_skip_set(skips: Seq<i64>, id: int) -> bool {
    exists|k: int| 0 <= k < skips.len() && (#[trigger] skips[k]) == id
}

/// How many of the first `n` candidates fall in the skip set.
pub open spec fn count_skipped(c: Seq<OssInsightRow>, skips: Seq<i64>, n: int) -> int
    decreases n,
{
    if n <= 0 {
        0
    } else {
        count_skipped(c, skips, n - 1) + if in_skip_set(skips, row_id(c[n - 1])) {
            1int
        } else {
            0int
        }
    }
}

/// Two optional strings carry the same text.
pub open spec fn opt_view_eq(a: Option<String>, b: Option<String>) -> bool {
    match a {
        None => b is None,
        Some(x) => match b {
            None => false,
            Some(y) => x@ == y@,
        },
    }
}

/// An optional metric field parsed the way the collector parses it: absent
/// stays absent, malformed or out-of-range text becomes absent, a number is
/// kept.
pub open spec fn metric_matches(src: Option<String>, out: Option<i32>) -> bool {
    match src {
        None => out is None,
        Some(s) => match spec_parse_i32(bytes_of(s@)) {
            Some(v) => out is Some && out.unwrap() as int == v,
            None => out is None,
        },
    }
}

/// The durable record built for one candidate: every field comes from the
/// candidate row and the run's date; only the summary field carries what the
/// summarizer produced.
pub open spec fn record_matches(
    row: OssInsightRow,
    date: Seq<char>,
    summary: Option<String>,
    rec: TrendingRepo,
) -> bool {
    &&& rec.date@ == date
    &&& rec.repo_id as int == row_id(row)
    &&& rec.repo_name@ == row.repo_name@
    &&& opt_view_eq(rec.primary_language, row.primary_language)
    &&& opt_view_eq(rec.description, row.description)
    &&& rec.korean_summary == summary
    &&& metric_matches(row.stars, rec.stars)
    &&& metric_matches(row.forks, rec.forks)
    &&& metric_matches(row.pull_requests, rec.pull_requests)
    &&& metric_matches(row.pushes, rec.pushes)
    &&& opt_view_eq(rec.total_score, row.total_score)
    &&& opt_view_eq(rec.contributor_logins, row.contributor_logins)
    &&& opt_view_eq(rec.collection_names, row.collection_names)
}

pub open spec fn spec_fetched_message(n: nat) -> Seq<char> {
    "Fetched "@ + spec_dec(n) + " repos from OSS Insight"@
}

pub open spec fn spec_processed_message(name: Seq<char>) -> Seq<char> {
    "Processed "@ + name
}

pub open spec fn spec_complete_message(n: nat) -> Seq<char> {
    "Collection complete. Collected "@ + spec_dec(n) + " repos."@
}

/// Starting a run without a candidate set is the one fatal error.
#[derive(Debug)]
pub enum RunError {
    TrendFetchFailed,
}

/// What the run asks its driver to do next.
pub enum RunStep {
    /// Enrich and persist the candidate at this index, then report back.
    Process(usize),
    /// The candidate at this index already has a summary today; leave it be.
    Skip(usize),
    /// Every candidate has been considered.
    Finished,
}

/// One collection run: the candidate set, the skip set, the cursor, the
/// counters and the language accumulator.
pub struct CollectionRun {
    date: String,
    candidates: Vec<OssInsightRow>,
    skip_ids: Vec<i64>,
    idx: usize,
    pending: bool,
    skipped: usize,
    collected: usize,
    accum: LanguageAccumulator,
}

impl CollectionRun {
    /// The run's date key, fixed at start.
    pub closed spec fn date_spec(&self) -> Seq<char> {
        self.date@
    }

    /// The candidate set, in trend-source order.
    pub closed spec fn candidates_spec(&self) -> Seq<OssInsightRow> {
        self.candidates@
    }

    /// The identifiers that already carry a summary today.
    pub closed spec fn skip_ids_spec(&self) -> Seq<i64> {
        self.skip_ids@
    }

    /// How many candidates have been considered so far.
    pub closed spec fn processed(&self) -> int {
        self.idx as int
    }

    /// Whether a candidate has been handed out and not yet reported back.
    pub closed spec fn pending_spec(&self) -> bool {
        self.pending
    }

    /// How many considered candidates fell in the skip set.
    pub closed spec fn skipped_count(&self) -> int {
        self.skipped as int
    }

    /// How many candidates were successfully persisted.
    pub closed spec fn collected_count(&self) -> int {
        self.collected as int
    }

    /// The per-language accumulator: share mass and contributor count.
    pub closed spec fn accum_map(&self) -> Map<Seq<char>, (int, int)> {
        self.accum@
    }

    /// The total accumulated share mass.
    pub closed spec fn mass(&self) -> int {
        self.accum.mass()
    }

    #[verifier::type_invariant]
    closed spec fn wf(self) -> bool {
        &&& self.idx <= self.candidates@.len()
        &&& self.skipped as int == count_skipped(self.candidates@, self.skip_ids@, self.idx as int)
        &&& self.collected + self.skipped <= self.idx
        &&& (self.pending ==> self.idx < self.candidates@.len() && !in_skip_set(
            self.skip_ids@,
            row_id(self.candidates@[self.idx as int]),
        ))
        &&& self.accum.folds() + self.skipped == self.idx
    }

    /// Starts a run over a fetched candidate set, dated to today.
    ///
    /// With no candidate set there is nothing meaningful to do: that fetch
    /// failure, and only it, fails the whole run.
    pub fn start(fetched: Option<Vec<OssInsightRow>>) -> (r: Result<
        CollectionRun,
        RunError,
    >)
        ensures
            r is Ok <==> fetched is Some,
            match r {
                Ok(run) => {
                    &&& run.candidates_spec() == fetched.unwrap()@
                    &&& run.skip_ids_spec() == Seq::<i64>::empty()
                    &&& run.processed() == 0
                    &&& !run.pending_spec()
                    &&& run.skipped_count() == 0
                    &&& run.collected_count() == 0
                    &&& run.accum_map() == Map::<Seq<char>, (int, int)>::empty()
                    &&& run.mass() == 0
                },
                Err(e) => e is TrendFetchFailed,
            },
    {
        match fetched {
            Some(candidates) => Ok(
                CollectionRun {
                    date: today_utc(),
                    candidates,
                    skip_ids: Vec::new(),
                    idx: 0,
                    pending: false,
                    skipped: 0,
                    collected: 0,
                    accum: LanguageAccumulator::new(),
                },
            ),
            None => Err(RunError::TrendFetchFailed),
        }
    }

    /// Installs the skip set — the identifiers that already carry a summary
    /// for the run's date — before the walk begins.
    pub fn set_skip_ids(&mut self, ids: Vec<i64>)
        requires
            old(self).processed() == 0,
            !old(self).pending_spec(),
        ensures
            final(self).skip_ids_spec() == ids@,
            final(self).candidates_spec() == old(self).candidates_spec(),
            final(self).date_spec() == old(self).date_spec(),
            final(self).processed() == 0,
            !final(self).pending_spec(),
            final(self).skipped_count() == old(self).skipped_count(),
            final(self).collected_count() == old(self).collected_count(),
            final(self).accum_map() == old(self).accum_map(),
            final(self).mass() == old(self).mass(),
    {
        proof {
            use_type_invariant(&*self);
        }
        self.skip_ids = ids;
    }

    /// How many candidates have been considered so far.
    pub fn processed_so_far(&self) -> (n: usize)
        ensures
            n as int == self.processed(),
    {
        self.idx
    }

    /// The initial progress event: the run is live, nothing processed yet.
    pub fn initial_status(&self) -> (s: CollectionStatus)
        ensures
            s.is_running,
            s.current_count == 0,
            s.total_count == self.candidates_spec().len(),
            s.message@ == spec_fetched_message(self.candidates_spec().len() as nat),
    {
        CollectionStatus {
            is_running: true,
            message: fetched_message(self.candidates.len()),
            current_count: 0,
            total_count: self.candidates.len(),
        }
    }

    pub fn total(&self) -> (n: usize)
        ensures
            n == self.candidates_spec().len(),
    {
        self.candidates.len()
    }

    pub fn date(&self) -> (d: &String)
        ensures
            d@ == self.date_spec(),
    {
        &self.date
    }

    pub fn is_pending(&self) -> (b: bool)
        ensures
            b == self.pending_spec(),
    {
        self.pending
    }

    pub fn collected(&self) -> (n: usize)
        ensures
            n as int == self.collected_count(),
    {
        self.collected
    }

    pub fn candidate(&self, i: usize) -> (r: &OssInsightRow)
        requires
            i < self.candidates_spec().len(),
        ensures
            *r == self.candidates_spec()[i as int],
    {
        &self.candidates[i]
    }

    /// Decides what to do with the next candidate: hand it out for
    /// enrichment, pass over it because it already has a summary today, or
    /// declare the walk over. A candidate in the skip set is never handed
    /// out.
    pub fn advance(&mut self) -> (step: RunStep)
        requires
            !old(self).pending_spec(),
        ensures
            final(self).candidates_spec() == old(self).candidates_spec(),
            final(self).skip_ids_spec() == old(self).skip_ids_spec(),
            final(self).date_spec() == old(self).date_spec(),
            final(self).collected_count() == old(self).collected_count(),
            final(self).accum_map() == old(self).accum_map(),
            final(self).mass() == old(self).mass(),
            match step {
                RunStep::Process(i) => {
                    &&& i as int == old(self).processed()
                    &&& i < old(self).candidates_spec().len()
                    &&& !in_skip_set(
                        old(self).skip_ids_spec(),
                        row_id(old(self).candidates_spec()[i as int]),
                    )
                    &&& final(self).pending_spec()
                    &&& final(self).processed() == old(self).processed()
                    &&& final(self).skipped_count() == old(self).skipped_count()
                },
                RunStep::Skip(i) => {
                    &&& i as int == old(self).processed()
                    &&& i < old(self).candidates_spec().len()
                    &&& in_skip_set(
                        old(self).skip_ids_spec(),
                        row_id(old(self).candidates_spec()[i as int]),
                    )
                    &&& !final(self).pending_spec()
                    &&& final(self).processed() == old(self).processed() + 1
                    &&& final(self).skipped_count() == old(self).skipped_count() + 1
                },
                RunStep::Finished => {
                    &&& old(self).processed() == old(self).candidates_spec().len()
                    &&& *final(self) == *old(self)
                },
            },
    {
        proof {
            use_type_invariant(&*self);
        }
        let i = self.idx;
        if i == self.candidates.len() {
            return RunStep::Finished;
        }
        let id = parse_id_or_zero(self.candidates[i].repo_id.as_str());
        if contains_id(&self.skip_ids, id) {
            let mut tmp = Self::shell();
            core::mem::swap(self, &mut tmp);
            let CollectionRun { date, candidates, skip_ids, idx, pending: _, skipped, collected, accum } =
                tmp;
            let mut next = CollectionRun {
                date,
                candidates,
                skip_ids,
                idx: idx + 1,
                pending: false,
                skipped: skipped + 1,
                collected,
                accum,
            };
            core::mem::swap(self, &mut next);
            RunStep::Skip(i)
        } else {
            self.pending = true;
            RunStep::Process(i)
        }
    }

    /// Builds the durable record for the candidate at `i` from its row, the
    /// run's date, and whatever summary the summarizer produced.
    pub fn make_record(&self, i: usize, summary: Option<String>) -> (rec: TrendingRepo)
        requires
            i < self.candidates_spec().len(),
        ensures
            record_matches(self.candidates_spec()[i as int], self.date_spec(), summary, rec),
    {
        let row = &self.candidates[i];
        TrendingRepo {
            date: self.date.clone(),
            repo_id: parse_id_or_zero(row.repo_id.as_str()),
            repo_name: row.repo_name.clone(),
            primary_language: clone_opt(&row.primary_language),
            description: clone_opt(&row.description),
            korean_summary: summary,
            stars: parse_metric(&row.stars),
            forks: parse_metric(&row.forks),
            pull_requests: parse_metric(&row.pull_requests),
            pushes: parse_metric(&row.pushes),
            total_score: clone_opt(&row.total_score),
            contributor_logins: clone_opt(&row.contributor_logins),
            collection_names: clone_opt(&row.collection_names),
        }
    }

    /// Builds the per-language store rows for the candidate at `i`.
    pub fn language_rows(&self, i: usize, langs: &LanguageBreakdown) -> (rows: Vec<RepoLanguage>)
        requires
            i < self.candidates_spec().len(),
        ensures
            rows@.len() == langs@.len(),
            forall|k: int| 0 <= k < rows@.len() ==> {
                &&& (#[trigger] rows@[k]).date@ == self.date_spec()
                &&& rows@[k].repo_id as int == row_id(self.candidates_spec()[i as int])
                &&& rows@[k].language@ == langs@[k].language@
                &&& rows@[k].percentage_bp == langs@[k].percentage_bp
            },
    {
        let repo_id = parse_id_or_zero(self.candidates[i].repo_id.as_str());
        let n = langs.len();
        let mut rows: Vec<RepoLanguage> = Vec::new();
        let mut k: usize = 0;
        while k < n
            invariant
                0 <= k <= n,
                n == langs@.len(),
                repo_id as int == row_id(self.candidates_spec()[i as int]),
                i < self.candidates_spec().len(),
                rows@.len() == k,
                forall|t: int| 0 <= t < k ==> {
                    &&& (#[trigger] rows@[t]).date@ == self.date_spec()
                    &&& rows@[t].repo_id as int == row_id(self.candidates_spec()[i as int])
                    &&& rows@[t].language@ == langs@[t].language@
                    &&& rows@[t].percentage_bp == langs@[t].percentage_bp
                },
            decreases n - k,
        {
            let e = langs.get(k);
            rows.push(
                RepoLanguage {
                    date: self.date.clone(),
                    repo_id,
                    language: e.language.clone(),
                    percentage_bp: e.percentage_bp,
                },
            );
            k = k + 1;
        }
        rows
    }

    /// Takes one candidate's outcome back: folds its language shares into
    /// the accumulator, counts the persist if it succeeded, moves the cursor
    /// on, and emits the progress event for this candidate. None of it
    /// depends on whether a summary was obtained.
    pub fn complete(&mut self, langs: &LanguageBreakdown, persisted: bool) -> (status:
        CollectionStatus)
        requires
            old(self).pending_spec(),
        ensures
            final(self).candidates_spec() == old(self).candidates_spec(),
            final(self).skip_ids_spec() == old(self).skip_ids_spec(),
            final(self).date_spec() == old(self).date_spec(),
            !final(self).pending_spec(),
            final(self).processed() == old(self).processed() + 1,
            final(self).skipped_count() == old(self).skipped_count(),
            final(self).collected_count() == old(self).collected_count() + if persisted {
                1int
            } else {
                0int
            },
            final(self).accum_map() == spec_fold(old(self).accum_map(), langs@),
            final(self).mass() == old(self).mass() + sum_shares(langs@),
            status.is_running,
            status.current_count as int == old(self).processed() + 1,
            status.total_count == old(self).candidates_spec().len(),
            status.message@ == spec_processed_message(
                old(self).candidates_spec()[old(self).processed()].repo_name@,
            ),
    {
        proof {
            use_type_invariant(&*self);
        }
        let mut tmp = Self::shell();
        core::mem::swap(self, &mut tmp);
        let CollectionRun {
            date,
            candidates,
            skip_ids,
            idx,
            pending: _,
            skipped,
            collected,
            mut accum,
        } = tmp;
        let total = candidates.len();
        accum.fold_breakdown(langs);
        let collected_now = if persisted {
            collected + 1
        } else {
            collected
        };
        let status = CollectionStatus {
            is_running: true,
            message: processed_message(&candidates[idx].repo_name),
            current_count: idx + 1,
            total_count: total,
        };
        let mut next = CollectionRun {
            date,
            candidates,
            skip_ids,
            idx: idx + 1,
            pending: false,
            skipped,
            collected: collected_now,
            accum,
        };
        core::mem::swap(self, &mut next);
        status
    }

    /// Closes the run: normalizes the accumulated language mass into trend
    /// rows — none at all when the mass is zero — and emits the terminal
    /// progress event, which always reports the run stopped with the full
    /// candidate count, however many candidates failed.
    pub fn finish(&self) -> (r: (Vec<LanguageTrend>, CollectionStatus, usize))
        requires
            self.processed() == self.candidates_spec().len(),
            !self.pending_spec(),
        ensures
            r.2 as int == self.collected_count(),
            r.2 as int <= self.candidates_spec().len(),
            r.2 as int <= self.candidates_spec().len() - self.skipped_count(),
            self.skipped_count() >= 0,
            self.mass() == 0 ==> r.0@.len() == 0,
            self.mass() > 0 ==> trends_match(self.accum_map(), self.mass(), self.date_spec(), r.0@),
            !r.1.is_running,
            r.1.current_count == self.candidates_spec().len(),
            r.1.total_count == self.candidates_spec().len(),
            r.1.message@ == spec_complete_message(self.collected_count() as nat),
            self.collected_count() + self.skipped_count() <= self.candidates_spec().len(),
            self.skipped_count() == count_skipped(
                self.candidates_spec(),
                self.skip_ids_spec(),
                self.candidates_spec().len() as int,
            ),
    {
        proof {
            use_type_invariant(self);
        }
        let trends = self.accum.finalize(self.date.as_str());
        let status = CollectionStatus {
            is_running: false,
            message: complete_message(self.collected),
            current_count: self.candidates.len(),
            total_count: self.candidates.len(),
        };
        (trends, status, self.collected)
    }

    fn shell() -> (r: CollectionRun)
        ensures
            !r.pending_spec(),
    {
        CollectionRun {
            date: String::new(),
            candidates: Vec::new(),
            skip_ids: Vec::new(),
            idx: 0,
            pending: false,
            skipped: 0,
            collected: 0,
            accum: LanguageAccumulator::new(),
        }
    }
}

/// Whether `id` occurs in the skip set.
fn contains_id(ids: &Vec<i64>, id: i64) -> (b: bool)
    ensures
        b == in_skip_set(ids@, id as int),
{
    let n = ids.len();
    let mut k: usize = 0;
    while k < n
        invariant
            0 <= k <= n,
            n == ids@.len(),
            forall|t: int| 0 <= t < k ==> (#[trigger] ids@[t]) != id,
        decreases n - k,
    {
        if ids[k] == id {
            return true;
        }
        k = k + 1;
    }
    false
}

fn clone_opt(o: &Option<String>) -> (r: Option<String>)
    ensures
        opt_view_eq(r, *o),
{
    match o {
        None => None,
        Some(s) => Some(s.clone()),
    }
}

fn parse_metric(o: &Option<String>) -> (r: Option<i32>)
    ensures
        metric_matches(*o, r),
{
    match o {
        None => None,
        Some(s) => parse_i32(s.as_str()),
    }
}

proof fn lemma_count_skipped_nonneg(c: Seq<OssInsightRow>, skips: Seq<i64>, n: int)
    ensures
        count_skipped(c, skips, n) >= 0,
    decreases n,
{
    if n > 0 {
        lemma_count_skipped_nonneg(c, skips, n - 1);
    }
}

proof fn lemma_count_skipped_mono(
    c: Seq<OssInsightRow>,
    small: Seq<i64>,
    big: Seq<i64>,
    n: int,
)
    requires
        forall|id: int| in_skip_set(small, id) ==> in_skip_set(big, id),
    ensures
        count_skipped(c, small, n) <= count_skipped(c, big, n),
    decreases n,
{
    if n > 0 {
        lemma_count_skipped_mono(c, small, big, n - 1);
    }
}

proof fn lemma_count_skipped_extra(
    c: Seq<OssInsightRow>,
    small: Seq<i64>,
    big: Seq<i64>,
    w: int,
    n: int,
)
    requires
        forall|id: int| in_skip_set(small, id) ==> in_skip_set(big, id),
        0 <= w < n,
        in_skip_set(big, row_id(c[w])),
        !in_skip_set(small, row_id(c[w])),
    ensures
        count_skipped(c, big, n) >= count_skipped(c, small, n) + 1,
    decreases n,
{
    if n - 1 == w {
        lemma_count_skipped_mono(c, small, big, n - 1);
    } else {
        lemma_count_skipped_extra(c, small, big, w, n - 1);
    }
}

/// The number of candidates falling in the skip set is at least the skip
/// set's size, as long as the skip identifiers are distinct and each occurs
/// among the candidates.
proof fn lemma_count_skipped_at_least(c: Seq<OssInsightRow>, skips: Seq<i64>, n: int)
    requires
        n == c.len(),
        forall|a: int, b: int| 0 <= a < b < skips.len() ==> (#[trigger] skips[a])
            != (#[trigger] skips[b]),
        forall|k: int| 0 <= k < skips.len() ==> exists|i: int|
            0 <= i < c.len() && row_id(#[trigger] c[i]) == (#[trigger] skips[k]) as int,
    ensures
        count_skipped(c, skips, n) >= skips.len(),
    decreases skips.len(),
{
    if skips.len() == 0 {
        lemma_count_skipped_nonneg(c, skips, n);
    } else {
        let s = skips.last();
        let sub = skips.drop_last();
        assert(forall|a: int| 0 <= a < sub.len() ==> sub[a] == skips[a]);
        assert(forall|id: int| in_skip_set(sub, id) ==> in_skip_set(skips, id)) by {
            assert forall|id: int| in_skip_set(sub, id) implies in_skip_set(skips, id) by {
                let k = choose|k: int| 0 <= k < sub.len() && (#[trigger] sub[k]) == id;
                assert(skips[k] == id);
            }
        }
        assert forall|k: int| 0 <= k < sub.len() implies exists|i: int|
            0 <= i < c.len() && row_id(#[trigger] c[i]) == (#[trigger] sub[k]) as int by {
            assert(sub[k] == skips[k]);
            assert(exists|i: int| 0 <= i < c.len() && row_id(#[trigger] c[i])
                == (#[trigger] skips[k]) as int);
        }
        assert(!in_skip_set(sub, s as int)) by {
            if in_skip_set(sub, s as int) {
                let k = choose|k: int| 0 <= k < sub.len() && (#[trigger] sub[k]) == s as int;
                assert(skips[k] == skips[skips.len() - 1]);
            }
        }
        assert(exists|i: int| 0 <= i < c.len() && row_id(#[trigger] c[i])
            == (#[trigger] skips[skips.len() - 1]) as int);
        let w = choose|w: int| 0 <= w < c.len() && row_id(#[trigger] c[w]) == s as int;
        assert(in_skip_set(skips, row_id(c[w]))) by {
            assert(skips[skips.len() - 1] == s);
        }
        lemma_count_skipped_at_least(c, sub, n);
        lemma_count_skipped_extra(c, sub, skips, w, n);
    }
}

/// A run's success count never exceeds the candidate-set size less the skip
/// set's size, as long as the skip identifiers are distinct and each names a
/// candidate. (A skip identifier naming no candidate would make the
/// difference smaller than what any run could achieve, so those are left
/// out.)
pub proof fn lemma_success_bound(
    c: Seq<OssInsightRow>,
    skips: Seq<i64>,
    collected: int,
    skipped: int,
)
    requires
        collected + skipped <= c.len(),
        skipped == count_skipped(c, skips, c.len() as int),
        forall|a: int, b: int| 0 <= a < b < skips.len() ==> (#[trigger] skips[a])
            != (#[trigger] skips[b]),
        forall|k: int| 0 <= k < skips.len() ==> exists|i: int|
            0 <= i < c.len() && row_id(#[trigger] c[i]) == (#[trigger] skips[k]) as int,
    ensures
        collected <= c.len() - skips.len(),
{
    lemma_count_skipped_at_least(c, skips, c.len() as int);
}

/// A README or summarizer failure for one candidate degrades exactly one
/// thing: that candidate's stored summary. Two records built from the same
/// candidate and date agree on every other field, whatever summaries came
/// back; the run's counters and language accumulator take no summary at all.
pub proof fn lemma_summary_isolated(
    row: OssInsightRow,
    date: Seq<char>,
    s1: Option<String>,
    s2: Option<String>,
    r1: TrendingRepo,
    r2: TrendingRepo,
)
    requires
        record_matches(row, date, s1, r1),
        record_matches(row, date, s2, r2),
    ensures
        r1.date@ == r2.date@,
        r1.repo_id == r2.repo_id,
        r1.repo_name@ == r2.repo_name@,
        opt_view_eq(r1.primary_language, r2.primary_language),
        opt_view_eq(r1.description, r2.description),
        r1.stars == r2.stars,
        r1.forks == r2.forks,
        r1.pull_requests == r2.pull_requests,
        r1.pushes == r2.pushes,
        opt_view_eq(r1.total_score, r2.total_score),
        opt_view_eq(r1.contributor_logins, r2.contributor_logins),
        opt_view_eq(r1.collection_names, r2.collection_names),
        r1.korean_summary == s1,
        r2.korean_summary == s2,
{
}

fn fetched_message(n: usize) -> (s: String)
    ensures
        s@ == spec_fetched_message(n as nat),
{
    let mut s = String::from_str("Fetched ");
    let d = u64_to_dec(n as u64);
    s.append(d.as_str());
    s.append(" repos from OSS Insight");
    proof {
        assert(s@ =~= spec_fetched_message(n as nat));
    }
    s
}

fn processed_message(name: &String) -> (s: String)
    ensures
        s@ == spec_processed_message(name@),
{
    let mut s = String::from_str("Processed ");
    s.append(name.as_str());
    s
}

fn complete_message(n: usize) -> (s: String)
    ensures
        s@ == spec_complete_message(n as nat),
{
    let mut s = String::from_str("Collection complete. Collected ");
    let d = u64_to_dec(n as u64);
    s.append(d.as_str());
    s.append(" repos.");
    proof {
        assert(s@ =~= spec_complete_message(n as nat));
    }
    s
}

} // verus!
