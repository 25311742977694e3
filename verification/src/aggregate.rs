//! The run-wide language accumulator: per language, the total share mass and
//! the number of repositories that contributed, folded in one repository at a
//! time and normalized into per-day trend rows at the end of a run.

use vstd::prelude::*;
use vstd::arithmetic::div_mod::{
    lemma_div_is_ordered, lemma_div_multiples_vanish, lemma_div_pos_is_pos,
};
use vstd::arithmetic::mul::lemma_mul_inequality;
use vstd::string::StringSliceAdditionalSpecFns;
use crate::breakdown::{breakdown_wf, sum_shares, LanguageBreakdown};
use crate::models::{LanguageInfo, LanguageTrend};

verus! {

struct LangStat {
    language: String,
    sum_bp: u128,
    repo_count: usize,
}

/// Folding one repository's breakdown into the per-language totals:
/// each listed language gains that repository's share and one contributor.
pub open spec fn spec_fold(
    m: Map<Seq<char>, (int, int)>,
    langs: Seq<LanguageInfo>,
) -> Map<Seq<char>, (int, int)>
    decreases langs.len(),
{
    if langs.len() == 0 {
        m
    } else {
        let m1 = spec_fold(m, langs.drop_last());
        let e = langs.last();
        let prev: (int, int) = if m1.contains_key(e.language@) {
            m1[e.language@]
        } else {
            (0, 0)
        };
        m1.insert(e.language@, (prev.0 + e.percentage_bp, prev.1 + 1))
    }
}

/// The trend rows are exactly the accumulated languages, each normalized
/// against the total mass and dated to the run's date.
pub open spec fn trends_match(
    m: Map<Seq<char>, (int, int)>,
    mass: int,
    date: Seq<char>,
    out: Seq<LanguageTrend>,
) -> bool {
    &&& (forall|i: int|
        0 <= i < out.len() ==> {
            &&& m.contains_key((#[trigger] out[i]).language@)
            &&& out[i].repo_count == m[out[i].language@].1
            &&& out[i].normalized_percentage_bp == m[out[i].language@].0 * 10000 / mass
            &&& out[i].date@ == date
        })
    &&& (forall|k: Seq<char>|
        #[trigger] m.contains_key(k) ==> exists|i: int|
            0 <= i < out.len() && (#[trigger] out[i]).language@ == k)
    &&& (forall|i: int, j: int|
        0 <= i < j < out.len() ==> (#[trigger] out[i]).language@ != (#[trigger] out[j]).language@)
}

spec fn entries_map(s: Seq<LangStat>) -> Map<Seq<char>, (int, int)>
    decreases s.len(),
{
    if s.len() == 0 {
        Map::empty()
    } else {
        entries_map(s.drop_last()).insert(
            s.last().language@,
            (s.last().sum_bp as int, s.last().repo_count as int),
        )
    }
}

spec fn total_sum(s: Seq<LangStat>) -> int
    decreases s.len(),
{
    if s.len() == 0 {
        0
    } else {
        total_sum(s.drop_last()) + s.last().sum_bp
    }
}

spec fn distinct_stat_languages(s: Seq<LangStat>) -> bool {
    forall|i: int, j: int|
        0 <= i < j < s.len() ==> (#[trigger] s[i]).language@ != (#[trigger] s[j]).language@
}

spec fn contains_language(s: Seq<LanguageInfo>, lang: Seq<char>) -> bool {
    exists|i: int| 0 <= i < s.len() && (#[trigger] s[i]).language@ == lang
}

/// Accumulates per-language share mass and contributor counts over one run.
pub struct LanguageAccumulator {
    entries: Vec<LangStat>,
    folds: usize,
}

impl View for LanguageAccumulator {
    type V = Map<Seq<char>, (int, int)>;

    closed spec fn view(&self) -> Map<Seq<char>, (int, int)> {
        entries_map(self.entries@)
    }
}

impl LanguageAccumulator {
    /// Total accumulated percentage mass, over all languages and repositories.
    pub closed spec fn mass(&self) -> int {
        total_sum(self.entries@)
    }

    /// How many breakdowns have been folded in.
    pub closed spec fn folds(&self) -> int {
        self.folds as int
    }

    #[verifier::type_invariant]
    closed spec fn wf(self) -> bool {
        &&& distinct_stat_languages(self.entries@)
        &&& (forall|i: int| 0 <= i < self.entries@.len()
            ==> (#[trigger] self.entries@[i]).repo_count <= self.folds)
        &&& total_sum(self.entries@) <= 10000 * self.folds
    }

    /// An empty accumulator: no languages, no mass.
    pub fn new() -> (r: LanguageAccumulator)
        ensures
            r@ == Map::<Seq<char>, (int, int)>::empty(),
            r.mass() == 0,
            r.folds() == 0,
    {
        LanguageAccumulator { entries: Vec::new(), folds: 0 }
    }

    /// Folds one repository's breakdown into the totals.
    pub fn fold_breakdown(&mut self, langs: &LanguageBreakdown)
        requires
            old(self).folds() < usize::MAX,
        ensures
            final(self)@ == spec_fold(old(self)@, langs@),
            final(self).mass() == old(self).mass() + sum_shares(langs@),
            final(self).folds() == old(self).folds() + 1,
    {
        proof {
            use_type_invariant(&*self);
            use_type_invariant(langs);
        }
        let mut tmp = LanguageAccumulator { entries: Vec::new(), folds: 0 };
        core::mem::swap(self, &mut tmp);
        let LanguageAccumulator { mut entries, folds } = tmp;
        let ghost m0 = entries_map(entries@);
        let ghost mass0 = total_sum(entries@);
        let ghost lseq = langs@;
        let n = langs.len();
        let mut t: usize = 0;
        while t < n
            invariant
                0 <= t <= n,
                n == lseq.len(),
                langs@ == lseq,
                breakdown_wf(lseq),
                folds < usize::MAX,
                distinct_stat_languages(entries@),
                forall|i: int| 0 <= i < entries@.len()
                    ==> (#[trigger] entries@[i]).repo_count <= folds + 1,
                forall|i: int| 0 <= i < entries@.len()
                    && !contains_language(lseq.take(t as int), (#[trigger] entries@[i]).language@)
                    ==> entries@[i].repo_count <= folds,
                entries_map(entries@) == spec_fold(m0, lseq.take(t as int)),
                total_sum(entries@) == mass0 + sum_shares(lseq.take(t as int)),
                mass0 + sum_shares(lseq.take(t as int)) <= 10000 * folds + 10000,
                mass0 <= 10000 * folds,
            decreases n - t,
        {
            let li = langs.get(t);
            proof {
                assert(lseq.take(t + 1).drop_last() =~= lseq.take(t as int));
                assert(lseq.take(t + 1).last() == lseq[t as int]);
                crate::breakdown::lemma_sum_shares_prefix_le(lseq, t + 1);
            }
            match find_language(&entries, &li.language) {
                Some(j) => {
                    proof {
                        lemma_entries_map_index(entries@, j as int);
                        lemma_stat_le_total(entries@, j as int);
                        // this language was not folded yet in this pass
                        assert(!contains_language(lseq.take(t as int), entries@[j as int].language@))
                            by {
                            if contains_language(lseq.take(t as int), entries@[j as int].language@) {
                                let w = choose|w: int|
                                    0 <= w < lseq.take(t as int).len()
                                        && (#[trigger] lseq.take(t as int)[w]).language@
                                        == entries@[j as int].language@;
                                assert(lseq[w] == lseq.take(t as int)[w]);
                                assert(lseq[w].language@ != lseq[t as int].language@);
                            }
                        }
                    }
                    let updated = LangStat {
                        language: entries[j].language.clone(),
                        sum_bp: entries[j].sum_bp + li.percentage_bp as u128,
                        repo_count: entries[j].repo_count + 1,
                    };
                    let ghost old_entries = entries@;
                    proof {
                        lemma_entries_map_update(old_entries, j as int, updated);
                        lemma_total_sum_update(old_entries, j as int, updated);
                    }
                    entries.set(j, updated);
                    proof {
                        assert forall|i: int| 0 <= i < entries@.len()
                            && !contains_language(lseq.take(t + 1),
                                (#[trigger] entries@[i]).language@)
                            implies entries@[i].repo_count <= folds by {
                            if i != j {
                                assert(entries@[i] == old_entries[i]);
                                if contains_language(lseq.take(t as int), entries@[i].language@) {
                                    let w = choose|w: int|
                                        0 <= w < lseq.take(t as int).len()
                                            && (#[trigger] lseq.take(t as int)[w]).language@
                                            == entries@[i].language@;
                                    assert(lseq.take(t + 1)[w] == lseq.take(t as int)[w]);
                                }
                            } else {
                                assert(lseq.take(t + 1)[t as int].language@
                                    == entries@[j as int].language@);
                            }
                        }
                    }
                },
                None => {
                    let stat = LangStat {
                        language: li.language.clone(),
                        sum_bp: li.percentage_bp as u128,
                        repo_count: 1,
                    };
                    let ghost old_entries = entries@;
                    proof {
                        assert(!entries_map(old_entries).contains_key(li.language@)) by {
                            lemma_entries_map_domain(old_entries, li.language@);
                        }
                        assert(old_entries.push(stat).drop_last() =~= old_entries);
                    }
                    entries.push(stat);
                    proof {
                        assert forall|i: int| 0 <= i < entries@.len()
                            && !contains_language(lseq.take(t + 1),
                                (#[trigger] entries@[i]).language@)
                            implies entries@[i].repo_count <= folds by {
                            if i < old_entries.len() {
                                assert(entries@[i] == old_entries[i]);
                                if contains_language(lseq.take(t as int), entries@[i].language@) {
                                    let w = choose|w: int|
                                        0 <= w < lseq.take(t as int).len()
                                            && (#[trigger] lseq.take(t as int)[w]).language@
                                            == entries@[i].language@;
                                    assert(lseq.take(t + 1)[w] == lseq.take(t as int)[w]);
                                }
                            } else {
                                assert(lseq.take(t + 1)[t as int].language@
                                    == entries@[i].language@);
                            }
                        }
                        assert forall|i: int, j2: int| 0 <= i < j2 < entries@.len() implies
                            (#[trigger] entries@[i]).language@ != (#[trigger] entries@[j2]).language@
                            by {
                            if j2 == entries@.len() - 1 {
                                assert(entries@[i] == old_entries[i]);
                            }
                        }
                    }
                },
            }
            t = t + 1;
        }
        proof {
            assert(lseq.take(n as int) =~= lseq);
        }
        let mut result = LanguageAccumulator { entries, folds: folds + 1 };
        core::mem::swap(self, &mut result);
    }

    /// Normalizes the accumulated totals into per-day trend rows.
    ///
    /// With zero total mass there is nothing to normalize and no row is
    /// produced; otherwise every accumulated language yields one row whose
    /// share is rescaled against the total mass.
    pub fn finalize(&self, date: &str) -> (r: Vec<LanguageTrend>)
        ensures
            self.mass() == 0 ==> r@.len() == 0,
            self.mass() > 0 ==> trends_match(self@, self.mass(), date@, r@),
    {
        proof {
            use_type_invariant(self);
        }
        let n = self.entries.len();

        // total percentage mass over every language and repository
        let mut mass: u128 = 0;
        let mut i: usize = 0;
        proof {
            lemma_total_sum_nonneg(self.entries@);
        }
        while i < n
            invariant
                0 <= i <= n,
                n == self.entries@.len(),
                mass == total_sum(self.entries@.take(i as int)),
                total_sum(self.entries@.take(i as int)) <= total_sum(self.entries@),
                total_sum(self.entries@) <= 10000 * (usize::MAX as int),
            decreases n - i,
        {
            proof {
                assert(self.entries@.take(i + 1).drop_last() =~= self.entries@.take(i as int));
                lemma_total_sum_prefix_le(self.entries@, i + 1);
            }
            mass = mass + self.entries[i].sum_bp;
            i = i + 1;
        }
        proof {
            assert(self.entries@.take(n as int) =~= self.entries@);
        }

        if mass == 0 {
            return Vec::new();
        }

        let ghost massi: int = mass as int;
        let mut out: Vec<LanguageTrend> = Vec::new();
        let mut i: usize = 0;
        while i < n
            invariant
                0 <= i <= n,
                n == self.entries@.len(),
                massi == total_sum(self.entries@) > 0,
                mass as int == massi,
                massi <= 10000 * (usize::MAX as int),
                distinct_stat_languages(self.entries@),
                out@.len() == i,
                forall|a: int| 0 <= a < i ==> {
                    &&& (#[trigger] out@[a]).language@ == self.entries@[a].language@
                    &&& out@[a].repo_count == self.entries@[a].repo_count
                    &&& out@[a].normalized_percentage_bp as int
                        == self.entries@[a].sum_bp * 10000 / massi
                    &&& out@[a].date@ == date@
                },
            decreases n - i,
        {
            proof {
                lemma_stat_le_total(self.entries@, i as int);
                lemma_normalized_in_range(self.entries@[i as int].sum_bp as int, massi);
            }
            let e = &self.entries[i];
            let normalized128: u128 = e.sum_bp * 10000 / mass;
            let trend = LanguageTrend {
                date: date.to_owned(),
                language: e.language.clone(),
                normalized_percentage_bp: normalized128 as u32,
                repo_count: e.repo_count,
            };
            out.push(trend);
            i = i + 1;
        }
        proof {
            assert forall|a: int| 0 <= a < out@.len() implies {
                &&& self@.contains_key((#[trigger] out@[a]).language@)
                &&& out@[a].repo_count == self@[out@[a].language@].1
                &&& out@[a].normalized_percentage_bp == self@[out@[a].language@].0 * 10000 / massi
                &&& out@[a].date@ == date@
            } by {
                lemma_entries_map_index(self.entries@, a);
            }
            assert forall|k: Seq<char>| #[trigger] self@.contains_key(k) implies exists|a: int|
                0 <= a < out@.len() && (#[trigger] out@[a]).language@ == k by {
                lemma_entries_map_domain(self.entries@, k);
                let j = choose|j: int|
                    0 <= j < self.entries@.len() && (#[trigger] self.entries@[j]).language@ == k;
                assert(out@[j].language@ == k);
            }
        }
        out
    }
}

/// Finds the accumulator entry for a language, if any.
fn find_language(entries: &Vec<LangStat>, lang: &String) -> (r: Option<usize>)
    ensures
        match r {
            Some(j) => j < entries@.len() && entries@[j as int].language@ == lang@,
            None => forall|j: int| 0 <= j < entries@.len()
                ==> (#[trigger] entries@[j]).language@ != lang@,
        },
{
    let n = entries.len();
    let mut j: usize = 0;
    while j < n
        invariant
            0 <= j <= n,
            n == entries@.len(),
            forall|k: int| 0 <= k < j ==> (#[trigger] entries@[k]).language@ != lang@,
        decreases n - j,
    {
        if entries[j].language == *lang {
            return Some(j);
        }
        j = j + 1;
    }
    None
}

proof fn lemma_total_sum_nonneg(s: Seq<LangStat>)
    ensures
        total_sum(s) >= 0,
    decreases s.len(),
{
    if s.len() > 0 {
        lemma_total_sum_nonneg(s.drop_last());
    }
}

proof fn lemma_total_sum_prefix_le(s: Seq<LangStat>, i: int)
    requires
        0 <= i <= s.len(),
    ensures
        total_sum(s.take(i)) <= total_sum(s),
    decreases s.len() - i,
{
    if i < s.len() {
        lemma_total_sum_prefix_le(s, i + 1);
        assert(s.take(i + 1).drop_last() =~= s.take(i));
    } else {
        assert(s.take(i) =~= s);
    }
}

/// One language's accumulated share never exceeds the total mass.
proof fn lemma_stat_le_total(s: Seq<LangStat>, j: int)
    requires
        0 <= j < s.len(),
    ensures
        s[j].sum_bp <= total_sum(s),
    decreases s.len(),
{
    if j == s.len() - 1 {
        lemma_total_sum_nonneg(s.drop_last());
    } else {
        lemma_stat_le_total(s.drop_last(), j);
        assert(s.drop_last()[j] == s[j]);
    }
}

/// A normalized share is a valid part of a whole.
proof fn lemma_normalized_in_range(sum: int, mass: int)
    requires
        mass > 0,
        0 <= sum <= mass,
    ensures
        0 <= sum * 10000 / mass <= 10000,
{
    lemma_mul_inequality(sum, mass, 10000);
    lemma_div_is_ordered(sum * 10000, mass * 10000, mass);
    lemma_div_multiples_vanish(10000, mass);
    lemma_div_pos_is_pos(sum * 10000, mass);
}

/// Updating an entry in place rewrites exactly its key in the map view.
proof fn lemma_entries_map_update(s: Seq<LangStat>, j: int, e: LangStat)
    requires
        distinct_stat_languages(s),
        0 <= j < s.len(),
        e.language@ == s[j].language@,
    ensures
        entries_map(s.update(j, e)) == entries_map(s).insert(
            e.language@,
            (e.sum_bp as int, e.repo_count as int),
        ),
    decreases s.len(),
{
    if j == s.len() - 1 {
        assert(s.update(j, e).drop_last() =~= s.drop_last());
        assert(s.update(j, e).last() == e);
        assert(entries_map(s.drop_last()).insert(
            s.last().language@,
            (s.last().sum_bp as int, s.last().repo_count as int),
        ).insert(e.language@, (e.sum_bp as int, e.repo_count as int)) =~= entries_map(
            s.drop_last(),
        ).insert(e.language@, (e.sum_bp as int, e.repo_count as int)));
    } else {
        assert(s.update(j, e).drop_last() =~= s.drop_last().update(j, e));
        assert(s.update(j, e).last() == s.last());
        assert(distinct_stat_languages(s.drop_last())) by {
            assert(forall|a: int| 0 <= a < s.len() - 1 ==> s.drop_last()[a] == s[a]);
        }
        assert(s.drop_last()[j] == s[j]);
        lemma_entries_map_update(s.drop_last(), j, e);
        assert(s.last().language@ != e.language@);
        assert(entries_map(s.drop_last()).insert(
            e.language@,
            (e.sum_bp as int, e.repo_count as int),
        ).insert(s.last().language@, (s.last().sum_bp as int, s.last().repo_count as int))
            =~= entries_map(s.drop_last()).insert(
            s.last().language@,
            (s.last().sum_bp as int, s.last().repo_count as int),
        ).insert(e.language@, (e.sum_bp as int, e.repo_count as int)));
    }
}

proof fn lemma_total_sum_update(s: Seq<LangStat>, j: int, e: LangStat)
    requires
        0 <= j < s.len(),
    ensures
        total_sum(s.update(j, e)) == total_sum(s) - s[j].sum_bp + e.sum_bp,
    decreases s.len(),
{
    if j == s.len() - 1 {
        assert(s.update(j, e).drop_last() =~= s.drop_last());
        assert(s.update(j, e).last() == e);
    } else {
        assert(s.update(j, e).drop_last() =~= s.drop_last().update(j, e));
        assert(s.update(j, e).last() == s.last());
        assert(s.drop_last()[j] == s[j]);
        lemma_total_sum_update(s.drop_last(), j, e);
    }
}

/// An entry's key is in the map view with exactly that entry's totals.
proof fn lemma_entries_map_index(s: Seq<LangStat>, j: int)
    requires
        distinct_stat_languages(s),
        0 <= j < s.len(),
    ensures
        entries_map(s).contains_key(s[j].language@),
        entries_map(s)[s[j].language@] == (s[j].sum_bp as int, s[j].repo_count as int),
    decreases s.len(),
{
    if j < s.len() - 1 {
        assert(distinct_stat_languages(s.drop_last())) by {
            assert(forall|a: int| 0 <= a < s.len() - 1 ==> s.drop_last()[a] == s[a]);
        }
        assert(s.drop_last()[j] == s[j]);
        lemma_entries_map_index(s.drop_last(), j);
        assert(s.last().language@ != s[j].language@);
    }
}

/// A key in the map view names some entry.
proof fn lemma_entries_map_domain(s: Seq<LangStat>, k: Seq<char>)
    ensures
        entries_map(s).contains_key(k) ==> exists|j: int|
            0 <= j < s.len() && (#[trigger] s[j]).language@ == k,
    decreases s.len(),
{
    if s.len() > 0 {
        lemma_entries_map_domain(s.drop_last(), k);
        if entries_map(s).contains_key(k) {
            if s.last().language@ == k {
                assert(s[s.len() - 1].language@ == k);
            } else {
                let j = choose|j: int|
                    0 <= j < s.drop_last().len() && (#[trigger] s.drop_last()[j]).language@ == k;
                assert(s[j].language@ == k);
            }
        }
    }
}

} // verus!
