//! Per-repository language breakdown: byte counts become shares in basis
//! points, entries under a threshold are dropped, and the rest are ordered
//! by descending share.

use vstd::prelude::*;
use vstd::arithmetic::div_mod::{
    lemma_div_is_ordered, lemma_div_multiples_vanish, lemma_div_pos_is_pos,
    lemma_fundamental_div_mod, lemma_mod_bound,
};
use vstd::arithmetic::mul::lemma_mul_inequality;
use crate::models::LanguageInfo;

verus! {

/// Total byte count over a list of (language, bytes) pairs.
pub open spec fn sum_bytes(s: Seq<(String, u64)>) -> int
    decreases s.len(),
{
    if s.len() == 0 {
        0
    } else {
        sum_bytes(s.drop_last()) + s.last().1
    }
}

/// No language name occurs twice.
pub open spec fn distinct_languages(s: Seq<(String, u64)>) -> bool {
    forall|i: int, j: int| 0 <= i < j < s.len() ==> (#[trigger] s[i]).0@ != (#[trigger] s[j]).0@
}

/// The share, in basis points, of `bytes` out of `total` measured bytes.
pub open spec fn share_of(bytes: u64, total: int) -> int {
    bytes * 10000 / total
}

/// Total share over a breakdown's entries.
pub open spec fn sum_shares(s: Seq<LanguageInfo>) -> int
    decreases s.len(),
{
    if s.len() == 0 {
        0
    } else {
        sum_shares(s.drop_last()) + s.last().percentage_bp
    }
}

/// Entries are ordered by nonincreasing share.
pub open spec fn sorted_desc(s: Seq<LanguageInfo>) -> bool {
    forall|i: int, j: int|
        0 <= i < j < s.len() ==> (#[trigger] s[i]).percentage_bp >= (#[trigger] s[j]).percentage_bp
}

/// No entry's language occurs twice.
pub open spec fn distinct_entry_languages(s: Seq<LanguageInfo>) -> bool {
    forall|i: int, j: int|
        0 <= i < j < s.len() ==> (#[trigger] s[i]).language@ != (#[trigger] s[j]).language@
}

/// What every breakdown satisfies: ordered, duplicate-free, every share a
/// valid part of a whole, and the shares together at most the whole.
pub open spec fn breakdown_wf(s: Seq<LanguageInfo>) -> bool {
    &&& sorted_desc(s)
    &&& distinct_entry_languages(s)
    &&& (forall|i: int| 0 <= i < s.len() ==> (#[trigger] s[i]).percentage_bp <= 10000)
    &&& sum_shares(s) <= 10000
}

/// The entries of `out` are exactly the input languages whose share reaches
/// `threshold_bp`, each bearing its computed share.
pub open spec fn breakdown_matches(
    pairs: Seq<(String, u64)>,
    threshold_bp: u32,
    total: int,
    out: Seq<LanguageInfo>,
) -> bool {
    &&& (forall|i: int|
        0 <= i < out.len() ==> exists|j: int|
            0 <= j < pairs.len() && (#[trigger] pairs[j]).0@ == (#[trigger] out[i]).language@
                && out[i].percentage_bp == share_of(pairs[j].1, total))
    &&& (forall|i: int| 0 <= i < out.len() ==> (#[trigger] out[i]).percentage_bp >= threshold_bp)
    &&& (forall|j: int|
        0 <= j < pairs.len() && share_of((#[trigger] pairs[j]).1, total) >= threshold_bp
            ==> exists|i: int| 0 <= i < out.len() && (#[trigger] out[i]).language@ == pairs[j].0@)
}

/// An ordered list of language shares for one repository, filtered to a
/// threshold and sorted by descending share.
pub struct LanguageBreakdown {
    entries: Vec<LanguageInfo>,
}

impl View for LanguageBreakdown {
    type V = Seq<LanguageInfo>;

    closed spec fn view(&self) -> Seq<LanguageInfo> {
        self.entries@
    }
}

impl LanguageBreakdown {
    /// Every value of this type is well formed.
    #[verifier::type_invariant]
    pub open spec fn wf(self) -> bool {
        breakdown_wf(self@)
    }

    /// The breakdown with no entries.
    pub fn empty() -> (r: LanguageBreakdown)
        ensures
            r@.len() == 0,
    {
        LanguageBreakdown { entries: Vec::new() }
    }

    pub fn len(&self) -> (n: usize)
        ensures
            n == self@.len(),
    {
        self.entries.len()
    }

    pub fn get(&self, i: usize) -> (e: &LanguageInfo)
        requires
            i < self@.len(),
        ensures
            *e == self@[i as int],
    {
        &self.entries[i]
    }

    /// Hands the entries out, for persistence.
    pub fn into_entries(self) -> (v: Vec<LanguageInfo>)
        ensures
            v@ == self@,
            breakdown_wf(v@),
    {
        proof {
            use_type_invariant(&self);
        }
        let LanguageBreakdown { entries } = self;
        entries
    }

    /// Accepts a ready-made entry list exactly when it is well formed.
    pub fn from_entries(v: Vec<LanguageInfo>) -> (r: Option<LanguageBreakdown>)
        ensures
            r is Some <==> breakdown_wf(v@),
            match r {
                Some(b) => b@ == v@,
                None => true,
            },
    {
        let n = v.len();
        let mut i: usize = 0;
        let mut sum: u32 = 0;
        while i < n
            invariant
                0 <= i <= n,
                n == v@.len(),
                sum == sum_shares(v@.take(i as int)),
                sum <= 10000,
                forall|k: int| 0 <= k < i ==> (#[trigger] v@[k]).percentage_bp <= 10000,
                forall|k: int| 0 <= k < i - 1 ==> (#[trigger] v@[k]).percentage_bp
                    >= v@[k + 1].percentage_bp,
                forall|a: int, b: int| 0 <= a < b < n && a < i
                    ==> (#[trigger] v@[a]).language@ != (#[trigger] v@[b]).language@,
            decreases n - i,
        {
            let bp = v[i].percentage_bp;
            if bp > 10000 {
                proof {
                    lemma_sum_shares_element(v@, i as int);
                }
                return None;
            }
            if i > 0 && v[i - 1].percentage_bp < bp {
                assert(!sorted_desc(v@));
                return None;
            }
            if sum > 10000 - bp {
                proof {
                    lemma_sum_shares_prefix_le(v@, i + 1);
                    assert(v@.take(i + 1).drop_last() =~= v@.take(i as int));
                }
                return None;
            }
            proof {
                assert(v@.take(i + 1).drop_last() =~= v@.take(i as int));
            }
            sum = sum + bp;
            let mut j: usize = i + 1;
            while j < n
                invariant
                    i < j <= n,
                    n == v@.len(),
                    forall|k: int| i < k < j ==> (#[trigger] v@[k]).language@ != v@[i as int].language@,
                decreases n - j,
            {
                if v[j].language == v[i].language {
                    assert(!distinct_entry_languages(v@));
                    return None;
                }
                j = j + 1;
            }
            i = i + 1;
        }
        proof {
            assert(v@.take(n as int) =~= v@);
            assert(sorted_desc(v@)) by {
                lemma_adjacent_sorted(v@);
            }
        }
        Some(LanguageBreakdown { entries: v })
    }

    /// Computes the breakdown for one repository from raw byte counts.
    ///
    /// Succeeds exactly when no language is listed twice. With no measured
    /// bytes at all the breakdown is empty; otherwise it holds exactly the
    /// languages whose share reaches `threshold_bp`.
    #[verifier::rlimit(100)]
    #[verifier::spinoff_prover]
    pub fn compute(pairs: &Vec<(String, u64)>, threshold_bp: u32) -> (r: Option<LanguageBreakdown>)
        ensures
            r is Some <==> distinct_languages(pairs@),
            match r {
                Some(b) => {
                    let total = sum_bytes(pairs@);
                    &&& (total == 0 ==> b@.len() == 0)
                    &&& (total > 0 ==> breakdown_matches(pairs@, threshold_bp, total, b@))
                },
                None => true,
            },
    {
        let n = pairs.len();

        // reject a duplicated language: byte counts per language are keyed
        let mut i: usize = 0;
        while i < n
            invariant
                0 <= i <= n,
                n == pairs@.len(),
                forall|a: int, b: int| 0 <= a < b < n && a < i
                    ==> (#[trigger] pairs@[a]).0@ != (#[trigger] pairs@[b]).0@,
            decreases n - i,
        {
            let mut j: usize = i + 1;
            while j < n
                invariant
                    i < j <= n,
                    n == pairs@.len(),
                    forall|b: int| i < b < j ==> (#[trigger] pairs@[b]).0@ != pairs@[i as int].0@,
                decreases n - j,
            {
                if pairs[j].0 == pairs[i].0 {
                    assert(!distinct_languages(pairs@));
                    return None;
                }
                j = j + 1;
            }
            i = i + 1;
        }
        assert(distinct_languages(pairs@));

        // total measured bytes
        let mut total: u128 = 0;
        let mut i: usize = 0;
        while i < n
            invariant
                0 <= i <= n,
                n == pairs@.len(),
                total == sum_bytes(pairs@.take(i as int)),
                total <= i * (u64::MAX as int),
            decreases n - i,
        {
            proof {
                assert(pairs@.take(i + 1).drop_last() =~= pairs@.take(i as int));
                assert((i + 1) * (u64::MAX as int) == i * (u64::MAX as int) + u64::MAX as int)
                    by (nonlinear_arith);
            }
            total = total + pairs[i].1 as u128;
            i = i + 1;
        }
        proof {
            assert(pairs@.take(n as int) =~= pairs@);
        }

        if total == 0 {
            return Some(LanguageBreakdown { entries: Vec::new() });
        }

        let ghost totali: int = total as int;
        let mut out: Vec<LanguageInfo> = Vec::new();
        let mut j: usize = 0;
        while j < n
            invariant
                0 <= j <= n,
                n == pairs@.len(),
                totali == sum_bytes(pairs@) > 0,
                total as int == totali,
                distinct_languages(pairs@),
                breakdown_wf(out@),
                sum_shares(out@) <= sum_shares_all(pairs@.take(j as int), totali),
                sum_shares_all(pairs@.take(j as int), totali) <= 10000,
                forall|a: int|
                    0 <= a < out@.len() ==> exists|b: int|
                        0 <= b < j && (#[trigger] pairs@[b]).0@ == (#[trigger] out@[a]).language@
                            && out@[a].percentage_bp == share_of(pairs@[b].1, totali),
                forall|a: int| 0 <= a < out@.len()
                    ==> (#[trigger] out@[a]).percentage_bp >= threshold_bp,
                forall|b: int|
                    0 <= b < j && share_of((#[trigger] pairs@[b]).1, totali) >= threshold_bp
                        ==> exists|a: int|
                        0 <= a < out@.len() && (#[trigger] out@[a]).language@ == pairs@[b].0@,
            decreases n - j,
        {
            let bytes = pairs[j].1;
            proof {
                lemma_element_le_sum(pairs@, j as int);
                lemma_share_in_range(bytes, totali);
                lemma_sum_shares_all_step(pairs@, j as int, totali);
                lemma_sum_shares_all_prefix_le(pairs@, (j + 1) as int, totali);
                lemma_sum_shares_all_le(pairs@, totali);
            }
            let share128: u128 = (bytes as u128) * 10000 / total;
            let share: u32 = share128 as u32;
            assert(share as int == share_of(bytes, totali));
            if share >= threshold_bp {
                let ghost old_out = out@;
                proof {
                    assert forall|a: int| 0 <= a < old_out.len() implies
                        (#[trigger] old_out[a]).language@ != pairs@[j as int].0@ by {
                        let b0 = choose|b0: int|
                            0 <= b0 < j && (#[trigger] pairs@[b0]).0@ == old_out[a].language@
                                && old_out[a].percentage_bp == share_of(pairs@[b0].1, totali);
                        assert(pairs@[b0].0@ != pairs@[j as int].0@);
                    }
                }
                insert_share(&mut out, pairs[j].0.clone(), share);
                proof {
                    assert forall|a: int| 0 <= a < out@.len() implies exists|b: int|
                        0 <= b < j + 1 && (#[trigger] pairs@[b]).0@ == (#[trigger] out@[a]).language@
                            && out@[a].percentage_bp == share_of(pairs@[b].1, totali) by {
                        if out@[a].language@ == pairs@[j as int].0@
                            && out@[a].percentage_bp == share {
                            assert(0 <= j < j + 1 && pairs@[j as int].0@ == out@[a].language@
                                && out@[a].percentage_bp == share_of(pairs@[j as int].1, totali));
                        } else {
                            assert(old_out.contains(out@[a]));
                            let olda = choose|olda: int|
                                0 <= olda < old_out.len() && old_out[olda] == out@[a];
                            let b0 = choose|b0: int|
                                0 <= b0 < j && (#[trigger] pairs@[b0]).0@ == old_out[olda].language@
                                    && old_out[olda].percentage_bp == share_of(pairs@[b0].1, totali);
                            assert(0 <= b0 < j + 1 && pairs@[b0].0@ == out@[a].language@
                                && out@[a].percentage_bp == share_of(pairs@[b0].1, totali));
                        }
                    }
                    assert forall|b: int|
                        0 <= b < j + 1 && share_of((#[trigger] pairs@[b]).1, totali) >= threshold_bp
                            implies exists|a: int|
                            0 <= a < out@.len() && (#[trigger] out@[a]).language@ == pairs@[b].0@ by {
                        if b == j {
                            let a0 = choose|a0: int|
                                0 <= a0 < out@.len() && (#[trigger] out@[a0]).language@
                                    == pairs@[j as int].0@ && out@[a0].percentage_bp == share;
                            assert(out@[a0].language@ == pairs@[b].0@);
                        } else {
                            let a0 = choose|a0: int|
                                0 <= a0 < old_out.len()
                                    && (#[trigger] old_out[a0]).language@ == pairs@[b].0@;
                            assert(out@.contains(old_out[a0]));
                            let na = choose|na: int|
                                0 <= na < out@.len() && out@[na] == old_out[a0];
                            assert(out@[na].language@ == pairs@[b].0@);
                        }
                    }
                }
            } else {
                proof {
                    lemma_div_pos_is_pos(bytes * 10000, totali);
                }
            }
            j = j + 1;
        }
        proof {
            assert(pairs@.take(n as int) =~= pairs@);
        }
        Some(LanguageBreakdown { entries: out })
    }
}

/// Total share over a pair list, at a given total byte count.
pub open spec fn sum_shares_all(pairs: Seq<(String, u64)>, total: int) -> int
    decreases pairs.len(),
{
    if pairs.len() == 0 {
        0
    } else {
        sum_shares_all(pairs.drop_last(), total) + share_of(pairs.last().1, total)
    }
}

proof fn lemma_sum_shares_nonneg(s: Seq<LanguageInfo>)
    ensures
        sum_shares(s) >= 0,
    decreases s.len(),
{
    if s.len() > 0 {
        lemma_sum_shares_nonneg(s.drop_last());
    }
}

/// An element's share is at most the total over any prefix that holds it.
proof fn lemma_sum_shares_element(s: Seq<LanguageInfo>, i: int)
    requires
        0 <= i < s.len(),
    ensures
        sum_shares(s.take(i + 1)) >= s[i].percentage_bp,
{
    lemma_sum_shares_nonneg(s.take(i + 1).drop_last());
    assert(s.take(i + 1).last() == s[i]);
}

/// Prefix sums of shares only grow.
pub proof fn lemma_sum_shares_prefix_le(s: Seq<LanguageInfo>, i: int)
    requires
        0 <= i <= s.len(),
    ensures
        sum_shares(s.take(i)) <= sum_shares(s),
    decreases s.len() - i,
{
    if i < s.len() {
        lemma_sum_shares_prefix_le(s, i + 1);
        assert(s.take(i + 1).drop_last() =~= s.take(i));
    } else {
        assert(s.take(i) =~= s);
    }
}

/// Pairwise order follows from adjacent order.
proof fn lemma_adjacent_sorted(s: Seq<LanguageInfo>)
    requires
        forall|k: int| 0 <= k < s.len() - 1 ==> (#[trigger] s[k]).percentage_bp
            >= s[k + 1].percentage_bp,
    ensures
        sorted_desc(s),
{
    assert forall|i: int, j: int| 0 <= i < j < s.len() implies
        (#[trigger] s[i]).percentage_bp >= (#[trigger] s[j]).percentage_bp by {
        lemma_desc_chain(s, i, j);
    }
}

proof fn lemma_desc_chain(s: Seq<LanguageInfo>, i: int, j: int)
    requires
        forall|k: int| 0 <= k < s.len() - 1 ==> (#[trigger] s[k]).percentage_bp
            >= s[k + 1].percentage_bp,
        0 <= i <= j < s.len(),
    ensures
        s[i].percentage_bp >= s[j].percentage_bp,
    decreases j - i,
{
    if i < j {
        lemma_desc_chain(s, i + 1, j);
        assert(s[i].percentage_bp >= s[i + 1].percentage_bp);
    }
}

proof fn lemma_sum_bytes_nonneg(s: Seq<(String, u64)>)
    ensures
        sum_bytes(s) >= 0,
    decreases s.len(),
{
    if s.len() > 0 {
        lemma_sum_bytes_nonneg(s.drop_last());
    }
}

/// One byte count never exceeds the total.
proof fn lemma_element_le_sum(s: Seq<(String, u64)>, j: int)
    requires
        0 <= j < s.len(),
    ensures
        s[j].1 <= sum_bytes(s),
    decreases s.len(),
{
    if j == s.len() - 1 {
        lemma_sum_bytes_nonneg(s.drop_last());
    } else {
        lemma_element_le_sum(s.drop_last(), j);
        assert(s.drop_last()[j] == s[j]);
    }
}

/// A share is a valid part of the whole: between 0 and 10000.
proof fn lemma_share_in_range(bytes: u64, total: int)
    requires
        total > 0,
        bytes <= total,
    ensures
        0 <= share_of(bytes, total) <= 10000,
{
    lemma_mul_inequality(bytes as int, total, 10000);
    lemma_div_is_ordered(bytes * 10000, total * 10000, total);
    lemma_div_multiples_vanish(10000, total);
    lemma_div_pos_is_pos(bytes * 10000, total);
}

/// Dividing a sum loses no more than dividing the parts.
proof fn lemma_div_sum_le(x: int, y: int, d: int)
    requires
        d > 0,
        x >= 0,
        y >= 0,
    ensures
        x / d + y / d <= (x + y) / d,
{
    lemma_fundamental_div_mod(x, d);
    lemma_fundamental_div_mod(y, d);
    lemma_mod_bound(x, d);
    lemma_mod_bound(y, d);
    assert(d * (x / d + y / d) == d * (x / d) + d * (y / d)) by (nonlinear_arith);
    lemma_div_multiples_vanish(x / d + y / d, d);
    lemma_div_is_ordered(d * (x / d + y / d), x + y, d);
}

/// Extending a prefix by one pair adds exactly that pair's share.
proof fn lemma_sum_shares_all_step(pairs: Seq<(String, u64)>, j: int, total: int)
    requires
        0 <= j < pairs.len(),
    ensures
        sum_shares_all(pairs.take(j + 1), total) == sum_shares_all(pairs.take(j), total)
            + share_of(pairs[j].1, total),
{
    assert(pairs.take(j + 1).drop_last() =~= pairs.take(j));
    assert(pairs.take(j + 1).last() == pairs[j]);
}

/// The total share over the pairs stays within the whole.
proof fn lemma_sum_shares_all_le(pairs: Seq<(String, u64)>, total: int)
    requires
        total > 0,
        sum_bytes(pairs) <= total,
    ensures
        sum_shares_all(pairs, total) <= 10000,
{
    lemma_sum_shares_all_le_bytes(pairs, total);
    lemma_sum_bytes_nonneg(pairs);
    lemma_mul_inequality(sum_bytes(pairs), total, 10000);
    lemma_div_is_ordered(sum_bytes(pairs) * 10000, total * 10000, total);
    lemma_div_multiples_vanish(10000, total);
}

proof fn lemma_sum_shares_all_le_bytes(pairs: Seq<(String, u64)>, total: int)
    requires
        total > 0,
    ensures
        sum_shares_all(pairs, total) <= sum_bytes(pairs) * 10000 / total,
    decreases pairs.len(),
{
    if pairs.len() == 0 {
    } else {
        let dl = pairs.drop_last();
        lemma_sum_shares_all_le_bytes(dl, total);
        lemma_sum_bytes_nonneg(dl);
        lemma_div_sum_le(sum_bytes(dl) * 10000, pairs.last().1 * 10000, total);
        assert(sum_bytes(dl) * 10000 + pairs.last().1 * 10000 == sum_bytes(pairs) * 10000)
            by (nonlinear_arith)
            requires
                sum_bytes(pairs) == sum_bytes(dl) + pairs.last().1,
        ;
    }
}

/// Prefix totals of shares only grow.
proof fn lemma_sum_shares_all_prefix_le(pairs: Seq<(String, u64)>, i: int, total: int)
    requires
        0 <= i <= pairs.len(),
        total > 0,
    ensures
        sum_shares_all(pairs.take(i), total) <= sum_shares_all(pairs, total),
    decreases pairs.len() - i,
{
    if i < pairs.len() {
        lemma_sum_shares_all_prefix_le(pairs, i + 1, total);
        lemma_sum_shares_all_step(pairs, i, total);
        lemma_div_pos_is_pos(pairs[i].1 * 10000, total);
    } else {
        assert(pairs.take(i) =~= pairs);
    }
}

/// Inserting an entry adds exactly its share to the total.
proof fn lemma_sum_shares_insert(s: Seq<LanguageInfo>, k: int, e: LanguageInfo)
    requires
        0 <= k <= s.len(),
    ensures
        sum_shares(s.insert(k, e)) == sum_shares(s) + e.percentage_bp,
    decreases s.len() - k,
{
    if k == s.len() {
        assert(s.insert(k, e) =~= s.push(e));
        assert(s.push(e).drop_last() =~= s);
    } else {
        assert(s.insert(k, e).drop_last() =~= s.drop_last().insert(k, e));
        assert(s.insert(k, e).last() == s.last());
        lemma_sum_shares_insert(s.drop_last(), k, e);
    }
}

/// Inserting before the first strictly smaller share keeps the descending order.
proof fn lemma_insert_sorted(old_out: Seq<LanguageInfo>, k: int, entry: LanguageInfo)
    requires
        sorted_desc(old_out),
        0 <= k <= old_out.len(),
        forall|a: int| 0 <= a < k ==> (#[trigger] old_out[a]).percentage_bp
            >= entry.percentage_bp,
        k < old_out.len() ==> old_out[k].percentage_bp < entry.percentage_bp,
    ensures
        sorted_desc(old_out.insert(k, entry)),
{
    old_out.insert_ensures(k, entry);
    let s = old_out.insert(k, entry);
    assert forall|i: int, j: int| 0 <= i < j < s.len() implies
        (#[trigger] s[i]).percentage_bp >= (#[trigger] s[j]).percentage_bp by {
        if j < k {
            assert(s[i] == old_out[i] && s[j] == old_out[j]);
        } else if i < k && j == k {
            assert(s[i] == old_out[i]);
        } else if i < k && j > k {
            assert(s[i] == old_out[i] && s[j] == old_out[j - 1]);
            assert(k <= j - 1 < old_out.len());
            assert(old_out[j - 1].percentage_bp <= old_out[k].percentage_bp);
        } else if i == k {
            assert(s[j] == old_out[j - 1]);
            assert(k <= j - 1 < old_out.len());
            assert(old_out[j - 1].percentage_bp <= old_out[k].percentage_bp);
        } else {
            assert(s[i] == old_out[i - 1] && s[j] == old_out[j - 1]);
        }
    }
}

/// Inserts a share for a language the list does not yet hold, keeping the
/// list well formed.
fn insert_share(out: &mut Vec<LanguageInfo>, language: String, share: u32)
    requires
        breakdown_wf(old(out)@),
        share <= 10000,
        sum_shares(old(out)@) + share <= 10000,
        forall|a: int| 0 <= a < old(out)@.len() ==> (#[trigger] old(out)@[a]).language@
            != language@,
    ensures
        breakdown_wf(final(out)@),
        final(out)@.len() == old(out)@.len() + 1,
        sum_shares(final(out)@) == sum_shares(old(out)@) + share,
        forall|a: int| 0 <= a < final(out)@.len() ==> old(out)@.contains(#[trigger] final(out)@[a])
            || (final(out)@[a].language@ == language@ && final(out)@[a].percentage_bp == share),
        exists|a: int| 0 <= a < final(out)@.len() && (#[trigger] final(out)@[a]).language@
            == language@ && final(out)@[a].percentage_bp == share,
        forall|b: int| 0 <= b < old(out)@.len() ==> final(out)@.contains(#[trigger] old(out)@[b]),
{
    let mut k: usize = 0;
    while k < out.len() && out[k].percentage_bp >= share
        invariant
            0 <= k <= out@.len(),
            out == old(out),
            forall|a: int| 0 <= a < k ==> (#[trigger] out@[a]).percentage_bp >= share,
        decreases out@.len() - k,
    {
        k = k + 1;
    }
    let entry = LanguageInfo { language, percentage_bp: share };
    let ghost old_out = out@;
    proof {
        old_out.insert_ensures(k as int, entry);
        lemma_sum_shares_insert(old_out, k as int, entry);
        lemma_insert_sorted(old_out, k as int, entry);
    }
    out.insert(k, entry);
    proof {
        assert forall|a: int, b: int| 0 <= a < b < out@.len() implies
            (#[trigger] out@[a]).language@ != (#[trigger] out@[b]).language@ by {
            if a == k {
                assert(out@[b] == old_out[b - 1]);
            } else if b == k {
                assert(out@[a] == old_out[a]);
            } else {
                let oa: int = if a < k { a } else { a - 1 };
                let ob: int = if b < k { b } else { b - 1 };
                assert(out@[a] == old_out[oa]);
                assert(out@[b] == old_out[ob]);
                assert(0 <= oa < ob < old_out.len());
            }
        }
        assert(out@[k as int] == entry);
        assert forall|a: int| 0 <= a < out@.len() implies old_out.contains(#[trigger] out@[a])
            || (out@[a].language@ == language@ && out@[a].percentage_bp == share) by {
            if a < k {
                assert(out@[a] == old_out[a]);
            } else if a > k {
                assert(out@[a] == old_out[a - 1]);
            }
        }
        assert forall|b: int| 0 <= b < old_out.len() implies out@.contains(
            #[trigger] old_out[b]) by {
            if b < k {
                assert(out@[b] == old_out[b]);
            } else {
                assert(out@[b + 1] == old_out[b]);
            }
        }
    }
}

} // verus!
