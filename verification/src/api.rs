//! The compute half of the query endpoints: assembling one trend entry for
//! the response, and resolving an optional date filter to today.

use vstd::prelude::*;
use vstd::string::StringExecFns;
use crate::clock::today_utc;
use crate::models::{DateQuery, LanguageInfo, TrendingRepo, TrendingRepoResponse};

verus! {

/// The browse address of a repository.
pub open spec fn spec_github_url(name: Seq<char>) -> Seq<char> {
    "https://github.com/"@ + name
}

/// Assembles one entry of the trends response from a stored record, its
/// rank, and its stored language shares.
pub fn build_trend_response(rank: usize, repo: TrendingRepo, languages: Vec<LanguageInfo>) -> (r:
    TrendingRepoResponse)
    ensures
        r.rank == rank,
        r.repo_id == repo.repo_id,
        r.repo_name == repo.repo_name,
        r.github_url@ == spec_github_url(repo.repo_name@),
        r.primary_language == repo.primary_language,
        r.languages == languages,
        r.description == repo.description,
        r.korean_summary == repo.korean_summary,
        r.stars == repo.stars,
        r.forks == repo.forks,
        r.total_score == repo.total_score,
{
    let mut github_url = String::from_str("https://github.com/");
    github_url.append(repo.repo_name.as_str());
    TrendingRepoResponse {
        rank,
        repo_id: repo.repo_id,
        repo_name: repo.repo_name,
        github_url,
        primary_language: repo.primary_language,
        languages,
        description: repo.description,
        korean_summary: repo.korean_summary,
        stars: repo.stars,
        forks: repo.forks,
        total_score: repo.total_score,
    }
}

/// Resolves a query's optional date: the date it names, or today.
pub fn effective_date(q: DateQuery) -> (d: String)
    ensures
        match q.date {
            Some(given) => d == given,
            None => true,
        },
{
    match q.date {
        Some(given) => given,
        None => today_utc(),
    }
}

} // verus!
