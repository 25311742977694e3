use daily_git_brief::breakdown::LanguageBreakdown;
use daily_git_brief::models::OssInsightRow;
use daily_git_brief::run::{CollectionRun, RunError, RunStep};

fn row(id: &str, name: &str) -> OssInsightRow {
    OssInsightRow {
        repo_id: id.to_string(),
        repo_name: name.to_string(),
        primary_language: Some("Rust".to_string()),
        description: Some("a tool".to_string()),
        stars: Some("10".to_string()),
        forks: Some("-3".to_string()),
        pull_requests: Some("2147483648".to_string()),
        pushes: Some("notanumber".to_string()),
        total_score: Some("12.5".to_string()),
        contributor_logins: None,
        collection_names: None,
    }
}

#[test]
fn run_skips_and_counts() {
    let candidates = vec![row("1", "a/x"), row("2", "b/y"), row("3", "c/z")];
    let mut run = CollectionRun::start(Some(candidates)).unwrap();
    run.set_skip_ids(vec![2]);
    let status = run.initial_status();
    assert!(status.is_running);
    assert_eq!(status.current_count, 0);
    assert_eq!(status.total_count, 3);
    assert_eq!(status.message, "Fetched 3 repos from OSS Insight");

    match run.advance() {
        RunStep::Process(i) => assert_eq!(i, 0),
        _ => panic!("first candidate should be processed"),
    }
    let st = run.complete(&LanguageBreakdown::empty(), true);
    assert!(st.is_running);
    assert_eq!(st.current_count, 1);
    assert_eq!(st.total_count, 3);
    assert_eq!(st.message, "Processed a/x");

    // the candidate with id 2 already has a summary today: never handed out
    match run.advance() {
        RunStep::Skip(i) => assert_eq!(i, 1),
        _ => panic!("summarized candidate should be skipped"),
    }

    match run.advance() {
        RunStep::Process(i) => assert_eq!(i, 2),
        _ => panic!("third candidate should be processed"),
    }
    let st = run.complete(&LanguageBreakdown::empty(), false);
    assert_eq!(st.current_count, 3);

    match run.advance() {
        RunStep::Finished => {}
        _ => panic!("walk should be over"),
    }

    let (trends, final_status, count) = run.finish();
    assert_eq!(count, 1);
    assert!(count <= 3);
    assert!(count <= 3 - 1);
    assert!(trends.is_empty());
    assert!(!final_status.is_running);
    assert_eq!(final_status.current_count, 3);
    assert_eq!(final_status.total_count, 3);
    assert_eq!(final_status.message, "Collection complete. Collected 1 repos.");
}

#[test]
fn missing_candidate_set_fails_run() {
    let r = CollectionRun::start(None);
    assert!(matches!(r, Err(RunError::TrendFetchFailed)));
}

#[test]
fn empty_candidate_set_is_not_an_error() {
    let mut run = CollectionRun::start(Some(vec![])).unwrap();
    match run.advance() {
        RunStep::Finished => {}
        _ => panic!("nothing to consider"),
    }
    let (trends, final_status, count) = run.finish();
    assert_eq!(count, 0);
    assert!(trends.is_empty());
    assert!(!final_status.is_running);
    assert_eq!(final_status.current_count, 0);
    assert_eq!(final_status.total_count, 0);
}

#[test]
fn readme_failure_isolated() {
    let candidates = vec![row("7", "x/one"), row("8", "y/two")];
    let mut run = CollectionRun::start(Some(candidates)).unwrap();

    // candidate 0: README fetch failed, so no summary — languages and
    // persistence still go ahead
    match run.advance() {
        RunStep::Process(i) => assert_eq!(i, 0),
        _ => panic!(),
    }
    let rec = run.make_record(0, None);
    assert_eq!(rec.korean_summary, None);
    assert_eq!(rec.repo_id, 7);
    assert_eq!(rec.repo_name, "x/one");
    assert_eq!(rec.date, *run.date());
    let pairs = vec![("Rust".to_string(), 100u64)];
    let bd = LanguageBreakdown::compute(&pairs, 0).unwrap();
    let rows = run.language_rows(0, &bd);
    assert_eq!(rows.len(), 1);
    assert_eq!(rows[0].repo_id, 7);
    assert_eq!(rows[0].language, "Rust");
    assert_eq!(rows[0].percentage_bp, 10000);
    run.complete(&bd, true);

    // candidate 1 is unaffected: handed out and summarized as usual
    match run.advance() {
        RunStep::Process(i) => assert_eq!(i, 1),
        _ => panic!(),
    }
    let rec2 = run.make_record(1, Some("요약".to_string()));
    assert_eq!(rec2.korean_summary.as_deref(), Some("요약"));
    let pairs2 = vec![("Go".to_string(), 5u64)];
    let bd2 = LanguageBreakdown::compute(&pairs2, 0).unwrap();
    run.complete(&bd2, true);

    match run.advance() {
        RunStep::Finished => {}
        _ => panic!(),
    }
    let (trends, _, count) = run.finish();
    assert_eq!(count, 2);
    assert_eq!(trends.len(), 2);
}

#[test]
fn record_metrics_parsed_like_original() {
    let candidates = vec![row("notanid", "m/n")];
    let mut run = CollectionRun::start(Some(candidates)).unwrap();
    match run.advance() {
        RunStep::Process(i) => assert_eq!(i, 0),
        _ => panic!(),
    }
    let rec = run.make_record(0, Some("s".to_string()));
    // a malformed id falls back to 0
    assert_eq!(rec.repo_id, 0);
    assert_eq!(rec.stars, Some(10));
    assert_eq!(rec.forks, Some(-3));
    // one past i32::MAX does not fit
    assert_eq!(rec.pull_requests, None);
    assert_eq!(rec.pushes, None);
    // the composite score is carried through as text
    assert_eq!(rec.total_score.as_deref(), Some("12.5"));
    assert_eq!(rec.primary_language.as_deref(), Some("Rust"));
    assert_eq!(rec.korean_summary.as_deref(), Some("s"));
}
