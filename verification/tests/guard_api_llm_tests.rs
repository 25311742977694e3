use daily_git_brief::api::{build_trend_response, effective_date};
use daily_git_brief::guard::RunGuard;
use daily_git_brief::llm::{build_summary_request, extract_summary, truncate_readme};
use daily_git_brief::models::{
    ApiResponse, ChatChoice, ChatCompletionResponse, ChatMessage, DateQuery, LanguageInfo,
    TrendingRepo,
};

#[test]
fn second_run_rejected_while_active() {
    let mut g = RunGuard::new();
    assert!(!g.is_active());
    assert!(g.try_acquire());
    assert!(g.is_active());
    // a second claim is rejected and changes nothing
    assert!(!g.try_acquire());
    assert!(g.is_active());
    g.release();
    assert!(!g.is_active());
    assert!(g.try_acquire());
}

#[test]
fn summary_request_built() {
    let r = build_summary_request("the readme text", "own/repo", "test-model");
    assert_eq!(r.model, "test-model");
    assert_eq!(r.max_tokens, Some(300));
    assert_eq!(r.messages.len(), 2);
    assert_eq!(r.messages[0].role, "system");
    assert!(r.messages[0].content.contains("Korean"));
    assert_eq!(r.messages[1].role, "user");
    assert_eq!(
        r.messages[1].content,
        "Summarize this README for the repository 'own/repo' in Korean:\n\nthe readme text"
    );
}

#[test]
fn summary_extracted_and_trimmed() {
    let resp = ChatCompletionResponse {
        choices: vec![ChatChoice {
            message: ChatMessage {
                role: "assistant".to_string(),
                content: "  짧은 요약  ".to_string(),
            },
        }],
    };
    assert_eq!(extract_summary(&resp).as_deref(), Some("짧은 요약"));
}

#[test]
fn summary_absent_without_choices() {
    let empty = ChatCompletionResponse { choices: vec![] };
    assert_eq!(extract_summary(&empty), None);
}

#[test]
fn short_readme_kept_whole() {
    let doc = "short document";
    assert_eq!(truncate_readme(doc), doc);
    let exactly = "x".repeat(8000);
    assert_eq!(truncate_readme(&exactly), exactly);
}

#[test]
fn long_readme_cut_on_char_boundary() {
    // 3000 three-byte characters: 9000 bytes, and 8000 is not a boundary
    let doc = "한".repeat(3000);
    let cut = truncate_readme(&doc);
    assert_eq!(cut.len(), 7998);
    assert!(doc.starts_with(&cut));
    assert_eq!(cut.chars().count(), 2666);

    let ascii = "y".repeat(9001);
    let cut = truncate_readme(&ascii);
    assert_eq!(cut.len(), 8000);
    assert!(ascii.starts_with(&cut));
}

#[test]
fn trend_response_assembled() {
    let repo = TrendingRepo {
        date: "2026-01-01".to_string(),
        repo_id: 5,
        repo_name: "own/repo".to_string(),
        primary_language: Some("Rust".to_string()),
        description: Some("d".to_string()),
        korean_summary: None,
        stars: Some(1),
        forks: None,
        pull_requests: None,
        pushes: None,
        total_score: Some("9.81".to_string()),
        contributor_logins: None,
        collection_names: None,
    };
    let langs = vec![LanguageInfo { language: "Rust".to_string(), percentage_bp: 10000 }];
    let r = build_trend_response(3, repo, langs);
    assert_eq!(r.rank, 3);
    assert_eq!(r.repo_id, 5);
    assert_eq!(r.repo_name, "own/repo");
    assert_eq!(r.github_url, "https://github.com/own/repo");
    assert_eq!(r.primary_language.as_deref(), Some("Rust"));
    assert_eq!(r.total_score.as_deref(), Some("9.81"));
    assert_eq!(r.languages.len(), 1);
    assert_eq!(r.languages[0].percentage_bp, 10000);
}

#[test]
fn effective_date_prefers_query() {
    let given = effective_date(DateQuery { date: Some("2025-05-05".to_string()) });
    assert_eq!(given, "2025-05-05");
    let today = effective_date(DateQuery { date: None });
    assert_eq!(today.len(), 10);
}

#[test]
fn api_response_wrappers() {
    let ok: ApiResponse<u32> = ApiResponse::ok(7);
    assert!(ok.success);
    assert_eq!(ok.data, Some(7));
    assert!(ok.error.is_none());
    let err: ApiResponse<u32> = ApiResponse::err("boom".to_string());
    assert!(!err.success);
    assert!(err.data.is_none());
    assert_eq!(err.error.as_deref(), Some("boom"));
}
