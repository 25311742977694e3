//! Plain data carried through the collection pipeline.
//!
//! Percentages are held in basis points (hundredths of a percent): a share of
//! 10000 stands for 100%. Composite scores arrive as decimal text from the
//! trend source and are carried through unchanged; the store is the one
//! consumer that reads them numerically.

use vstd::prelude::*;

verus! {

/// One page of trending repositories as the trend source delivers it.
pub struct OssInsightResponse {
    pub response_type: String,
    pub data: OssInsightData,
}

/// The tabular payload of a trend-source response.
pub struct OssInsightData {
    pub columns: Vec<OssInsightColumn>,
    pub rows: Vec<OssInsightRow>,
}

/// A column descriptor of the trend-source table.
pub struct OssInsightColumn {
    pub col: String,
    pub data_type: String,
}

/// One candidate repository row from the trend source. All numeric fields
/// arrive as decimal text.
pub struct OssInsightRow {
    pub repo_id: String,
    pub repo_name: String,
    pub primary_language: Option<String>,
    pub description: Option<String>,
    pub stars: Option<String>,
    pub forks: Option<String>,
    pub pull_requests: Option<String>,
    pub pushes: Option<String>,
    pub total_score: Option<String>,
    pub contributor_logins: Option<String>,
    pub collection_names: Option<String>,
}

/// The durable record for one repository on one date.
pub struct TrendingRepo {
    pub date: String,
    pub repo_id: i64,
    pub repo_name: String,
    pub primary_language: Option<String>,
    pub description: Option<String>,
    pub korean_summary: Option<String>,
    pub stars: Option<i32>,
    pub forks: Option<i32>,
    pub pull_requests: Option<i32>,
    pub pushes: Option<i32>,
    pub total_score: Option<String>,
    pub contributor_logins: Option<String>,
    pub collection_names: Option<String>,
}

/// One (date, repository, language) share row for the store.
pub struct RepoLanguage {
    pub date: String,
    pub repo_id: i64,
    pub language: String,
    pub percentage_bp: u32,
}

/// One (date, language) normalized trend row for the store.
pub struct LanguageTrend {
    pub date: String,
    pub language: String,
    pub normalized_percentage_bp: u32,
    pub repo_count: usize,
}

/// A language and its share of one repository's measured bytes.
pub struct LanguageInfo {
    pub language: String,
    pub percentage_bp: u32,
}

/// One repository as the trends endpoint reports it.
pub struct TrendingRepoResponse {
    pub rank: usize,
    pub repo_id: i64,
    pub repo_name: String,
    pub github_url: String,
    pub primary_language: Option<String>,
    pub languages: Vec<LanguageInfo>,
    pub description: Option<String>,
    pub korean_summary: Option<String>,
    pub stars: Option<i32>,
    pub forks: Option<i32>,
    pub total_score: Option<String>,
}

/// A chat-completion request for the summarizer.
pub struct ChatCompletionRequest {
    pub model: String,
    pub messages: Vec<ChatMessage>,
    pub max_tokens: Option<u32>,
}

/// One chat message of a summarizer exchange.
pub struct ChatMessage {
    pub role: String,
    pub content: String,
}

/// The summarizer's answer.
pub struct ChatCompletionResponse {
    pub choices: Vec<ChatChoice>,
}

/// One completion choice of a summarizer answer.
pub struct ChatChoice {
    pub message: ChatMessage,
}

/// The slice of repository metadata the code host reports.
pub struct GitHubRepoInfo {
    pub default_branch: String,
}

/// A transient progress event: emitted to observers, never stored.
pub struct CollectionStatus {
    pub is_running: bool,
    pub message: String,
    pub current_count: usize,
    pub total_count: usize,
}

/// An optional date filter on the query endpoints.
pub struct DateQuery {
    pub date: Option<String>,
}

/// The uniform envelope of the query endpoints.
pub struct ApiResponse<T> {
    pub success: bool,
    pub data: Option<T>,
    pub error: Option<String>,
}

/// The immediate acknowledgment of a collection trigger.
pub struct CollectResponse {
    pub message: String,
    pub collected_count: usize,
}

impl<T> ApiResponse<T> {
    /// Wraps a successful payload.
    pub fn ok(data: T) -> (r: ApiResponse<T>)
        ensures
            r.success,
            r.data == Some(data),
            r.error is None,
    {
        ApiResponse { success: true, data: Some(data), error: None }
    }

    /// Wraps an error message.
    pub fn err(message: String) -> (r: ApiResponse<T>)
        ensures
            !r.success,
            r.data is None,
            r.error == Some(message),
    {
        ApiResponse { success: false, data: None, error: Some(message) }
    }
}

} // verus!
