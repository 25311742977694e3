//! The summarizer exchange: building the chat-completion request for one
//! repository's README, and reading the summary out of the answer.

use vstd::prelude::*;
use vstd::string::StringExecFns;
use vstd::string::StringSliceAdditionalSpecFns;
use vstd::utf8::{encode_utf8_valid_utf8, is_char_boundary, valid_utf8};
use crate::models::{ChatCompletionRequest, ChatCompletionResponse, ChatMessage};
use crate::text::bytes_of;

verus! {

/// Bounds the document handed to the summarizer: at most 8000 bytes, cut on
/// a character boundary, and unchanged when it already fits.
pub fn truncate_readme(s: &str) -> (r: String)
    ensures
        bytes_of(r@).len() <= 8000,
        s.spec_bytes().len() <= 8000 ==> r@ == s@,
        bytes_of(r@) == s.spec_bytes().take(bytes_of(r@).len() as int),
{
    proof {
        encode_utf8_valid_utf8(s@);
    }
    let n = s.as_bytes().len();
    if n <= 8000 {
        let r = s.to_owned();
        proof {
            assert(s.spec_bytes().take(s.spec_bytes().len() as int) =~= s.spec_bytes());
        }
        return r;
    }
    let mut end: usize = 8000;
    while !s.is_char_boundary(end) && end > 0
        invariant
            end <= 8000,
        decreases end,
    {
        end = end - 1;
    }
    proof {
        assert(valid_utf8(s.spec_bytes()));
        if end == 0 {
            assert(is_char_boundary(s.spec_bytes(), 0));
        }
    }
    let (head, _) = s.split_at(end);
    let r = head.to_owned();
    proof {
        assert(s.spec_bytes().take(end as int) =~= s.spec_bytes().subrange(0, end as int));
    }
    r
}

/// What `str::trim` returns on a text. Saying which characters go would take
/// the full whitespace table; the result depends on the characters alone, so
/// it is only named.
pub uninterp spec fn trimmed(s: Seq<char>) -> Seq<char>;

/// Relies on `str::trim`: the text without leading and trailing whitespace,
/// never longer than the input.
pub assume_specification<'a>[ str::trim ](s: &'a str) -> (r: &'a str)
    ensures
        r@ == trimmed(s@),
        r@.len() <= s@.len(),
;

/// The fixed instruction handed to the summarizer.
pub open spec fn spec_system_prompt() -> Seq<char> {
    "You are a technical documentation summarizer. \nYour task is to summarize GitHub README content in Korean.\nFocus on:\n1. 프로젝트가 무엇인지 (What it does)\n2. 주요 기능 (Key features)\n3. 기술 스택 (Tech stack if mentioned)\n\nRules:\n- Keep the summary under 200 characters\n- Use Korean language only\n- Be concise and informative\n- Do not include markdown formatting\n- Do not include links or code"@
}

/// The user-turn text asking for a summary of one repository's README.
pub open spec fn spec_user_content(name: Seq<char>, readme: Seq<char>) -> Seq<char> {
    "Summarize this README for the repository '"@ + name + "' in Korean:\n\n"@ + readme
}

/// Builds the chat-completion request for one repository's README: the fixed
/// system instruction, one user turn naming the repository and carrying the
/// README, and a bounded answer length.
pub fn build_summary_request(readme: &str, repo_name: &str, model: &str) -> (r:
    ChatCompletionRequest)
    ensures
        r.model@ == model@,
        r.max_tokens == Some(300u32),
        r.messages@.len() == 2,
        r.messages@[0].role@ == "system"@,
        r.messages@[0].content@ == spec_system_prompt(),
        r.messages@[1].role@ == "user"@,
        r.messages@[1].content@ == spec_user_content(repo_name@, readme@),
{
    let system = ChatMessage {
        role: String::from_str("system"),
        content: String::from_str(
            "You are a technical documentation summarizer. \nYour task is to summarize GitHub README content in Korean.\nFocus on:\n1. 프로젝트가 무엇인지 (What it does)\n2. 주요 기능 (Key features)\n3. 기술 스택 (Tech stack if mentioned)\n\nRules:\n- Keep the summary under 200 characters\n- Use Korean language only\n- Be concise and informative\n- Do not include markdown formatting\n- Do not include links or code",
        ),
    };
    let mut content = String::from_str("Summarize this README for the repository '");
    content.append(repo_name);
    content.append("' in Korean:\n\n");
    content.append(readme);
    proof {
        assert(content@ =~= spec_user_content(repo_name@, readme@));
    }
    let user = ChatMessage { role: String::from_str("user"), content };
    let mut messages: Vec<ChatMessage> = Vec::new();
    messages.push(system);
    messages.push(user);
    ChatCompletionRequest { model: model.to_owned(), messages, max_tokens: Some(300) }
}

/// Reads the summary out of a summarizer answer: the first choice's text,
/// trimmed — absent exactly when the answer offers no choice at all.
pub fn extract_summary(resp: &ChatCompletionResponse) -> (r: Option<String>)
    ensures
        r is Some <==> resp.choices@.len() > 0,
        match r {
            Some(s) => s@ == trimmed(resp.choices@[0].message.content@),
            None => true,
        },
{
    if resp.choices.len() == 0 {
        None
    } else {
        let t = resp.choices[0].message.content.as_str().trim();
        Some(t.to_owned())
    }
}

} // verus!
