//! What is sent to the endpoint for one batch.

use vstd::prelude::*;
use vstd::string::StringExecFns;
use crate::text::{push_char, texts, to_chars, to_string};

verus! {

/// The settings of a run. Workers read them and never change them.
#[derive(Clone, Debug)]
pub struct TranslatorConfig {
    /// Where the endpoint is; a slash at the end does not matter.
    pub base_url: String,
    /// The credential that goes out with each request.
    pub api_key: String,
    /// The model that is asked.
    pub model: String,
    /// What the model is told before the lines.
    pub system_prompt: String,
    /// The sampling temperature, as the 64 bits of its binary encoding.
    /// It is carried through to the request and never looked at.
    pub temperature_bits: u64,
    /// The most tokens that an answer may have.
    pub max_tokens: u32,
    /// The nucleus-sampling bound, encoded and carried like the temperature.
    pub top_p_bits: u64,
    /// The top-k bound; it goes out only where it is positive.
    pub top_k: i32,
    /// Whether the answer is asked for as a stream.
    pub stream: bool,
    /// The number of workers; 0 counts as 1.
    pub threads: usize,
    /// The number of lines in one batch.
    pub batch_size: usize,
    /// The pause after each batch in seconds, encoded and carried like the
    /// temperature.
    pub delay_bits: u64,
    /// The file that was translated last.
    pub last_file: String,
}

/// A request for the translation of one batch, ready to be put on the wire.
#[derive(Clone, Debug)]
pub struct ChatRequest {
    /// The address that the request is posted to.
    pub url: String,
    /// The value of the `Authorization` header.
    pub authorization: String,
    pub model: String,
    /// The content of the message with the role `system`.
    pub system_prompt: String,
    /// The content of the message with the role `user`.
    pub user_prompt: String,
    pub temperature_bits: u64,
    pub max_tokens: u32,
    pub top_p_bits: u64,
    /// The top-k bound, present only where the request carries the field.
    pub top_k: Option<i32>,
    pub stream: bool,
}

/// `s` without the run of `c` at its end.
pub open spec fn without_trailing(s: Seq<char>, c: char) -> Seq<char>
    decreases s.len(),
{
    if s.len() > 0 && s.last() == c {
        without_trailing(s.drop_last(), c)
    } else {
        s
    }
}

/// The address of `path` at the endpoint `base_url`.
pub open spec fn endpoint(base_url: Seq<char>, path: Seq<char>) -> Seq<char> {
    without_trailing(base_url, '/') + path
}

/// The value of the `Authorization` header for a credential.
pub open spec fn bearer(api_key: Seq<char>) -> Seq<char> {
    "Bearer "@ + api_key
}

/// The parts, with a line feed between each two.
pub open spec fn joined(parts: Seq<Seq<char>>) -> Seq<char>
    decreases parts.len(),
{
    if parts.len() == 0 {
        Seq::empty()
    } else if parts.len() == 1 {
        parts[0]
    } else {
        joined(parts.drop_last()) + seq!['\n'] + parts.last()
    }
}

/// What the model is asked for a batch: its lines, and a reminder of the
/// form in which to answer.
pub open spec fn prompt_for(lines: Seq<Seq<char>>) -> Seq<char> {
    joined(lines) + "\n\nREMINDER: Format 'ID:::TranslatedText'."@
}

/// The top-k field of a request: present exactly where the bound is
/// positive.
pub open spec fn top_k_field(top_k: i32) -> Option<i32> {
    if top_k > 0 {
        Some(top_k)
    } else {
        None
    }
}

/// The address of `path` at the endpoint `base_url`.
pub fn endpoint_url(base_url: &str, path: &str) -> (url: String)
    ensures
        url@ == endpoint(base_url@, path@),
{
    let chars = to_chars(base_url);
    let mut end: usize = chars.len();
    proof {
        assert(chars@.take(end as int) =~= chars@);
    }
    while end > 0 && chars[end - 1] == '/'
        invariant
            end <= chars.len(),
            without_trailing(chars@, '/') == without_trailing(chars@.take(end as int), '/'),
        decreases end,
    {
        proof {
            assert(chars@.take(end as int).drop_last() =~= chars@.take(end - 1));
        }
        end -= 1;
    }
    proof {
        assert(chars@.take(chars.len() as int) =~= chars@);
        assert(chars@.subrange(0, end as int) =~= chars@.take(end as int));
    }
    let mut url = to_string(&chars, 0, end);
    url.append(path);
    url
}

/// The address that model listings are fetched from.
pub fn models_url(base_url: &str) -> (url: String)
    ensures
        url@ == endpoint(base_url@, "/models"@),
{
    endpoint_url(base_url, "/models")
}

/// The value of the `Authorization` header for a credential.
pub fn authorization(api_key: &str) -> (value: String)
    ensures
        value@ == bearer(api_key@),
{
    let mut value = "Bearer ".to_owned();
    value.append(api_key);
    value
}

/// What the model is asked for a batch.
pub fn build_prompt(lines: &Vec<String>) -> (prompt: String)
    ensures
        prompt@ == prompt_for(texts(lines@)),
{
    let mut prompt = String::new();
    let mut i: usize = 0;
    proof {
        assert(prompt@ =~= joined(texts(lines@).take(0)));
    }
    while i < lines.len()
        invariant
            i <= lines.len(),
            prompt@ == joined(texts(lines@).take(i as int)),
        decreases lines.len() - i,
    {
        proof {
            assert(texts(lines@).take(i + 1).drop_last() =~= texts(lines@).take(i as int));
        }
        if i > 0 {
            push_char(&mut prompt, '\n');
        }
        prompt.append(lines[i].as_str());
        i += 1;
        assert(prompt@ =~= joined(texts(lines@).take(i as int)));
    }
    assert(texts(lines@).take(lines.len() as int) =~= texts(lines@));
    prompt.append("\n\nREMINDER: Format 'ID:::TranslatedText'.");
    prompt
}

/// The request for the translation of `lines` under `config`.
pub fn build_request(config: &TranslatorConfig, lines: &Vec<String>) -> (request: ChatRequest)
    ensures
        request.url@ == endpoint(config.base_url@, "/chat/completions"@),
        request.authorization@ == bearer(config.api_key@),
        request.model@ == config.model@,
        request.system_prompt@ == config.system_prompt@,
        request.user_prompt@ == prompt_for(texts(lines@)),
        request.temperature_bits == config.temperature_bits,
        request.max_tokens == config.max_tokens,
        request.top_p_bits == config.top_p_bits,
        request.top_k == top_k_field(config.top_k),
        request.stream == config.stream,
{
    ChatRequest {
        url: endpoint_url(config.base_url.as_str(), "/chat/completions"),
        authorization: authorization(config.api_key.as_str()),
        model: config.model.clone(),
        system_prompt: config.system_prompt.clone(),
        user_prompt: build_prompt(lines),
        temperature_bits: config.temperature_bits,
        max_tokens: config.max_tokens,
        top_p_bits: config.top_p_bits,
        top_k: if config.top_k > 0 {
            Some(config.top_k)
        } else {
            None
        },
        stream: config.stream,
    }
}

} // verus!
