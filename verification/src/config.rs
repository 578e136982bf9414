//! Application configuration.
use vstd::prelude::*;

verus! {

/// Application configuration.
#[derive(Debug, Clone)]
pub struct AppConfig {
    /// LLM API key
    pub api_key: Option<String>,
    /// API base URL
    pub api_base: Option<String>,
    /// Model name
    pub model: Option<String>,
    /// Language
    pub language: Option<String>,
}

/// The text of an optional string setting.
pub open spec fn opt_view(o: Option<String>) -> Option<Seq<char>> {
    match o {
        Some(s) => Some(s@),
        None => None,
    }
}

/// A copy of an optional string setting.
pub fn copy_opt(o: &Option<String>) -> (r: Option<String>)
    ensures
        opt_view(r) == opt_view(*o),
{
    match o {
        Some(s) => Some(s.clone()),
        None => None,
    }
}

impl Default for AppConfig {
    /// No API key, the OpenAI endpoint, `gpt-3.5-turbo`, Chinese.
    fn default() -> (r: Self)
        ensures
            r.api_key is None,
            opt_view(r.api_base) == Some("https://api.openai.com"@),
            opt_view(r.model) == Some("gpt-3.5-turbo"@),
            opt_view(r.language) == Some("zh-CN"@),
    {
        AppConfig {
            api_key: None,
            api_base: Some("https://api.openai.com".to_owned()),
            model: Some("gpt-3.5-turbo".to_owned()),
            language: Some("zh-CN".to_owned()),
        }
    }
}

} // verus!
