//! Search engines and their query URLs.

use vstd::prelude::*;
use vstd::string::StringExecFns;

verus! {

/// The percent-encoded form of a query; it depends on the characters alone.
pub uninterp spec fn url_encoded(q: Seq<char>) -> Seq<char>;

/// Relies on `urlencoding::encode`: percent-encoding whose result is a
/// function of the characters alone, named [`url_encoded`].
#[verifier::external_body]
fn url_encode(q: &str) -> (r: String)
    ensures
        r@ == url_encoded(q@),
{
    urlencoding::encode(q).into_owned()
}

/// The selectable search engines.
#[derive(Debug, Default, Clone, Copy, PartialEq, Eq)]
pub enum SearchEngine {
    #[default]
    Google,
    Naver,
    Bing,
    DuckDuckGo,
    Ecosia,
}

/// An engine's display name.
pub open spec fn engine_name(e: SearchEngine) -> Seq<char> {
    match e {
        SearchEngine::Google => "Google"@,
        SearchEngine::Naver => "Naver"@,
        SearchEngine::Bing => "Bing"@,
        SearchEngine::DuckDuckGo => "DuckDuckGo"@,
        SearchEngine::Ecosia => "Ecosia"@,
    }
}

/// An engine's search URL up to the encoded query.
pub open spec fn engine_prefix(e: SearchEngine) -> Seq<char> {
    match e {
        SearchEngine::Google => "https://www.google.com/search?q="@,
        SearchEngine::Naver => "https://search.naver.com/search.naver?query="@,
        SearchEngine::Bing => "https://www.bing.com/search?q="@,
        SearchEngine::DuckDuckGo => "https://duckduckgo.com/?q="@,
        SearchEngine::Ecosia => "https://www.ecosia.org/search?q="@,
    }
}

impl SearchEngine {
    /// The engine's display name.
    pub fn as_str(&self) -> (r: &'static str)
        ensures
            r@ == engine_name(*self),
    {
        match self {
            SearchEngine::Google => "Google",
            SearchEngine::Naver => "Naver",
            SearchEngine::Bing => "Bing",
            SearchEngine::DuckDuckGo => "DuckDuckGo",
            SearchEngine::Ecosia => "Ecosia",
        }
    }

    /// The engine's full search URL for a query: its prefix followed by the
    /// percent-encoded query.
    pub fn url(&self, query: &str) -> (r: String)
        ensures
            r@ == engine_prefix(*self) + url_encoded(query@),
    {
        let q = url_encode(query);
        let prefix = match self {
            SearchEngine::Google => String::from_str("https://www.google.com/search?q="),
            SearchEngine::Naver => String::from_str("https://search.naver.com/search.naver?query="),
            SearchEngine::Bing => String::from_str("https://www.bing.com/search?q="),
            SearchEngine::DuckDuckGo => String::from_str("https://duckduckgo.com/?q="),
            SearchEngine::Ecosia => String::from_str("https://www.ecosia.org/search?q="),
        };
        prefix.concat(q.as_str())
    }
}

} // verus!
