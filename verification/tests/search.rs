use newtron::assistant::ask_newtron;
use newtron::search::bing::{self, BingProvider};
use newtron::search::brave::{keep_nonempty, BraveProvider};
use newtron::search::browser_fallback::DefaultBrowserFallback;
use newtron::search::chain::{cache_key, ChainStep, ProviderChain, FAILURE_TTL_SECS, RESULT_TTL_SECS};
use newtron::search::duckduckgo::{self, decode_redirect, DuckDuckGoProvider};
use newtron::search::google::GoogleProvider;
use newtron::search::{
    api_results, favicon_for, host_of, snippet_string, trimmed_string, url_favicon, ApiItem,
    SearchResult, MAX_RESULTS,
};

fn item(title: &str, url: &str, snippet: &str) -> ApiItem {
    ApiItem { title: title.to_string(), url: url.to_string(), snippet: snippet.to_string() }
}

fn result(title: &str, url: &str) -> SearchResult {
    SearchResult {
        title: title.to_string(),
        snippet: String::new(),
        url: url.to_string(),
        favicon: None,
        source: "test".to_string(),
    }
}

#[test]
fn host_of_strips_scheme_path_query_and_fragment() {
    assert_eq!(host_of("https://www.github.com/rust-lang?tab=repos"), Some("www.github.com".to_string()));
    assert_eq!(host_of("http://a.b#frag"), Some("a.b".to_string()));
    assert_eq!(host_of("ftp://files.example.org?x"), Some("files.example.org".to_string()));
}

#[test]
fn host_of_without_scheme_reads_from_the_start() {
    assert_eq!(host_of("example.com/path"), Some("example.com".to_string()));
}

#[test]
fn host_of_empty_host_is_none() {
    assert_eq!(host_of("https:///path"), None);
    assert_eq!(host_of(""), None);
    assert_eq!(host_of("/relative/page"), None);
}

#[test]
fn favicon_for_uses_the_icon_proxy() {
    assert_eq!(favicon_for("github.com"), "https://external-content.duckduckgo.com/ip3/github.com.ico");
}

#[test]
fn url_favicon_follows_the_host() {
    assert_eq!(
        url_favicon("https://docs.rs/serde/latest"),
        Some("https://external-content.duckduckgo.com/ip3/docs.rs.ico".to_string())
    );
    assert_eq!(url_favicon("/relative"), None);
}

#[test]
fn trimmed_and_snippet_strings() {
    assert_eq!(trimmed_string("  hello world \n"), "hello world");
    assert_eq!(snippet_string(&Some("\t a snippet  ".to_string())), "a snippet");
    assert_eq!(snippet_string(&None), "");
}

#[test]
fn decode_redirect_unwraps_uddg_links() {
    assert_eq!(
        decode_redirect("//duckduckgo.com/l/?uddg=https%3A%2F%2Fwww.rust-lang.org%2F&rut=abc"),
        Some("https://www.rust-lang.org/".to_string())
    );
}

#[test]
fn decode_redirect_keeps_direct_and_protocol_relative_links() {
    assert_eq!(decode_redirect("https://example.com/a"), Some("https://example.com/a".to_string()));
    assert_eq!(decode_redirect("http://example.com"), Some("http://example.com".to_string()));
    assert_eq!(decode_redirect("//example.com/a"), Some("https://example.com/a".to_string()));
}

#[test]
fn decode_redirect_rejects_other_links() {
    assert_eq!(decode_redirect("/relative/page"), None);
    assert_eq!(decode_redirect(""), None);
}

#[test]
fn decode_redirect_rejects_undecodable_targets() {
    // %FF is not valid UTF-8 on its own.
    assert_eq!(decode_redirect("/l/?uddg=%FF&x=1"), None);
}

#[test]
fn decode_redirect_keeps_malformed_escapes_literally() {
    assert_eq!(decode_redirect("/l/?uddg=a%ZZb%4"), Some("a%ZZb%4".to_string()));
}

const DDG_PAGE: &str = "<html><body>
<div class='result__body'>
  <h2 class='result__title'><a class='result__a' href='//duckduckgo.com/l/?uddg=https%3A%2F%2Fwww.rust-lang.org%2F&amp;rut=x'>  Rust Programming Language </a></h2>
  <a class='result__snippet' href='/snip'> A language empowering everyone. </a>
</div>
<div class='result__body'>
  <h2 class='result__title'><a class='result__a' href='https://doc.rust-lang.org/book/'>The <b>Book</b></a></h2>
</div>
<div class='result__body'>
  <h2 class='result__title'><a class='result__a' href='/nowhere'>Dropped</a></h2>
</div>
<div class='result__body'>
  <h2 class='result__title'><a class='result__a' href='https://x.org/'>   </a></h2>
</div>
<div class='result__body'><p>no link</p></div>
</body></html>";

#[test]
fn duckduckgo_parse_extracts_results() {
    let r = duckduckgo::parse(DDG_PAGE);
    assert_eq!(r.len(), 2);
    assert_eq!(r[0].title, "Rust Programming Language");
    assert_eq!(r[0].snippet, "A language empowering everyone.");
    assert_eq!(r[0].url, "https://www.rust-lang.org/");
    assert_eq!(
        r[0].favicon,
        Some("https://external-content.duckduckgo.com/ip3/www.rust-lang.org.ico".to_string())
    );
    assert_eq!(r[0].source, "DuckDuckGo");
    assert_eq!(r[1].title, "The Book");
    assert_eq!(r[1].snippet, "");
    assert_eq!(r[1].url, "https://doc.rust-lang.org/book/");
    assert_eq!(
        r[1].favicon,
        Some("https://external-content.duckduckgo.com/ip3/doc.rust-lang.org.ico".to_string())
    );
}

#[test]
fn duckduckgo_parse_of_unrelated_page_is_empty() {
    assert!(duckduckgo::parse("<html><body><p>consent</p></body></html>").is_empty());
    assert!(duckduckgo::parse("").is_empty());
}

#[test]
fn duckduckgo_parse_looks_at_eight_blocks() {
    let mut page = String::from("<html><body>");
    for i in 0..10 {
        page.push_str(&format!(
            "<div class='result__body'><h2 class='result__title'><a class='result__a' href='https://site{}.com/'>Site {}</a></h2></div>",
            i, i
        ));
    }
    page.push_str("</body></html>");
    let r = duckduckgo::parse(&page);
    assert_eq!(r.len(), MAX_RESULTS);
    assert_eq!(r[7].url, "https://site7.com/");
}

const BING_PAGE: &str = "<html><body><ol id='b_results'>
<li class='b_algo'><h2><a href='https://www.rust-lang.org/'>Rust <strong>Language</strong></a></h2>
  <div class='b_caption'><p> Fast, reliable, productive. </p></div></li>
<li class='b_algo'><h2><a href='/search?q=next'>Internal</a></h2></li>
<li class='b_algo'><h2><a href='https://crates.io/'>Crates</a></h2><p class='b_lineclamp2'>The registry</p></li>
<li class='b_algo'><h2><a>No href</a></h2></li>
<li class='b_algo'><h2><a href='https://empty.example/'>  </a></h2></li>
</ol></body></html>";

#[test]
fn bing_parse_extracts_results() {
    let r = bing::parse(BING_PAGE);
    assert_eq!(r.len(), 2);
    assert_eq!(r[0].title, "Rust Language");
    assert_eq!(r[0].snippet, "Fast, reliable, productive.");
    assert_eq!(r[0].url, "https://www.rust-lang.org/");
    assert_eq!(
        r[0].favicon,
        Some("https://external-content.duckduckgo.com/ip3/www.rust-lang.org.ico".to_string())
    );
    assert_eq!(r[0].source, "Bing");
    assert_eq!(r[1].title, "Crates");
    assert_eq!(r[1].snippet, "The registry");
    assert_eq!(r[1].url, "https://crates.io/");
}

#[test]
fn provider_names() {
    assert_eq!(DuckDuckGoProvider.name(), "DuckDuckGo");
    assert_eq!(BingProvider.name(), "Bing");
    assert_eq!(BraveProvider::from_key(None).name(), "Brave");
    assert_eq!(GoogleProvider::from_keys(None, None).name(), "Google");
}

#[test]
fn brave_needs_a_nonempty_key() {
    assert!(!BraveProvider::from_key(None).available());
    assert!(!BraveProvider::from_key(Some(String::new())).available());
    let p = BraveProvider::from_key(Some("k123".to_string()));
    assert!(p.available());
    assert_eq!(p.api_key(), Ok(&"k123".to_string()));
    assert_eq!(BraveProvider::from_key(None).api_key(), Err("no API key configured".to_string()));
}

#[test]
fn keep_nonempty_drops_empty_values() {
    assert_eq!(keep_nonempty(Some("x".to_string())), Some("x".to_string()));
    assert_eq!(keep_nonempty(Some(String::new())), None);
    assert_eq!(keep_nonempty(None), None);
}

#[test]
fn google_needs_key_and_engine() {
    assert!(!GoogleProvider::from_keys(Some("k".to_string()), None).available());
    assert!(!GoogleProvider::from_keys(Some("k".to_string()), Some(String::new())).available());
    assert!(!GoogleProvider::from_keys(None, Some("cx".to_string())).available());
    let p = GoogleProvider::from_keys(Some("k".to_string()), Some("cx".to_string()));
    assert!(p.available());
    assert_eq!(p.credentials(), Ok((&"k".to_string(), &"cx".to_string())));
    assert_eq!(
        GoogleProvider::from_keys(None, None).credentials(),
        Err("no API key configured".to_string())
    );
}

#[test]
fn api_results_keep_order_and_add_favicons() {
    let items = vec![
        item("Rust", "https://www.rust-lang.org/learn", "Learn Rust"),
        item("Local", "not a url/", ""),
    ];
    let r = api_results(&items, "Brave");
    assert_eq!(r.len(), 2);
    assert_eq!(r[0].title, "Rust");
    assert_eq!(r[0].snippet, "Learn Rust");
    assert_eq!(r[0].url, "https://www.rust-lang.org/learn");
    assert_eq!(
        r[0].favicon,
        Some("https://external-content.duckduckgo.com/ip3/www.rust-lang.org.ico".to_string())
    );
    assert_eq!(r[0].source, "Brave");
    assert_eq!(r[1].favicon, Some("https://external-content.duckduckgo.com/ip3/not a url.ico".to_string()));
}

#[test]
fn api_results_are_capped_at_eight() {
    let items: Vec<ApiItem> = (0..12).map(|i| item(&format!("t{i}"), &format!("https://s{i}.org"), "")).collect();
    let r = BraveProvider::results(&items);
    assert_eq!(r.len(), 8);
    assert_eq!(r[7].title, "t7");
    let few: Vec<ApiItem> = (0..3).map(|i| item(&format!("t{i}"), &format!("https://s{i}.org"), "")).collect();
    let g = GoogleProvider::results(&few);
    assert_eq!(g.len(), 3);
    assert_eq!(g[2].source, "Google");
}

#[test]
fn build_url_percent_encodes_the_trimmed_query() {
    assert_eq!(
        DefaultBrowserFallback::build_url("  rust borrow checker "),
        "https://www.google.com/search?q=rust%20borrow%20checker"
    );
    assert_eq!(
        DefaultBrowserFallback::build_url("a&b=c/d?é"),
        "https://www.google.com/search?q=a%26b%3Dc%2Fd%3F%C3%A9"
    );
    assert_eq!(DefaultBrowserFallback::build_url("safe-._~"), "https://www.google.com/search?q=safe-._~");
}

#[test]
fn open_target_rejects_empty_query() {
    assert_eq!(DefaultBrowserFallback::open_target("   "), Err("empty query".to_string()));
    assert_eq!(
        DefaultBrowserFallback::open_target(" cats "),
        Ok("https://www.google.com/search?q=cats".to_string())
    );
}

#[test]
fn cache_key_trims_and_lowercases() {
    assert_eq!(cache_key("  Rust LANG "), "rust lang");
    assert_eq!(cache_key(""), "");
}

#[test]
fn chain_returns_first_nonempty_answer() {
    let mut chain = ProviderChain::new();
    assert!(matches!(
        chain.record("Google", Err("HTTP 403".to_string())),
        ChainStep::Next { mark_failed: true }
    ));
    assert!(matches!(chain.record("DuckDuckGo", Ok(vec![])), ChainStep::Next { mark_failed: false }));
    match chain.record("Bing", Ok(vec![result("a", "https://a.com")])) {
        ChainStep::Answer(v) => assert_eq!(v[0].url, "https://a.com"),
        ChainStep::Next { .. } => panic!("expected an answer"),
    }
    assert_eq!(chain.failure(), "Google: HTTP 403; DuckDuckGo: no results");
}

#[test]
fn chain_eligibility() {
    assert!(ProviderChain::eligible(true, false));
    assert!(!ProviderChain::eligible(false, false));
    assert!(!ProviderChain::eligible(true, true));
}

#[test]
fn chain_without_providers_reports_none_available() {
    let chain = ProviderChain::new();
    assert_eq!(chain.failure(), "no search providers available");
}

#[test]
fn chain_single_failure_has_no_separator() {
    let mut chain = ProviderChain::new();
    assert!(matches!(chain.record("Brave", Err("timeout".to_string())), ChainStep::Next { mark_failed: true }));
    assert_eq!(chain.failure(), "Brave: timeout");
}

#[test]
fn search_time_limits() {
    assert_eq!(RESULT_TTL_SECS, 300);
    assert_eq!(FAILURE_TTL_SECS, 120);
}

#[test]
fn ask_newtron_placeholder_reply() {
    assert_eq!(
        ask_newtron("hi"),
        "Newtron AI is a placeholder for now. You asked: \"hi\" — real model integration is next on the roadmap."
    );
}
