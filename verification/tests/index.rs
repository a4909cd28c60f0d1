use newtron::index::history::{
    chromium_history_row, firefox_history_row, import_all, is_arc_package, is_chromium_profile,
    SourceOutcome, CHROME_EPOCH_OFFSET, MAX_ROWS_PER_SOURCE,
};
use newtron::index::local::{
    escape_like, local_query, matching_rows, name_contains_pattern, subtree_patterns, wants_fuzzy_scan,
    with_trailing_sep, FUZZY_FALLBACK_THRESHOLD, FUZZY_SCAN_LIMIT, SQL_CANDIDATE_LIMIT,
};
use newtron::index::local_ranking::{self, subsequence_gaps, word_starts};
use newtron::index::ranking;
use newtron::index::{
    catalog_host, catalog_url, domain_like_pattern, interval_elapsed, normalize_query, stamp_text,
    suggestion_limit, CANDIDATE_LIMIT,
};

fn chars(s: &str) -> Vec<char> {
    s.chars().collect()
}

#[test]
fn normalize_query_matches_scheme_and_www_variants() {
    assert_eq!(normalize_query("HTTPS://www.GitHub"), "github");
    assert_eq!(normalize_query("github"), "github");
    assert_eq!(normalize_query(&normalize_query("HTTPS://www.GitHub")), normalize_query("github"));
}

#[test]
fn normalize_query_trims_and_drops_trailing_slashes() {
    assert_eq!(normalize_query("  http://Example.com/// "), "example.com");
    assert_eq!(normalize_query("www.rust-lang.org/"), "rust-lang.org");
    assert_eq!(normalize_query("   "), "");
}

#[test]
fn normalize_query_strips_only_one_scheme() {
    assert_eq!(normalize_query("https://http://x"), "http://x");
}

#[test]
fn domain_like_pattern_drops_wildcards() {
    assert_eq!(domain_like_pattern("git_h%ub"), "%github%");
    assert_eq!(domain_like_pattern(""), "%%");
}

#[test]
fn interval_gate_without_stamp_is_open() {
    assert!(interval_elapsed(None, 100, 10));
    assert!(interval_elapsed(Some("garbage"), 100, 10));
    assert!(interval_elapsed(Some(""), 100, 10));
}

#[test]
fn interval_gate_compares_strictly() {
    assert!(interval_elapsed(Some("80"), 100, 10));
    assert!(!interval_elapsed(Some("90"), 100, 10));
    assert!(!interval_elapsed(Some("95"), 100, 10));
    assert!(interval_elapsed(Some("+5"), 100, 10));
    assert!(!interval_elapsed(Some("-5"), 0, 10));
}

#[test]
fn interval_gate_does_not_overflow() {
    assert!(interval_elapsed(Some("-9223372036854775808"), i64::MAX, 0));
    assert!(!interval_elapsed(Some("9223372036854775807"), i64::MIN, 0));
}

#[test]
fn stamp_text_is_decimal() {
    assert_eq!(stamp_text(-42), "-42");
    assert_eq!(stamp_text(0), "0");
    assert_eq!(stamp_text(1_700_000_000), "1700000000");
}

#[test]
fn gate_reads_back_its_stamp() {
    let t = 1_700_000_000;
    let stamp = stamp_text(t);
    assert!(!interval_elapsed(Some(&stamp), t + 86_400, 86_400));
    assert!(interval_elapsed(Some(&stamp), t + 86_401, 86_400));
}

#[test]
fn suggestion_limit_defaults_and_caps() {
    assert_eq!(suggestion_limit(None), 6);
    assert_eq!(suggestion_limit(Some(3)), 3);
    assert_eq!(suggestion_limit(Some(20)), 20);
    assert_eq!(suggestion_limit(Some(50)), 20);
    assert_eq!(suggestion_limit(Some(0)), 0);
}

#[test]
fn catalog_entries() {
    assert_eq!(catalog_url("github.com"), "https://github.com");
    assert_eq!(catalog_host("github.com/explore/topics"), "github.com");
    assert_eq!(catalog_host("docs.rs"), "docs.rs");
}

#[test]
fn url_classify_exact_and_prefix() {
    assert_eq!(ranking::classify("github.com", "www.github.com"), Some(ranking::MatchKind::ExactDomain));
    assert_eq!(ranking::classify("www.github.com", "www.github.com"), Some(ranking::MatchKind::ExactDomain));
    assert_eq!(ranking::classify("github", "github.com"), Some(ranking::MatchKind::DomainPrefix));
    assert_eq!(ranking::classify("git", "github.com"), Some(ranking::MatchKind::DomainPrefix));
    assert_eq!(ranking::classify("www", "www.github.com"), Some(ranking::MatchKind::DomainPrefix));
    assert_eq!(ranking::classify("docs", "docs.google.com"), Some(ranking::MatchKind::DomainPrefix));
}

#[test]
fn url_classify_label_prefix() {
    assert_eq!(ranking::classify("wiki", "en.wikipedia.org"), Some(ranking::MatchKind::WordPrefix));
    assert_eq!(ranking::classify("google", "maps.google.com"), Some(ranking::MatchKind::WordPrefix));
}

#[test]
fn url_classify_contains_and_none() {
    assert_eq!(ranking::classify("oogle", "maps.google.com"), Some(ranking::MatchKind::Contains));
    assert_eq!(ranking::classify("xyz", "github.com"), None);
}

#[test]
fn local_classify_tiers() {
    assert_eq!(local_ranking::classify("report", "report", "report"), Some(local_ranking::MatchKind::Exact));
    assert_eq!(local_ranking::classify("rep", "report.pdf", "report.pdf"), Some(local_ranking::MatchKind::Prefix));
    assert_eq!(local_ranking::classify("proj", "my project.docx", "my project.docx"), Some(local_ranking::MatchKind::WordPrefix));
    assert_eq!(local_ranking::classify("port", "report.pdf", "report.pdf"), Some(local_ranking::MatchKind::Contains));
    assert_eq!(local_ranking::classify("shop", "photoshop", "photoshop"), Some(local_ranking::MatchKind::Contains));
}

#[test]
fn local_classify_fuzzy_counts_gaps() {
    assert_eq!(
        local_ranking::classify("rpt", "report.pdf", "report.pdf"),
        Some(local_ranking::MatchKind::Fuzzy { gaps: 3 })
    );
}

#[test]
fn local_classify_no_match() {
    assert_eq!(local_ranking::classify("", "anything", "anything"), None);
    assert_eq!(local_ranking::classify("zz", "report", "report"), None);
}

#[test]
fn word_starts_follow_non_alphanumeric_characters() {
    assert_eq!(word_starts(&chars("my project.docx")), vec![0, 3, 11]);
    assert_eq!(word_starts(&chars("--a")), vec![0, 2]);
    assert_eq!(word_starts(&chars("")), vec![0]);
    assert_eq!(word_starts(&chars("a-b_c")), vec![0, 2, 4]);
}

#[test]
fn subsequence_gaps_greedy() {
    assert_eq!(subsequence_gaps(&chars("rpt"), &chars("report.pdf")), Some(3));
    assert_eq!(subsequence_gaps(&chars("abc"), &chars("ab")), None);
    assert_eq!(subsequence_gaps(&chars(""), &chars("xyz")), Some(0));
    assert_eq!(subsequence_gaps(&chars("ac"), &chars("abcac")), Some(1));
}

#[test]
fn escape_like_escapes_wildcards_and_backslash() {
    assert_eq!(escape_like("50%_off\\"), "50\\%\\_off\\\\");
    assert_eq!(escape_like("plain"), "plain");
}

#[test]
fn trailing_separator() {
    assert_eq!(with_trailing_sep("C:\\Users"), "C:\\Users\\");
    assert_eq!(with_trailing_sep("/home/"), "/home/");
    assert_eq!(with_trailing_sep("C:\\Docs\\"), "C:\\Docs\\");
    assert_eq!(with_trailing_sep(""), "\\");
}

#[test]
fn like_patterns() {
    assert_eq!(
        subtree_patterns("C:\\Docs"),
        ("C:\\\\Docs\\\\%".to_string(), "C:\\\\Docs/%".to_string())
    );
    assert_eq!(name_contains_pattern("a_b"), "%a\\_b%");
}

#[test]
fn matching_rows_dedups_ids_and_classifies() {
    let ids = vec![1, 2, 1, 3];
    let names: Vec<String> = ["report.pdf", "notes.txt", "report.pdf", "my report"]
        .iter()
        .map(|s| s.to_string())
        .collect();
    let rows = matching_rows("rep", &ids, &names, &names);
    assert_eq!(
        rows,
        vec![(0, local_ranking::MatchKind::Prefix), (3, local_ranking::MatchKind::WordPrefix)]
    );
}

#[test]
fn matching_rows_marks_ids_seen_even_when_unmatched() {
    let ids = vec![7, 7];
    let names = vec!["zzz".to_string(), "rep".to_string()];
    assert!(matching_rows("rep", &ids, &names, &names).is_empty());
}

#[test]
fn local_query_trims_and_lowercases() {
    assert_eq!(local_query("  MyFile.TXT "), Some("myfile.txt".to_string()));
    assert_eq!(local_query(" \t "), None);
}

#[test]
fn chromium_rows_convert_timestamps() {
    let r = chromium_history_row("https://a.com".to_string(), Some(String::new()), 5, Some(13_300_000_000_000_000));
    assert_eq!(r.url, "https://a.com");
    assert_eq!(r.title, None);
    assert_eq!(r.visit_count, 5);
    assert_eq!(r.last_visited, Some(13_300_000_000 - CHROME_EPOCH_OFFSET));
    assert_eq!(r.last_visited, Some(1_655_526_400));
}

#[test]
fn chromium_rows_drop_pre_epoch_times() {
    let r = chromium_history_row("u".to_string(), Some("Title".to_string()), 1, Some(0));
    assert_eq!(r.title, Some("Title".to_string()));
    assert_eq!(r.last_visited, None);
    assert_eq!(chromium_history_row("u".to_string(), None, 1, Some(-5)).last_visited, None);
    assert_eq!(chromium_history_row("u".to_string(), None, 1, None).last_visited, None);
}

#[test]
fn firefox_rows_convert_timestamps() {
    let r = firefox_history_row("u".to_string(), Some("T".to_string()), 2, Some(1_700_000_000_123_456));
    assert_eq!(r.last_visited, Some(1_700_000_000));
    assert_eq!(r.title, Some("T".to_string()));
    assert_eq!(firefox_history_row("u".to_string(), None, 2, Some(999_999)).last_visited, None);
}

#[test]
fn import_all_tallies_sources() {
    let outcomes = [
        SourceOutcome::Unreadable,
        SourceOutcome::Empty,
        SourceOutcome::Merged(10),
        SourceOutcome::Merged(5),
    ];
    let stats = import_all(&outcomes);
    assert_eq!(stats.sources_found, 3);
    assert_eq!(stats.rows_imported, 15);
    let none = import_all(&[]);
    assert_eq!(none.sources_found, 0);
    assert_eq!(none.rows_imported, 0);
}

#[test]
fn chromium_profiles() {
    assert!(is_chromium_profile("Default"));
    assert!(is_chromium_profile("Profile 2"));
    assert!(!is_chromium_profile("Profile"));
    assert!(!is_chromium_profile("System Profile"));
    assert!(!is_chromium_profile("default"));
}

#[test]
fn arc_packages() {
    assert!(is_arc_package("TheBrowserCompany.Arc_ttt1234"));
    assert!(!is_arc_package("TheBrowserCompany.Other"));
}

#[test]
fn index_limits() {
    assert_eq!(CANDIDATE_LIMIT, 64);
    assert_eq!(SQL_CANDIDATE_LIMIT, 200);
    assert_eq!(FUZZY_SCAN_LIMIT, 4000);
    assert_eq!(FUZZY_FALLBACK_THRESHOLD, 6);
    assert_eq!(MAX_ROWS_PER_SOURCE, 4000);
}

#[test]
fn matching_domains_keeps_matches_in_order() {
    let domains: Vec<String> = ["www.github.com", "gitlab.com", "docs.github.com", "example.org"]
        .iter()
        .map(|s| s.to_string())
        .collect();
    assert_eq!(
        ranking::matching_domains("github", &domains),
        vec![(0, ranking::MatchKind::DomainPrefix), (2, ranking::MatchKind::WordPrefix)]
    );
    assert!(ranking::matching_domains("zzz", &domains).is_empty());
}

#[test]
fn fuzzy_scan_below_threshold() {
    assert!(wants_fuzzy_scan(0));
    assert!(wants_fuzzy_scan(5));
    assert!(!wants_fuzzy_scan(6));
}

#[test]
fn word_starts_include_camel_case_steps() {
    assert_eq!(word_starts(&chars("PhotoShop")), vec![0, 5]);
    assert_eq!(word_starts(&chars("MyProjectNotes.txt")), vec![0, 2, 9, 15]);
    assert_eq!(word_starts(&chars("XMLParser")), vec![0]);
}

#[test]
fn local_classify_word_prefix_at_camel_case_step() {
    assert_eq!(
        local_ranking::classify("shop", "photoshop", "PhotoShop"),
        Some(local_ranking::MatchKind::WordPrefix)
    );
    assert_eq!(
        local_ranking::classify("notes", "myprojectnotes.txt", "MyProjectNotes.txt"),
        Some(local_ranking::MatchKind::WordPrefix)
    );
}

#[test]
fn local_classify_without_case_step_is_substring() {
    assert_eq!(
        local_ranking::classify("shop", "photoshop", "Photoshop"),
        Some(local_ranking::MatchKind::Contains)
    );
}

#[test]
fn matching_rows_reads_word_starts_from_stored_names() {
    let ids = vec![1, 2];
    let lower = vec!["photoshop".to_string(), "photoshop".to_string()];
    let stored = vec!["PhotoShop".to_string(), "photoshop".to_string()];
    assert_eq!(
        matching_rows("shop", &ids, &lower, &stored),
        vec![(0, local_ranking::MatchKind::WordPrefix), (1, local_ranking::MatchKind::Contains)]
    );
}

#[test]
fn subtree_patterns_escape_wildcards_in_the_folder() {
    assert_eq!(
        subtree_patterns("C:\\a_b"),
        ("C:\\\\a\\_b\\\\%".to_string(), "C:\\\\a\\_b/%".to_string())
    );
    assert_eq!(subtree_patterns("/d/50%"), ("/d/50\\%\\\\%".to_string(), "/d/50\\%/%".to_string()));
}

#[test]
fn subtree_patterns_of_a_folder_ending_in_a_separator() {
    assert_eq!(subtree_patterns("/d/x/"), ("/d/x/%".to_string(), "/d/x/%".to_string()));
}
