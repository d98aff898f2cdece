use virtual_events::model::{Category, Event, Instant, Language};
use virtual_events::partition::{build_partitions, Scope};
use virtual_events::ranking::{count_entries, rank_counts, CountEntry};
use virtual_events::render::{artifacts_for, digest_title, index_path, page_text, Format};
use virtual_events::site::{plan_site, publish_plan};
use virtual_events::source::{
    check_records, merge_sources, parse_record, read_source, Field, SchemaError, SourceError,
};
use virtual_events::timeline::{filter_upcoming, localize, prepare_events};

// 2024-06-06T18:00:00Z
const JUNE_SIXTH: i64 = 1_717_696_800;

fn at(secs: i64) -> Instant {
    Instant { secs, nanos: 0 }
}

fn record(title: &str, language: &str, start: &str, category: &str) -> String {
    format!(
        "- title: {title}\n  url: https://example.org/{title}\n  name: Group {title}\n  address: Online\n  language: {language}\n  start: {start}\n  category: {category}\n"
    )
}

fn event(title: &str, language: Language, category: Category, secs: i64) -> Event {
    Event {
        title: title.to_string(),
        url: format!("https://example.org/{title}"),
        name: format!("Group {title}"),
        address: "Online".to_string(),
        language,
        start: at(secs),
        category,
        utc: String::new(),
        est: String::new(),
        pst: String::new(),
        nzl: String::new(),
    }
}

fn pairs(fields: &[(&str, &str)]) -> Vec<(String, String)> {
    fields.iter().map(|(k, v)| (k.to_string(), v.to_string())).collect()
}

fn full_record() -> Vec<(String, String)> {
    pairs(&[
        ("title", "Meetup"),
        ("url", "https://example.org"),
        ("name", "Group"),
        ("address", "Online"),
        ("language", "French"),
        ("start", "2024-06-06T18:00:00+03:00"),
        ("category", "Python"),
    ])
}

fn entry(label: &str, count: usize) -> CountEntry {
    CountEntry { label: label.to_string(), count }
}

#[test]
fn reads_a_well_formed_document() {
    let text = record("A", "English", "2024-06-06T18:00:00+03:00", "Rust")
        + &record("B", "Hebrew", "2024-07-01T09:30:00Z", "Perl");
    let events = read_source(&text).unwrap();
    assert_eq!(events.len(), 2);
    assert_eq!(events[0].title, "A");
    assert_eq!(events[0].url, "https://example.org/A");
    assert_eq!(events[0].name, "Group A");
    assert_eq!(events[0].address, "Online");
    assert_eq!(events[0].language, Language::English);
    assert_eq!(events[0].category, Category::Rust);
    assert_eq!(events[0].start, at(JUNE_SIXTH - 3 * 3600));
    assert_eq!(events[0].utc, "");
    assert_eq!(events[1].language, Language::Hebrew);
    assert_eq!(events[1].category, Category::Perl);
    assert_eq!(events[1].start, at(1_719_826_200));
}

#[test]
fn rejects_an_unexpected_field() {
    let text = record("A", "English", "2024-06-06T18:00:00Z", "Rust") + "  extra: value\n";
    match read_source(&text) {
        Err(SourceError::Schema { record, problem }) => {
            assert_eq!(record, 0);
            // keys arrive in key order: address, category, extra, ...
            assert_eq!(problem, SchemaError::UnknownField { position: 2 });
        }
        other => panic!("unexpected outcome {:?}", other),
    }
}

#[test]
fn rejects_a_language_outside_the_enumeration() {
    let text = record("A", "English", "2024-06-06T18:00:00Z", "Rust")
        + &record("B", "english", "2024-06-06T18:00:00Z", "Rust");
    match read_source(&text) {
        Err(SourceError::Schema { record, problem }) => {
            assert_eq!(record, 1);
            assert_eq!(problem, SchemaError::BadLanguage);
        }
        other => panic!("unexpected outcome {:?}", other),
    }
}

#[test]
fn rejects_a_category_outside_the_enumeration() {
    let text = record("A", "English", "2024-06-06T18:00:00Z", "Go");
    match read_source(&text) {
        Err(SourceError::Schema { record: 0, problem }) => {
            assert_eq!(problem, SchemaError::BadCategory)
        }
        other => panic!("unexpected outcome {:?}", other),
    }
}

#[test]
fn rejects_a_malformed_timestamp() {
    let text = record("A", "English", "2024-06-06 at six", "Rust");
    match read_source(&text) {
        Err(SourceError::Schema { record: 0, problem }) => {
            assert_eq!(problem, SchemaError::BadTimestamp)
        }
        other => panic!("unexpected outcome {:?}", other),
    }
    let naive = record("A", "English", "2024-06-06T18:00:00", "Rust");
    assert!(matches!(
        read_source(&naive),
        Err(SourceError::Schema { record: 0, problem: SchemaError::BadTimestamp })
    ));
}

#[test]
fn rejects_text_that_is_not_a_list_of_records() {
    assert!(matches!(read_source("title: [unclosed"), Err(SourceError::Syntax { .. })));
    assert!(matches!(read_source("- just a string\n"), Err(SourceError::Syntax { .. })));
}

#[test]
fn reads_a_record_in_any_field_order() {
    let e = parse_record(&full_record()).unwrap();
    assert_eq!(e.title, "Meetup");
    assert_eq!(e.language, Language::French);
    assert_eq!(e.category, Category::Python);
    assert_eq!(e.start, at(JUNE_SIXTH - 3 * 3600));
    let mut reversed = full_record();
    reversed.reverse();
    assert_eq!(parse_record(&reversed).unwrap().title, "Meetup");
}

#[test]
fn reports_missing_duplicate_and_unknown_fields() {
    let mut missing = full_record();
    missing.remove(3);
    missing.remove(0);
    assert_eq!(
        parse_record(&missing).unwrap_err(),
        SchemaError::MissingField { field: Field::Title }
    );
    let mut repeated = full_record();
    repeated.insert(2, ("title".to_string(), "Again".to_string()));
    assert_eq!(parse_record(&repeated).unwrap_err(), SchemaError::DuplicateField { position: 2 });
    let mut unknown = full_record();
    unknown.push(("utc".to_string(), "Jun 06 18:00".to_string()));
    assert_eq!(parse_record(&unknown).unwrap_err(), SchemaError::UnknownField { position: 7 });
    let bad_language = {
        let mut f = full_record();
        f[4].1 = "German".to_string();
        f
    };
    assert_eq!(parse_record(&bad_language).unwrap_err(), SchemaError::BadLanguage);
}

#[test]
fn first_bad_record_is_reported() {
    let mut bad = full_record();
    bad[6].1 = "Ruby".to_string();
    let records = vec![full_record(), bad, pairs(&[("title", "x")])];
    match check_records(&records) {
        Err(SourceError::Schema { record, problem }) => {
            assert_eq!(record, 1);
            assert_eq!(problem, SchemaError::BadCategory);
        }
        other => panic!("unexpected outcome {:?}", other),
    }
}

#[test]
fn sources_are_joined_in_order() {
    let first = vec![
        event("r1", Language::English, Category::Rust, 10),
        event("r2", Language::English, Category::Rust, 5),
    ];
    let second = vec![event("p1", Language::French, Category::Python, 1)];
    let merged = merge_sources(&vec![first, vec![], second]);
    let titles: Vec<&str> = merged.iter().map(|e| e.title.as_str()).collect();
    assert_eq!(titles, vec!["r1", "r2", "p1"]);
}

#[test]
fn an_event_starting_exactly_now_is_kept() {
    let now = Instant { secs: JUNE_SIXTH, nanos: 500 };
    let events = vec![
        event("past", Language::English, Category::Rust, JUNE_SIXTH - 1),
        Event { start: Instant { secs: JUNE_SIXTH, nanos: 499 }, ..event("just-before", Language::English, Category::Rust, 0) },
        Event { start: now, ..event("now", Language::English, Category::Rust, 0) },
        event("later", Language::French, Category::Perl, JUNE_SIXTH + 60),
    ];
    let kept = filter_upcoming(&events, now);
    let titles: Vec<&str> = kept.iter().map(|e| e.title.as_str()).collect();
    assert_eq!(titles, vec!["now", "later"]);
    for e in &kept {
        assert!(e.start.is_at_or_after(&now));
    }
}

#[test]
fn localizes_a_summer_instant() {
    let e = localize(event("x", Language::English, Category::Rust, JUNE_SIXTH)).unwrap();
    assert_eq!(e.utc, "Jun 06 18:00");
    assert_eq!(e.est, "Jun 06 14:00");
    assert_eq!(e.pst, "Jun 06 11:00");
    assert_eq!(e.nzl, "Jun 07 06:00");
    assert_eq!(e.title, "x");
    assert_eq!(e.start, at(JUNE_SIXTH));
}

#[test]
fn localizes_a_winter_instant() {
    // 2024-01-15T18:00:00Z: standard time in the US, daylight time in Auckland
    let e = localize(event("x", Language::English, Category::Rust, 1_705_341_600)).unwrap();
    assert_eq!(e.utc, "Jan 15 18:00");
    assert_eq!(e.est, "Jan 15 13:00");
    assert_eq!(e.pst, "Jan 15 10:00");
    assert_eq!(e.nzl, "Jan 16 07:00");
}

#[test]
fn localization_fails_outside_the_calendar() {
    assert!(localize(event("x", Language::English, Category::Rust, i64::MAX)).is_none());
    let events = vec![event("x", Language::English, Category::Rust, i64::MAX)];
    assert!(prepare_events(&events, at(0)).is_none());
    assert_eq!(prepare_events(&events, at(i64::MAX)).is_none(), true);
    assert_eq!(prepare_events(&vec![], at(0)).unwrap().len(), 0);
}

#[test]
fn prepares_only_upcoming_events() {
    let events = vec![
        event("old", Language::English, Category::Rust, JUNE_SIXTH - 86_400),
        event("new", Language::English, Category::Rust, JUNE_SIXTH),
    ];
    let ready = prepare_events(&events, at(JUNE_SIXTH)).unwrap();
    assert_eq!(ready.len(), 1);
    assert_eq!(ready[0].title, "new");
    assert_eq!(ready[0].utc, "Jun 06 18:00");
}

#[test]
fn every_partition_is_built_even_when_empty() {
    let events = vec![
        event("a", Language::English, Category::Rust, 1),
        event("b", Language::French, Category::Rust, 2),
        event("c", Language::English, Category::Perl, 3),
    ];
    let parts = build_partitions(&events);
    assert_eq!(parts.len(), 13);
    let labels: Vec<&str> = parts.iter().map(|p| p.label.as_str()).collect();
    assert_eq!(
        labels,
        vec![
            "All", "Perl", "Perl-English", "Perl-French", "Perl-Hebrew", "Python",
            "Python-English", "Python-French", "Python-Hebrew", "Rust", "Rust-English",
            "Rust-French", "Rust-Hebrew"
        ]
    );
    let roots: Vec<&str> = parts.iter().map(|p| p.root.as_str()).collect();
    assert_eq!(roots[0], "all");
    assert_eq!(roots[5], "python");
    assert_eq!(roots[12], "rust-hebrew");
    assert_eq!(parts[0].scope, Scope::All);
    assert_eq!(parts[10].scope, Scope::OfPair(Category::Rust, Language::English));
    let sizes: Vec<usize> = parts.iter().map(|p| p.events.len()).collect();
    assert_eq!(sizes, vec![3, 1, 1, 0, 0, 0, 0, 0, 0, 2, 1, 1, 0]);
    let rust: Vec<&str> = parts[9].events.iter().map(|e| e.title.as_str()).collect();
    assert_eq!(rust, vec!["a", "b"]);
    for p in &parts {
        assert_eq!(artifacts_for(&p.root).len(), 4);
    }
}

#[test]
fn ranking_sorts_by_count_and_reverses_ties() {
    let entries = vec![entry("All", 3), entry("A", 1), entry("B", 2), entry("C", 1), entry("D", 0)];
    let ranked = rank_counts(entries);
    let labels: Vec<&str> = ranked.iter().map(|e| e.label.as_str()).collect();
    assert_eq!(labels, vec!["All", "B", "C", "A", "D"]);
    let counts: Vec<usize> = ranked.iter().map(|e| e.count).collect();
    assert_eq!(counts, vec![3, 2, 1, 1, 0]);
    assert!(rank_counts(vec![]).is_empty());
}

#[test]
fn ranking_is_the_same_for_the_same_input() {
    let make = || vec![entry("x", 2), entry("y", 2), entry("z", 2), entry("w", 5)];
    let a: Vec<String> = rank_counts(make()).into_iter().map(|e| e.label).collect();
    let b: Vec<String> = rank_counts(make()).into_iter().map(|e| e.label).collect();
    assert_eq!(a, b);
    assert_eq!(a, vec!["w", "z", "y", "x"]);
}

#[test]
fn counts_follow_the_partitions() {
    let events = vec![event("a", Language::Hebrew, Category::Perl, 1)];
    let parts = build_partitions(&events);
    let entries = count_entries(&parts);
    assert_eq!(entries.len(), 13);
    assert_eq!(entries[0].label, "All");
    assert_eq!(entries[0].count, 1);
    assert_eq!(entries[4].label, "Perl-Hebrew");
    assert_eq!(entries[4].count, 1);
    assert_eq!(entries[5].count, 0);
}

#[test]
fn artifact_paths_use_the_partition_root() {
    let arts = artifacts_for(&"perl-english".to_string());
    let formats: Vec<Format> = arts.iter().map(|a| a.format).collect();
    assert_eq!(formats, vec![Format::Calendar, Format::Text, Format::Html, Format::Markdown]);
    let paths: Vec<&str> = arts.iter().map(|a| a.path.as_str()).collect();
    assert_eq!(
        paths,
        vec![
            "_site/perl-english.ical",
            "_site/perl-english.txt",
            "_site/perl-english.html",
            "_site/perl-english.md"
        ]
    );
    assert_eq!(index_path(), "_site/index.html");
}

#[test]
fn page_texts_name_the_month() {
    assert_eq!(digest_title(6), "Online Rust events 6");
    assert_eq!(digest_title(12), "Online Rust events 12");
    let t = page_text(at(JUNE_SIXTH)).unwrap();
    assert_eq!(t.title, "Virtual Events");
    assert_eq!(t.now, "2024-06-06 18:00:00 UTC");
    assert_eq!(t.digest_title, "Online Rust events 6");
    assert_eq!(
        t.digest_text,
        "I found the following Rust-related online events for the next 10 days."
    );
    assert!(page_text(at(i64::MAX)).is_none());
}

#[test]
fn two_sources_end_to_end() {
    let now = at(JUNE_SIXTH);
    let rust_doc = record("r-past", "English", "2024-06-01T10:00:00Z", "Rust")
        + &record("r1", "English", "2024-06-10T10:00:00Z", "Rust")
        + &record("r2", "French", "2024-06-11T10:00:00+02:00", "Rust")
        + &record("r3", "English", "2024-06-12T10:00:00-05:00", "Rust");
    let python_doc = record("p1", "French", "2024-06-20T10:00:00Z", "Python")
        + &record("p-past", "English", "2024-06-06T17:59:59Z", "Python")
        + &record("p2", "English", "2024-06-06T18:00:00Z", "Python");
    let sources = vec![read_source(&rust_doc).unwrap(), read_source(&python_doc).unwrap()];
    let site = publish_plan(&sources, now).unwrap();

    let parts = &site.partitions;
    assert_eq!(parts.len(), 13);
    let all: Vec<&str> = parts[0].events.iter().map(|e| e.title.as_str()).collect();
    assert_eq!(all, vec!["r1", "r2", "r3", "p1", "p2"]);
    let by_category: usize = [1, 5, 9].iter().map(|&i| parts[i].events.len()).sum();
    assert_eq!(by_category, 5);
    let by_pair: usize = parts
        .iter()
        .filter(|p| matches!(p.scope, Scope::OfPair(_, _)))
        .map(|p| p.events.len())
        .sum();
    assert_eq!(by_pair, 5);
    assert_eq!(parts[0].events[4].utc, "Jun 06 18:00");

    let ranked: Vec<(&str, usize)> =
        site.ranking.iter().map(|e| (e.label.as_str(), e.count)).collect();
    assert_eq!(ranked.len(), 13);
    assert_eq!(
        ranked[..7].to_vec(),
        vec![
            ("All", 5),
            ("Rust", 3),
            ("Rust-English", 2),
            ("Python", 2),
            ("Rust-French", 1),
            ("Python-French", 1),
            ("Python-English", 1),
        ]
    );
    assert!(ranked[7..].iter().all(|(_, c)| *c == 0));
    assert_eq!(ranked[7].0, "Rust-Hebrew");
    assert_eq!(ranked[12].0, "Perl");
}

#[test]
fn a_bad_source_stops_the_run_before_planning() {
    let good = record("A", "English", "2024-06-10T10:00:00Z", "Rust");
    let bad = record("B", "English", "2024-06-10T10:00:00Z", "Rust") + "  venue: somewhere\n";
    assert!(read_source(&good).is_ok());
    assert!(matches!(read_source(&bad), Err(SourceError::Schema { .. })));
}

#[test]
fn plans_a_site_from_no_events() {
    let site = plan_site(&vec![]);
    assert_eq!(site.partitions.len(), 13);
    assert!(site.partitions.iter().all(|p| p.events.is_empty()));
    let labels: Vec<&str> = site.ranking.iter().map(|e| e.label.as_str()).collect();
    assert_eq!(labels[0], "Rust-Hebrew");
    assert_eq!(labels[12], "All");
}

#[test]
fn calendar_feed_holds_the_header_alone() {
    let feed = virtual_events::render::calendar_feed();
    assert!(feed.starts_with("BEGIN:VCALENDAR"));
    assert!(feed.contains("VERSION:2.0"));
    assert!(feed.contains("CALSCALE:GREGORIAN"));
    assert!(feed.contains("PRODID:-//ical-rs//github.com//"));
    assert!(!feed.contains("BEGIN:VEVENT"));
    assert!(feed.trim_end().ends_with("END:VCALENDAR"));
}

#[test]
fn stamps_start_empty() {
    assert_eq!(virtual_events::model::get_empty_string(), "");
}
