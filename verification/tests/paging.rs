use bindle_search::search::{Matches, SearchOptions};
use bindle_search::{BindleSpec, Invoice};

fn hits(count: usize) -> Vec<Invoice> {
    (0..count)
        .map(|i| Invoice {
            bindle_version: "1.0.0".to_owned(),
            yanked: None,
            bindle: BindleSpec {
                name: "x".to_owned(),
                version: format!("1.0.{}", i),
                description: None,
                authors: None,
            },
            parcels: None,
        })
        .collect()
}

fn page(count: usize, offset: u64, limit: u8) -> Matches {
    let options = SearchOptions { offset, limit, strict: false, yanked: false };
    Matches::paged(hits(count), &options)
}

fn versions(matches: &Matches) -> Vec<String> {
    matches.invoices.iter().map(|i| i.bindle.version.clone()).collect()
}

#[test]
fn an_offset_at_or_past_the_total_gives_an_empty_page() {
    for (count, offset) in [(0usize, 0u64), (1, 1), (5, 5), (5, 6), (5, u64::MAX)] {
        let matches = page(count, offset, 3);
        assert!(matches.invoices.is_empty());
        assert!(!matches.more);
        assert_eq!(matches.total, count as u64);
        assert_eq!(matches.offset, offset);
        assert_eq!(matches.limit, 3);
    }
}

#[test]
fn a_page_that_reaches_the_end_shows_the_rest() {
    let matches = page(5, 2, 3);
    assert!(!matches.more);
    assert_eq!(versions(&matches), vec!["1.0.2", "1.0.3", "1.0.4"]);

    let matches = page(5, 3, 50);
    assert!(!matches.more);
    assert_eq!(matches.total, 5);
    assert_eq!(versions(&matches), vec!["1.0.3", "1.0.4"]);

    let matches = page(5, 4, 255);
    assert!(!matches.more);
    assert_eq!(versions(&matches), vec!["1.0.4"]);

    let matches = page(5, 0, 5);
    assert!(!matches.more);
    assert_eq!(matches.invoices.len(), 5);
}

#[test]
fn a_page_that_stops_short_shows_the_limit_and_says_more() {
    let matches = page(5, 0, 2);
    assert!(matches.more);
    assert_eq!(matches.total, 5);
    assert_eq!(versions(&matches), vec!["1.0.0", "1.0.1"]);

    let matches = page(5, 1, 3);
    assert!(matches.more);
    assert_eq!(versions(&matches), vec!["1.0.1", "1.0.2", "1.0.3"]);

    let matches = page(5, 3, 1);
    assert!(matches.more);
    assert_eq!(versions(&matches), vec!["1.0.3"]);
}

#[test]
fn a_limit_of_nothing_shows_nothing() {
    let matches = page(5, 0, 0);
    assert!(matches.invoices.is_empty());
    assert!(matches.more);
    let matches = page(5, 4, 0);
    assert!(matches.invoices.is_empty());
    assert!(matches.more);
    let matches = page(5, 5, 0);
    assert!(matches.invoices.is_empty());
    assert!(!matches.more);
}

#[test]
fn the_default_page_holds_fifty() {
    let matches = Matches::paged(hits(120), &SearchOptions::default());
    assert_eq!(matches.total, 120);
    assert_eq!(matches.invoices.len(), 50);
    assert!(matches.more);
    assert_eq!(matches.invoices[0].bindle.version, "1.0.0");
    assert_eq!(matches.invoices[49].bindle.version, "1.0.49");

    let options = SearchOptions { offset: 100, limit: 50, strict: false, yanked: false };
    let matches = Matches::paged(hits(120), &options);
    assert_eq!(matches.invoices.len(), 20);
    assert!(!matches.more);
    assert_eq!(matches.invoices[0].bindle.version, "1.0.100");
    assert_eq!(matches.invoices[19].bindle.version, "1.0.119");
}

#[test]
fn a_page_says_that_it_was_strict_and_repeats_the_word_on_yanked() {
    let options = SearchOptions { offset: 0, limit: 1, strict: false, yanked: true };
    let matches = Matches::paged(hits(2), &options);
    assert!(matches.strict);
    assert!(matches.yanked);
    let options = SearchOptions { offset: 0, limit: 1, strict: false, yanked: false };
    let matches = Matches::paged(hits(2), &options);
    assert!(matches.strict);
    assert!(!matches.yanked);
}

#[test]
fn pages_laid_end_to_end_give_every_match_once() {
    let mut seen: Vec<String> = Vec::new();
    let mut offset = 0u64;
    loop {
        let matches = page(7, offset, 3);
        seen.extend(versions(&matches));
        if !matches.more {
            break;
        }
        offset += 3;
    }
    let all: Vec<String> = (0..7).map(|i| format!("1.0.{}", i)).collect();
    assert_eq!(seen, all);
}
