use ceres::anime::Updates;
use ceres::feed::{normalize, parse_episode, parts, present_titles, record, split_title};
use ceres::identity::series_key;

fn titles(list: &[&str]) -> Vec<String> {
    list.iter().map(|t| t.to_string()).collect()
}

#[test]
fn title_splits_into_series_and_episode() {
    assert_eq!(
        split_title("One Piece - Episode 1050"),
        Some(("One Piece".to_string(), "1050".to_string()))
    );
    assert_eq!(
        split_title("Re:Zero kara Hajimeru Isekai Seikatsu - Episode 7"),
        Some(("Re:Zero kara Hajimeru Isekai Seikatsu".to_string(), "7".to_string()))
    );
}

#[test]
fn title_without_an_episode_does_not_split() {
    assert_eq!(split_title("Site maintenance tonight"), None);
    assert_eq!(split_title(""), None);
    assert_eq!(split_title("Foo - Episode "), None);
    assert_eq!(split_title(" - Episode 5"), None);
    assert_eq!(split_title("Foo - episode 5"), None);
}

#[test]
fn title_splits_at_the_last_separator() {
    assert_eq!(
        split_title("Foo - Episode 3 - Episode 4"),
        Some(("Foo - Episode 3".to_string(), "4".to_string()))
    );
    assert_eq!(
        split_title("Foo - Episode 12 (uncut)"),
        Some(("Foo".to_string(), "12 (uncut)".to_string()))
    );
}

#[test]
fn episode_numbers_parse_as_signed_integers() {
    assert_eq!(parse_episode("0"), Some(0));
    assert_eq!(parse_episode("7"), Some(7));
    assert_eq!(parse_episode("007"), Some(7));
    assert_eq!(parse_episode("+7"), Some(7));
    assert_eq!(parse_episode("-7"), Some(-7));
    assert_eq!(parse_episode("-0"), Some(0));
    assert_eq!(parse_episode("1050"), Some(1050));
    assert_eq!(parse_episode("32767"), Some(32767));
    assert_eq!(parse_episode("-32768"), Some(-32768));
    assert_eq!(parse_episode("0000000000000000000000032767"), Some(32767));
}

#[test]
fn episode_numbers_out_of_range_or_malformed_do_not_parse() {
    assert_eq!(parse_episode(""), None);
    assert_eq!(parse_episode("+"), None);
    assert_eq!(parse_episode("-"), None);
    assert_eq!(parse_episode("32768"), None);
    assert_eq!(parse_episode("-32769"), None);
    assert_eq!(parse_episode("99999999999999999999"), None);
    assert_eq!(parse_episode("12 "), None);
    assert_eq!(parse_episode(" 12"), None);
    assert_eq!(parse_episode("1e3"), None);
    assert_eq!(parse_episode("12.5"), None);
    assert_eq!(parse_episode("--1"), None);
    assert_eq!(parse_episode("+-1"), None);
    assert_eq!(parse_episode("١٢"), None);
    assert_eq!(parse_episode("abc"), None);
}

#[test]
fn episode_parsing_agrees_with_std() {
    let samples = [
        "", "0", "1", "-1", "+1", "32767", "32768", "-32768", "-32769", "65536", "00", "+0",
        "-00012", "1 ", "x", "1x", "+", "-", "327670", "032768", "9", "10", "99", "100",
    ];
    for s in samples {
        assert_eq!(parse_episode(s), s.parse::<i16>().ok());
    }
}

#[test]
fn record_puts_a_readable_episode_under_the_series_key() {
    let mut feed = Updates::new();
    assert!(record(&mut feed, "Some Show", "12"));
    assert_eq!(feed.updates.len(), 1);
    assert_eq!(feed.updates.entries[0].0, series_key("Some Show"));
    assert_eq!(feed.updates.entries[0].1.name, "Some Show");
    assert_eq!(feed.updates.entries[0].1.last_episode, 12);
    assert!(!record(&mut feed, "Some Show", "twelve"));
    assert_eq!(feed.updates.len(), 1);
    assert_eq!(feed.updates.entries[0].1.last_episode, 12);
}

#[test]
fn normalize_drops_what_is_no_episode_and_counts_what_cannot_be_read() {
    let r = normalize(&titles(&[
        "Alpha - Episode 2",
        "Site maintenance tonight",
        "Beta - Episode one",
        "Gamma - Episode 1",
        "Delta - Episode 40000",
    ]));
    assert_eq!(r.malformed, 2);
    assert_eq!(r.feed.updates.len(), 2);
    assert_eq!(r.feed.updates.entries[0].0, series_key("Alpha"));
    assert_eq!(r.feed.updates.entries[0].1.name, "Alpha");
    assert_eq!(r.feed.updates.entries[0].1.last_episode, 2);
    assert_eq!(r.feed.updates.entries[1].0, series_key("Gamma"));
    assert_eq!(r.feed.updates.entries[1].1.last_episode, 1);
}

#[test]
fn normalize_lets_the_later_of_two_titles_win() {
    let r = normalize(&titles(&[
        "Alpha - Episode 5",
        "Beta - Episode 1",
        "ALPHA!! - Episode 3",
    ]));
    assert_eq!(r.malformed, 0);
    assert_eq!(r.feed.updates.len(), 2);
    assert_eq!(r.feed.updates.entries[0].0, series_key("alpha"));
    assert_eq!(r.feed.updates.entries[0].1.name, "ALPHA!!");
    assert_eq!(r.feed.updates.entries[0].1.last_episode, 3);
    assert_eq!(r.feed.updates.entries[1].1.name, "Beta");
}

#[test]
fn normalize_of_no_titles_is_empty() {
    let r = normalize(&Vec::new());
    assert_eq!(r.feed.updates.len(), 0);
    assert_eq!(r.malformed, 0);
}

#[test]
fn present_titles_skips_entries_without_one() {
    let found = present_titles(vec![Some("a".to_string()), None, Some("b".to_string()), None]);
    assert_eq!(found, vec!["a".to_string(), "b".to_string()]);
    assert_eq!(present_titles(Vec::new()), Vec::<String>::new());
}

#[test]
fn snapshot_of_the_titles_of_a_feed() {
    let xml = "<?xml version=\"1.0\" encoding=\"UTF-8\"?>\n\
<rss version=\"2.0\"><channel><title>Releases</title><link>http://example.org/</link>\
<description>d</description>\
<item><title>Alpha - Episode 2</title><link>http://example.org/a2</link></item>\
<item><title>Beta - Episode 1</title><link>http://example.org/b1</link></item>\
<item><link>http://example.org/untitled</link><description>no title</description></item>\
<item><title>Alpha - Episode 3</title><link>http://example.org/a3</link></item>\
<item><title>Gamma - Episode x</title><link>http://example.org/gx</link></item>\
<item><title>Welcome</title><link>http://example.org/w</link></item>\
</channel></rss>";
    let feed = feed_rs::parser::parse(xml.as_bytes()).unwrap();
    let titles: Vec<Option<String>> =
        feed.entries.into_iter().map(|entry| entry.title.map(|title| title.content)).collect();
    assert_eq!(titles.len(), 6);
    let r = normalize(&present_titles(titles));
    assert_eq!(r.malformed, 1);
    assert_eq!(r.feed.updates.len(), 2);
    assert_eq!(r.feed.updates.entries[0].0, series_key("Alpha"));
    assert_eq!(r.feed.updates.entries[0].1.last_episode, 3);
    assert_eq!(r.feed.updates.entries[1].0, series_key("Beta"));
    assert_eq!(r.feed.updates.entries[1].1.name, "Beta");
    assert_eq!(r.feed.updates.entries[1].1.last_episode, 1);
}

#[test]
fn parts_of_what_a_search_found() {
    assert_eq!(parts(None), None);
    assert_eq!(parts(Some(None)), None);
    assert_eq!(
        parts(Some(Some((Some("Show".to_string()), Some("3".to_string()))))),
        Some(("Show".to_string(), "3".to_string()))
    );
    assert_eq!(
        parts(Some(Some((None, Some("3".to_string()))))),
        Some((String::new(), "3".to_string()))
    );
    assert_eq!(
        parts(Some(Some((Some("Show".to_string()), None)))),
        Some(("Show".to_string(), String::new()))
    );
}
