use command_palette::matcher::{compose_match, FuzzyMatcherWrapper, NucleoMatcher};
use command_palette::types::{CommandMatcher, CommandPaletteItem};

fn item(id: &str, title: &str) -> CommandPaletteItem {
    CommandPaletteItem::new(id, title)
}

#[test]
fn empty_query_matches_every_item_nucleo() {
    let m = NucleoMatcher::new();
    let items = vec![
        item("a", "Open File"),
        item("b", "Close Window").disabled(true),
        item("c", "zzz"),
    ];
    for it in &items {
        let r = m.match_item("", it).expect("empty query must match");
        assert_eq!(r.score, 0);
        assert!(r.title_ranges.is_empty());
        assert!(r.subtitle_ranges.is_empty());
    }
}

#[test]
fn empty_query_matches_every_item_skim() {
    let m = FuzzyMatcherWrapper::new();
    let r = m.match_item("", &item("a", "anything")).expect("empty query must match");
    assert_eq!(r.score, 0);
    assert!(r.title_ranges.is_empty());
    assert!(r.subtitle_ranges.is_empty());
}

#[test]
fn title_match_produces_prefix_ranges() {
    let m = NucleoMatcher::new();
    let r = m.match_item("open", &item("a", "Open File")).expect("title should match");
    assert!(r.score > 1000);
    assert_eq!(r.title_ranges, vec![(0, 4)]);
    assert!(r.subtitle_ranges.is_empty());
}

#[test]
fn title_match_produces_prefix_ranges_skim() {
    let m = FuzzyMatcherWrapper::new();
    let r = m.match_item("open", &item("a", "Open File")).expect("title should match");
    assert!(r.score > 1000);
    assert_eq!(r.title_ranges, vec![(0, 4)]);
}

#[test]
fn unrelated_query_does_not_match() {
    let m = NucleoMatcher::new();
    assert!(m.match_item("xyzzy", &item("a", "Open File")).is_none());
    let s = FuzzyMatcherWrapper::new();
    assert!(s.match_item("xyzzy", &item("a", "Open File")).is_none());
}

#[test]
fn title_boost_exceeds_subtitle_boost_by_500() {
    // The same text matched in the title and in the subtitle differs by the
    // 1000 versus 500 field weights exactly.
    let m = NucleoMatcher::new();
    let titled = m.match_item("abc", &item("a", "abc")).expect("title match");
    let subtitled = m
        .match_item("abc", &item("b", "zzz").subtitle("abc"))
        .expect("subtitle match");
    assert_eq!(titled.score - subtitled.score, 500);
    assert!(titled.score > subtitled.score);
    // The subtitle match highlights the subtitle, not the title.
    assert!(subtitled.title_ranges.is_empty());
    assert_eq!(subtitled.subtitle_ranges, vec![(0, 3)]);
}

#[test]
fn subtitle_boost_exceeds_keyword_boost_by_300() {
    let m = NucleoMatcher::new();
    let subtitled = m
        .match_item("abc", &item("a", "zzz").subtitle("abc"))
        .expect("subtitle match");
    let keyworded = m
        .match_item("abc", &item("b", "zzz").keyword("abc"))
        .expect("keyword match");
    assert_eq!(subtitled.score - keyworded.score, 300);
    // Keyword matches carry no highlight ranges.
    assert!(keyworded.title_ranges.is_empty());
    assert!(keyworded.subtitle_ranges.is_empty());
}

#[test]
fn category_alone_never_matches() {
    let m = NucleoMatcher::new();
    assert!(m.match_item("file", &item("a", "zzz").category("file")).is_none());
    let s = FuzzyMatcherWrapper::new();
    assert!(s.match_item("file", &item("a", "zzz").category("file")).is_none());
}

#[test]
fn category_adds_a_tenth_when_another_field_matched() {
    let m = NucleoMatcher::new();
    let plain = m.match_item("abc", &item("a", "abc")).expect("title match");
    let with_category = m
        .match_item("abc", &item("b", "abc").category("abc"))
        .expect("title match");
    assert!(with_category.score > plain.score);
    // The bonus is exactly a tenth of the category sub-score, which here is
    // the same raw sub-score as the title's.
    let raw = plain.score - 1000;
    assert_eq!(with_category.score - plain.score, raw / 10);
}

#[test]
fn best_keyword_counts() {
    let m = NucleoMatcher::new();
    let r = m
        .match_item(
            "abc",
            &item("a", "zzz").keywords(vec!["zzz".to_string(), "abc".to_string()]),
        )
        .expect("keyword match");
    assert!(r.score > 200);
}

#[test]
fn multibyte_titles_get_byte_offset_ranges() {
    // "héllo": 'h' is one byte, 'é' two bytes, so matching "hé" must
    // highlight bytes 0..3, not characters 0..2.
    let m = NucleoMatcher::new();
    let r = m.match_item("hé", &item("a", "héllo")).expect("title match");
    assert_eq!(r.title_ranges, vec![(0, 3)]);
    let title = "héllo";
    for &(start, end) in &r.title_ranges {
        assert!(title.is_char_boundary(start));
        assert!(title.is_char_boundary(end));
    }
}

#[test]
fn highlight_round_trip_reassembles_title() {
    let m = NucleoMatcher::new();
    let title = "Söme Lönger Títle";
    let r = m.match_item("sl", &item("a", title)).expect("title match");
    assert!(!r.title_ranges.is_empty());
    let mut rebuilt = String::new();
    let mut cursor = 0;
    for &(start, end) in &r.title_ranges {
        assert!(cursor <= start && start < end && end <= title.len());
        rebuilt.push_str(&title[cursor..start]);
        rebuilt.push_str(&title[start..end]);
        cursor = end;
    }
    rebuilt.push_str(&title[cursor..]);
    assert_eq!(rebuilt, title);
}

#[test]
fn composition_rule_on_plain_sub_scores() {
    // Title 7, subtitle 9, keyword 3, category 20:
    // title 7+1000=1007, subtitle 9+500=509 loses, keyword 3+200=203 loses,
    // category adds 20/10=2.
    let r = compose_match(
        Some((7, vec![(0, 1)])),
        Some((9, vec![(2, 3)])),
        Some(3),
        Some(20),
    )
    .expect("title matched");
    assert_eq!(r.score, 1009);
    assert_eq!(r.title_ranges, vec![(0, 1)]);
    assert!(r.subtitle_ranges.is_empty());

    // Subtitle outscoring the title keeps its own highlights and the title's.
    let r2 = compose_match(Some((7, vec![(0, 1)])), Some((800, vec![(2, 3)])), None, None)
        .expect("subtitle matched");
    assert_eq!(r2.score, 1300);
    assert_eq!(r2.title_ranges, vec![(0, 1)]);
    assert_eq!(r2.subtitle_ranges, vec![(2, 3)]);

    // Category alone composes nothing.
    assert!(compose_match(None, None, None, Some(50)).is_none());

    // A negative category sub-score divides toward zero.
    let r3 = compose_match(Some((0, Vec::new())), None, None, Some(-19)).expect("title matched");
    assert_eq!(r3.score, 1000 - 1);
}

#[test]
fn overlong_query_never_matches() {
    // The scorers' internal arithmetic is only sound for bounded inputs;
    // queries beyond the cap are treated as matching nothing.
    let query = "a".repeat(3000);
    let title = "a".repeat(3000);
    let m = NucleoMatcher::new();
    assert!(m.match_item(&query, &item("a", &title)).is_none());
    let s = FuzzyMatcherWrapper::new();
    assert!(s.match_item(&query, &item("a", &title)).is_none());
}

#[test]
fn overlong_text_never_matches() {
    let title = "a".repeat(0x0010_0001);
    let m = NucleoMatcher::new();
    assert!(m.match_item("aa", &item("a", &title)).is_none());
}
