use rgx::pattern::{Matcher, PatternError};
use rgx::service::{
    entry_for, filter_by_regex, is_listed, item_fits, matched_text_of, name_fits_pattern,
    remove_dashes, try_filter_by_regex, Entry, Listing, ReadOutcome,
};

fn s(x: &str) -> String {
    x.to_string()
}

fn matcher(p: &str) -> Matcher {
    Matcher::new(&s(p)).ok().expect("pattern compiles")
}

fn text(path: &str, body: &str) -> Listing {
    Listing { path: s(path), read: ReadOutcome::Text(s(body)) }
}

fn dir(path: &str) -> Listing {
    Listing { path: s(path), read: ReadOutcome::Directory }
}

fn sample_listing() -> Vec<Listing> {
    vec![
        text("/home/u/Foo-bar.txt", "hello\nWorld"),
        text("/home/u/.Hidden", "Abc"),
        dir("/home/u/docs"),
        Listing { path: s("/home/u/zz"), read: ReadOutcome::Unreadable },
    ]
}

#[test]
fn remove_dashes_takes_out_every_dash() {
    assert_eq!(remove_dashes(&s("a-b--c-")), "abc");
    assert_eq!(remove_dashes(&s("")), "");
    assert_eq!(remove_dashes(&s("plain")), "plain");
    assert_eq!(remove_dashes(&s("---")), "");
}

#[test]
fn remove_dashes_twice_is_once() {
    let once = remove_dashes(&s("x-y-z"));
    assert_eq!(remove_dashes(&once), once);
}

#[test]
fn entry_new_is_empty() {
    let e = Entry::new(s("/a/b"), true);
    assert_eq!(e.path, "/a/b");
    assert!(e.matched_text.is_empty());
    assert!(e.is_a_directory);
    assert_eq!(e.content, "");
    assert!(e.content_matches.is_empty());
}

#[test]
fn invalid_pattern_is_refused() {
    assert_eq!(Matcher::new(&s("foo(bar")).err(), Some(PatternError::Invalid));
    assert!(Matcher::new(&s("[A-Z]\\w+")).is_ok());
}

#[test]
fn matcher_keeps_its_pattern() {
    assert_eq!(matcher("a+b").pattern(), "a+b");
}

#[test]
fn matcher_reports_matches_split_and_groups() {
    let m = matcher("([a-z])(\\d)");
    assert!(m.is_match("xx a1 yy"));
    assert!(!m.is_match("XX"));
    assert!(m.match_texts("XX").is_empty());
    assert_eq!(m.split("XX"), vec![s("XX")]);
    assert_eq!(m.match_texts("a1 b2 c"), vec![s("a1"), s("b2")]);
    assert_eq!(m.split("a1 b2 c"), vec![s(""), s(" "), s(" c")]);
    assert_eq!(m.captures("zz b7"), Some(vec![Some(s("b7")), Some(s("b")), Some(s("7"))]));
    assert_eq!(m.captures("none"), None);
    let opt = matcher("(a)|(b)");
    assert_eq!(opt.captures("b"), Some(vec![Some(s("b")), None, Some(s("b"))]));
}

#[test]
fn listing_keeps_names_and_contents() {
    let m = matcher("[A-Z]\\w+");
    let entries = filter_by_regex(&m, &sample_listing(), true);
    assert_eq!(entries.len(), 4);

    assert_eq!(entries[0].path, "/home/u/Foo-bar.txt");
    assert_eq!(entries[0].matched_text, vec![s("Foobar")]);
    assert!(!entries[0].is_a_directory);
    assert_eq!(entries[0].content, "helloWorld");
    assert_eq!(entries[0].content_matches, vec![s("World")]);

    assert_eq!(entries[1].path, "/home/u/.Hidden");
    assert_eq!(entries[1].matched_text, vec![s("Hidden")]);
    assert_eq!(entries[1].content_matches, vec![s("Abc")]);

    assert!(entries[2].is_a_directory);
    assert!(entries[2].matched_text.is_empty());
    assert_eq!(entries[2].content, "");
    assert!(entries[2].content_matches.is_empty());

    assert!(!entries[3].is_a_directory);
    assert_eq!(entries[3].content, "");
}

#[test]
fn hidden_items_are_left_out() {
    let m = matcher("[A-Z]\\w+");
    let entries = filter_by_regex(&m, &sample_listing(), false);
    let paths: Vec<&str> = entries.iter().map(|e| e.path.as_str()).collect();
    assert_eq!(paths, vec!["/home/u/Foo-bar.txt", "/home/u/docs", "/home/u/zz"]);
}

#[test]
fn is_listed_looks_at_the_first_character_of_the_name() {
    assert!(is_listed(&s("/a/.b"), true));
    assert!(!is_listed(&s("/a/.b"), false));
    assert!(is_listed(&s("/a.x/b"), false));
    assert!(is_listed(&s("plain"), false));
}

#[test]
fn empty_text_keeps_no_content() {
    let m = matcher("x*");
    let e = entry_for(&m, &text("/d/f", ""));
    assert_eq!(e.content, "");
    assert!(e.content_matches.is_empty());
    let e = entry_for(&m, &text("/d/f", "\n"));
    assert_eq!(e.content, "");
    assert_eq!(e.content_matches, vec![s("")]);
}

#[test]
fn groups_contained_in_earlier_texts_are_not_repeated() {
    let m = matcher("(a)(b)");
    assert_eq!(matched_text_of(&m, &s("x-ab")), vec![s("ab")]);
    let m = matcher("a(.)");
    assert_eq!(matched_text_of(&m, &s("xaby")), vec![s("ab")]);
    let m = matcher("q");
    assert!(matched_text_of(&m, &s("abc")).is_empty());
}

#[test]
fn names_that_stop_matching_without_dashes_do_not_fit() {
    let m = matcher("a-b");
    assert!(!name_fits_pattern(&m, &s("a-b")));
    assert!(try_filter_by_regex(&m, &vec![text("/d/a-b", "")], true).is_none());
    assert!(name_fits_pattern(&m, &s("zzz")));
}

#[test]
fn names_with_absent_groups_do_not_fit() {
    let m = matcher("(x)|y");
    assert!(!name_fits_pattern(&m, &s("y")));
    assert!(name_fits_pattern(&m, &s("x")));
}

#[test]
fn empty_names_do_not_fit_without_hidden_files() {
    let m = matcher("a");
    assert!(!item_fits(&m, &text("/d/", ""), false));
    assert!(item_fits(&m, &text("/d/", ""), true));
}

#[test]
fn try_filter_agrees_where_everything_fits() {
    let m = matcher("[A-Z]\\w+");
    let a = try_filter_by_regex(&m, &sample_listing(), false).expect("fits");
    let b = filter_by_regex(&m, &sample_listing(), false);
    assert_eq!(a.len(), b.len());
    for (x, y) in a.iter().zip(b.iter()) {
        assert_eq!(x.path, y.path);
        assert_eq!(x.matched_text, y.matched_text);
        assert_eq!(x.content_matches, y.content_matches);
    }
}
