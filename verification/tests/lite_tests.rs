use rgx::browser::Key;
use rgx::lite::{filter_by_regex, list_item, try_filter_by_regex, Entry, Explorer, Move};
use rgx::pattern::Matcher;
use rgx::service::{Listing, ReadOutcome};
use rgx::ui::Style;

fn s(x: &str) -> String {
    x.to_string()
}

fn matcher(p: &str) -> Matcher {
    Matcher::new(&s(p)).ok().expect("pattern compiles")
}

fn item(path: &str, read: ReadOutcome) -> Listing {
    Listing { path: s(path), read }
}

fn listing() -> Vec<Listing> {
    vec![
        item("/r/Alpha-one", ReadOutcome::Text(s("x"))),
        item("/r/.cfg", ReadOutcome::Text(s("Yes"))),
        item("/r/Sub", ReadOutcome::Directory),
    ]
}

#[test]
fn entry_new_keeps_its_flags() {
    let e = Entry::new(s("/a/b"), false, true);
    assert_eq!(e.path, "/a/b");
    assert!(e.matched_text.is_empty());
    assert!(!e.is_a_directory);
    assert!(e.does_content_have_matches);
}

#[test]
fn every_item_is_listed_with_a_content_flag() {
    let entries = filter_by_regex(&matcher("[A-Z]\\w+"), &listing());
    assert_eq!(entries.len(), 3);
    assert_eq!(entries[0].matched_text, vec![s("Alphaone")]);
    assert!(!entries[0].does_content_have_matches);
    assert_eq!(entries[1].path, "/r/.cfg");
    assert!(entries[1].matched_text.is_empty());
    assert!(entries[1].does_content_have_matches);
    assert!(entries[2].is_a_directory);
    assert_eq!(entries[2].matched_text, vec![s("Sub")]);
    assert!(!entries[2].does_content_have_matches);
}

#[test]
fn unreadable_items_are_matched_as_empty_text() {
    let entries = filter_by_regex(&matcher("z*"), &vec![item("/r/d", ReadOutcome::Directory)]);
    assert!(entries[0].does_content_have_matches);
}

#[test]
fn names_that_do_not_fit_refuse_the_listing() {
    assert!(try_filter_by_regex(&matcher("a-b"), &vec![item("/r/a-b", ReadOutcome::Unreadable)]).is_none());
    assert!(try_filter_by_regex(&matcher("a-b"), &vec![item("/r/ab", ReadOutcome::Unreadable)]).is_some());
}

#[test]
fn content_mark_only_on_matched_names() {
    let m = matcher("[A-Z]\\w+");
    let entries = filter_by_regex(&m, &listing());
    let first: Vec<(String, Style)> = list_item(&m, &entries[0]).iter().map(|x| (x.text.clone(), x.style)).collect();
    assert_eq!(
        first,
        vec![(s("/r/"), Style::Plain), (s(""), Style::Plain), (s("Alpha"), Style::Match), (s("-one"), Style::Plain)]
    );
    let second: Vec<(String, Style)> = list_item(&m, &entries[1]).iter().map(|x| (x.text.clone(), x.style)).collect();
    assert_eq!(second, vec![(s("/r/.cfg"), Style::Plain)]);
}

#[test]
fn explorer_moves_and_opens() {
    let m = matcher("[A-Z]\\w+");
    let entries = filter_by_regex(&m, &listing());
    let mut x = Explorer::try_open(s("/r"), matcher("[A-Z]\\w+"), entries).expect("opens");
    assert_eq!(x.items().len(), 4);
    assert_eq!(x.selected(), 1);
    assert!(matches!(x.try_handle_key(Key::Char('l')), Some(Move::Redraw)));
    x.try_handle_key(Key::Char('j'));
    x.try_handle_key(Key::Char('j'));
    x.try_handle_key(Key::Char('j'));
    assert_eq!(x.selected(), 3);
    match x.try_handle_key(Key::Char('l')) {
        Some(Move::Open { path }) => assert_eq!(path, "/r/Sub"),
        _ => panic!("expected to open the directory"),
    }
    x.try_handle_key(Key::Char('g'));
    assert_eq!(x.selected(), 0);
    x.try_handle_key(Key::Char('k'));
    assert_eq!(x.selected(), 0);
    match x.try_handle_key(Key::Char('l')) {
        Some(Move::Open { path }) => assert_eq!(path, "/"),
        _ => panic!("expected to go up"),
    }
    assert!(matches!(x.try_handle_key(Key::Char('q')), Some(Move::Quit)));
}

#[test]
fn explorer_on_nothing_can_still_go_up() {
    let mut x = Explorer::try_open(s("/e/f"), matcher("a"), vec![]).expect("opens");
    assert!(x.try_handle_key(Key::Char('l')).is_none());
    x.try_handle_key(Key::Char('k'));
    match x.try_handle_key(Key::Char('l')) {
        Some(Move::Open { path }) => assert_eq!(path, "/e"),
        _ => panic!("expected to go up"),
    }
}
