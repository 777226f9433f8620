use rgx::browser::{Action, Browser, Key};
use rgx::pattern::Matcher;
use rgx::service::{filter_by_regex, Entry, Listing, ReadOutcome};
use rgx::text::parent_dir_of;
use rgx::ui::{entry_preview_of, list_item, Span, Style};

fn s(x: &str) -> String {
    x.to_string()
}

fn matcher(p: &str) -> Matcher {
    Matcher::new(&s(p)).ok().expect("pattern compiles")
}

fn text(path: &str, body: &str) -> Listing {
    Listing { path: s(path), read: ReadOutcome::Text(s(body)) }
}

fn dir(path: &str) -> Listing {
    Listing { path: s(path), read: ReadOutcome::Directory }
}

fn view(spans: &Vec<Span>) -> Vec<(String, Style)> {
    spans.iter().map(|sp| (sp.text.clone(), sp.style)).collect()
}

fn plain(x: &str) -> (String, Style) {
    (s(x), Style::Plain)
}

fn hit(x: &str) -> (String, Style) {
    (s(x), Style::Match)
}

fn entries() -> Vec<Entry> {
    let listing = vec![
        text("/home/u/notes", "nothing here"),
        dir("/home/u/Music"),
        text("/home/u/plain", "no"),
        text("/home/u/todo", "Buy Milk"),
        text("/home/u/last", "x"),
    ];
    filter_by_regex(&matcher("[A-Z]\\w+"), &listing, true)
}

fn browser() -> Browser {
    Browser::try_open(s("/home/u"), false, matcher("[A-Z]\\w+"), entries()).expect("opens")
}

fn reload_path(a: &Action) -> Option<(String, bool)> {
    match a {
        Action::Reload { path, show_hidden_files } => Some((path.clone(), *show_hidden_files)),
        _ => None,
    }
}

fn joined(spans: &Vec<Span>) -> String {
    spans.iter().map(|sp| sp.text.as_str()).collect::<Vec<_>>().join("")
}

#[test]
fn parent_dir_names_the_directory_above() {
    assert_eq!(parent_dir_of(&s("/home/u/dir")), "/home/u");
    assert_eq!(parent_dir_of(&s("/home/u/dir/")), "/home/u");
    assert_eq!(parent_dir_of(&s("a/b")), "a");
    assert_eq!(parent_dir_of(&s("/x")), "/");
    assert_eq!(parent_dir_of(&s("dir")), ".");
    assert_eq!(parent_dir_of(&s(".")), "./..");
    assert_eq!(parent_dir_of(&s("../..")), "../../..");
    assert_eq!(parent_dir_of(&s("/")), "");
    assert_eq!(parent_dir_of(&s("")), "..");
}

#[test]
fn item_highlights_name_matches_and_marks_content() {
    let m = matcher("[A-Z]\\w+");
    let e = filter_by_regex(&m, &vec![text("/home/u/Foo-bar.txt", "hello\nWorld")], true);
    let line = list_item(&m, &e[0]);
    assert_eq!(
        view(&line),
        vec![plain("/u/"), plain(""), hit("Foo"), plain("-bar.txt"), (s(" *"), Style::Marker)]
    );
    assert_eq!(joined(&line), "/u/Foo-bar.txt *");
}

#[test]
fn item_highlights_every_match_of_the_name() {
    let m = matcher("[A-Z]\\w+");
    let e = filter_by_regex(&m, &vec![text("/home/u/Foo.Bar", "none")], true);
    let line = list_item(&m, &e[0]);
    assert_eq!(view(&line), vec![plain("/u/"), plain(""), hit("Foo"), plain("."), hit("Bar"), plain("")]);
    assert_eq!(joined(&line), "/u/Foo.Bar");
}

#[test]
fn item_without_matches_shows_parent_and_name() {
    let m = matcher("[A-Z]\\w+");
    let e = filter_by_regex(&m, &vec![text("/home/u/notes", "none")], true);
    assert_eq!(view(&list_item(&m, &e[0])), vec![plain("/u/notes")]);
}

#[test]
fn dashes_stay_in_the_shown_name() {
    let m = matcher("x");
    let e = Entry {
        path: s("/p/x-x"),
        matched_text: vec![s("x")],
        is_a_directory: false,
        content: s(""),
        content_matches: vec![],
    };
    assert_eq!(
        view(&list_item(&m, &e)),
        vec![plain("/p/"), plain(""), hit("x"), plain("-"), hit("x"), plain("")]
    );
}

#[test]
fn preview_shows_the_text_once() {
    let m = matcher("[a-z]\\d");
    let e = Entry {
        path: s("/p/f"),
        matched_text: vec![],
        is_a_directory: false,
        content: s("a1-b2-c"),
        content_matches: vec![s("a1"), s("b2")],
    };
    let p = entry_preview_of(&m, &e);
    assert_eq!(view(&p), vec![plain(""), hit("a1"), plain("-"), hit("b2"), plain("-c")]);
    assert_eq!(joined(&p), "a1-b2-c");
}

#[test]
fn opening_lists_up_line_and_selects_first_entry() {
    let b = browser();
    assert_eq!(b.items().len(), 6);
    assert_eq!(view(&b.items()[0]), vec![plain("(..)")]);
    assert_eq!(b.selected(), 1);
    assert_eq!(view(b.preview()), vec![plain("nothing here")]);
    assert_eq!(b.pattern(), "[A-Z]\\w+");
    assert_eq!(b.path(), "/home/u");
    assert!(!b.show_hidden_files());
}

#[test]
fn cannot_open_on_nothing() {
    assert!(Browser::try_open(s("/e"), false, matcher("a"), vec![]).is_none());
    let no_parent = vec![Entry::new(s("name"), false)];
    assert!(Browser::try_open(s("/e"), false, matcher("a"), no_parent).is_none());
}

#[test]
fn down_and_up_move_and_preview() {
    let mut b = browser();
    assert!(matches!(b.handle_key(Key::Char('j')), Action::Redraw));
    assert_eq!(b.selected(), 2);
    assert_eq!(view(b.preview()), Vec::<(String, Style)>::new());
    b.handle_key(Key::Char('j'));
    b.handle_key(Key::Char('j'));
    assert_eq!(b.selected(), 4);
    assert_eq!(view(b.preview()), vec![plain(""), hit("Buy"), plain(" "), hit("Milk"), plain("")]);
    assert_eq!(joined(b.preview()), "Buy Milk");
    b.handle_key(Key::Char('k'));
    assert_eq!(b.selected(), 3);
    assert_eq!(view(b.preview()), vec![plain("no")]);
}

#[test]
fn up_after_down_comes_back() {
    let mut b = browser();
    b.handle_key(Key::Char('j'));
    b.handle_key(Key::Char('j'));
    b.handle_key(Key::Char('k'));
    assert_eq!(b.selected(), 2);
}

#[test]
fn down_stops_at_the_last_entry_and_up_at_the_first() {
    let mut b = browser();
    for _ in 0..10 {
        b.handle_key(Key::Char('j'));
    }
    assert_eq!(b.selected(), 5);
    for _ in 0..10 {
        b.handle_key(Key::Char('k'));
    }
    assert_eq!(b.selected(), 1);
}

#[test]
fn top_and_bottom() {
    let mut b = browser();
    b.handle_key(Key::Char('G'));
    assert_eq!(b.selected(), 5);
    b.handle_key(Key::Char('g'));
    assert_eq!(b.selected(), 0);
}

#[test]
fn next_and_previous_match() {
    let mut b = browser();
    assert!(matches!(b.handle_key(Key::Char('n')), Action::Redraw));
    assert_eq!(b.selected(), 2);
    b.handle_key(Key::Char('n'));
    assert_eq!(b.selected(), 4);
    b.handle_key(Key::Char('n'));
    assert_eq!(b.selected(), 4);
    b.handle_key(Key::Char('G'));
    b.handle_key(Key::Char('N'));
    assert_eq!(b.selected(), 4);
    b.handle_key(Key::Char('N'));
    assert_eq!(b.selected(), 2);
    b.handle_key(Key::Char('N'));
    assert_eq!(b.selected(), 2);
}

#[test]
fn previous_match_reaches_the_first_entry() {
    let listing = vec![text("/r/Top", "x"), text("/r/b", "y")];
    let m = matcher("[A-Z]\\w+");
    let entries = filter_by_regex(&m, &listing, true);
    let mut b = Browser::try_open(s("/r"), false, matcher("[A-Z]\\w+"), entries).expect("opens");
    b.handle_key(Key::Char('j'));
    assert_eq!(b.selected(), 2);
    b.handle_key(Key::Char('N'));
    assert_eq!(b.selected(), 1);
    assert_eq!(view(b.preview()), vec![plain("x")]);
}

#[test]
fn previous_match_on_the_first_lines_stays() {
    let mut b = browser();
    assert!(matches!(b.handle_key(Key::Char('N')), Action::Redraw));
    assert_eq!(b.selected(), 1);
    b.handle_key(Key::Char('g'));
    b.handle_key(Key::Char('N'));
    assert_eq!(b.selected(), 0);
}

#[test]
fn up_line_leads_to_the_parent() {
    let mut b = browser();
    b.handle_key(Key::Char('g'));
    let a = b.handle_key(Key::Char('l'));
    assert_eq!(reload_path(&a), Some((s("/home"), false)));
}

#[test]
fn left_leads_to_the_parent_directory() {
    let mut b = browser();
    let a = b.handle_key(Key::Char('h'));
    assert_eq!(reload_path(&a), Some((s("/home"), false)));
    b.handle_key(Key::Char('g'));
    let a = b.handle_key(Key::Char('h'));
    assert_eq!(reload_path(&a), Some((s("/home"), false)));
}

#[test]
fn left_from_the_current_directory() {
    let entries = filter_by_regex(&matcher("a"), &vec![text("./f", "")], true);
    let mut b = Browser::try_open(s("."), false, matcher("a"), entries).expect("opens");
    let a = b.handle_key(Key::Char('h'));
    assert_eq!(reload_path(&a), Some((s("./.."), false)));
}

#[test]
fn entering_a_directory_asks_first() {
    let mut b = browser();
    b.handle_key(Key::Char('j'));
    match b.handle_key(Key::Char('l')) {
        Action::Probe { path } => assert_eq!(path, "/home/u/Music"),
        _ => panic!("expected a probe"),
    }
    assert_eq!(reload_path(&b.enter(false)), Some((s("/home/u/Music"), false)));
    assert!(matches!(b.enter(true), Action::Redraw));
    b.handle_key(Key::Char('j'));
    assert!(matches!(b.enter(false), Action::Redraw));
    assert!(matches!(b.handle_key(Key::Char('l')), Action::Redraw));
}

#[test]
fn ctrl_h_toggles_hidden_files() {
    let mut b = browser();
    let a = b.handle_key(Key::Ctrl('h'));
    assert_eq!(reload_path(&a), Some((s("/home/u"), true)));
}

#[test]
fn quit_and_other_keys() {
    let mut b = browser();
    assert!(matches!(b.handle_key(Key::Char('q')), Action::Quit));
    assert!(matches!(b.handle_key(Key::Char('z')), Action::Redraw));
    assert!(matches!(b.handle_key(Key::Other), Action::Redraw));
    assert_eq!(b.selected(), 1);
}

#[test]
fn empty_matches_in_an_empty_text_show_nothing_more() {
    let e = vec![Entry::new(s("/d/a"), false), Entry::new(s("/d/b"), false)];
    let b = Browser::try_open(s("/d"), false, matcher("x*"), e).expect("opens");
    assert_eq!(view(b.preview()), vec![plain(""), hit(""), plain("")]);
    assert_eq!(joined(b.preview()), "");
}
