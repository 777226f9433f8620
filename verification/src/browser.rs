use vstd::prelude::*;

use crate::pattern::Matcher;
use crate::service::{entries_view, Entry, EntryView};
use crate::text::{parent_dir, parent_dir_of, split_slashes};
use crate::ui::{
    entry_preview, entry_preview_of, has_parent, items_of, joined, lines_of, list_items, spans_of,
    Span, Style,
};

verus! {

/// A key that the browser reacts to.
#[derive(Debug, Clone, Copy, PartialEq, Eq, Structural)]
pub enum Key {
    /// A character key.
    Char(char),
    /// A character key held with Ctrl.
    Ctrl(char),
    /// Any other key.
    Other,
}

/// What the browser asks of the terminal program after a key.
pub enum Action {
    /// Leave the browser.
    Quit,
    /// Draw the browser again.
    Redraw,
    /// List `path` anew, with hidden files shown or not.
    Reload { path: String, show_hidden_files: bool },
    /// Find out whether the directory at `path` is empty, and report it with `enter`.
    Probe { path: String },
}

/// An action as a mathematical value.
pub enum Outcome {
    Quit,
    Redraw,
    Reload { path: Seq<char>, show_hidden_files: bool },
    Probe { path: Seq<char> },
}

/// The view of an action.
pub open spec fn outcome_of(a: Action) -> Outcome {
    match a {
        Action::Quit => Outcome::Quit,
        Action::Redraw => Outcome::Redraw,
        Action::Reload { path, show_hidden_files } => Outcome::Reload { path: path@, show_hidden_files },
        Action::Probe { path } => Outcome::Probe { path: path@ },
    }
}

/// The state of the browser as mathematical values.
pub struct BrowserView {
    /// The directory being listed.
    pub path: Seq<char>,
    pub show_hidden_files: bool,
    pub pattern: Seq<char>,
    pub entries: Seq<EntryView>,
    /// The lines of the list.
    pub items: Seq<Seq<(Seq<char>, Style)>>,
    /// The selected line: 0 is `"(..)"`, `i > 0` is `entries[i - 1]`.
    pub selected: nat,
    /// The preview pane.
    pub preview: Seq<(Seq<char>, Style)>,
}

/// A browser state that the keys can work on: at least one entry, each path with a
/// parent, the list made of the entries, and a selected line of the list.
pub open spec fn well_formed(b: BrowserView) -> bool {
    &&& b.entries.len() >= 1
    &&& forall|i: int| 0 <= i < b.entries.len() ==> has_parent((#[trigger] b.entries[i]).path)
    &&& b.items == items_of(b.pattern, b.entries)
    &&& b.selected <= b.entries.len()
}

/// Whether an entry has something that the pattern matched, in its name or content.
pub open spec fn is_marked(e: EntryView) -> bool {
    e.matched_text.len() > 0 || e.content_matches.len() > 0
}

/// The first marked entry at or after index `i`.
pub open spec fn next_marked(entries: Seq<EntryView>, i: int) -> Option<int>
    decreases entries.len() - i,
{
    if i < 0 || i >= entries.len() {
        None
    } else if is_marked(entries[i]) {
        Some(i)
    } else {
        next_marked(entries, i + 1)
    }
}

/// The last marked entry at or before index `i`.
pub open spec fn prev_marked(entries: Seq<EntryView>, i: int) -> Option<int>
    decreases i + 1,
{
    if i < 0 {
        None
    } else if is_marked(entries[i]) {
        Some(i)
    } else {
        prev_marked(entries, i - 1)
    }
}


/// `b` with line `s` selected and `p` in the preview pane.
pub open spec fn moved(b: BrowserView, s: nat, p: Seq<(Seq<char>, Style)>) -> BrowserView {
    BrowserView { selected: s, preview: p, ..b }
}

/// `b` with entry `k` selected and its preview shown.
pub open spec fn select_entry(b: BrowserView, k: int) -> BrowserView {
    moved(b, (k + 1) as nat, entry_preview(b.pattern, b.entries[k]))
}

/// What a key does: the next state and what is asked of the terminal program.
///
/// `q` quits; `j`/`k` move one line down/up (`k` not onto `"(..)"`), showing the
/// preview of the entry reached; `g`/`G` go to the first/last line; `l` on `"(..)"` lists
/// the directory above, and on a directory entry asks whether it is empty; `h` lists
/// the directory above; `n`/`N` move to the nearest entry with a match below/above the
/// selected line; Ctrl-`h` lists the directory again with hidden files toggled; any
/// other key changes nothing.
pub open spec fn step(b: BrowserView, key: Key) -> (BrowserView, Outcome) {
    let n = b.entries.len();
    let up = Outcome::Reload { path: parent_dir(b.path), show_hidden_files: b.show_hidden_files };
    match key {
        Key::Char(c) => {
            if c == 'q' {
                (b, Outcome::Quit)
            } else if c == 'j' {
                if b.selected < n {
                    (select_entry(b, b.selected as int), Outcome::Redraw)
                } else {
                    (b, Outcome::Redraw)
                }
            } else if c == 'k' {
                if b.selected > 1 {
                    (select_entry(b, b.selected - 2), Outcome::Redraw)
                } else {
                    (b, Outcome::Redraw)
                }
            } else if c == 'g' {
                (moved(b, 0, b.preview), Outcome::Redraw)
            } else if c == 'G' {
                (moved(b, n, b.preview), Outcome::Redraw)
            } else if c == 'l' {
                if b.selected == 0 {
                    (b, up)
                } else if b.entries[b.selected - 1].is_a_directory {
                    (b, Outcome::Probe { path: b.entries[b.selected - 1].path })
                } else {
                    (b, Outcome::Redraw)
                }
            } else if c == 'h' {
                (b, up)
            } else if c == 'n' {
                match next_marked(b.entries, b.selected as int) {
                    Some(k) => (select_entry(b, k), Outcome::Redraw),
                    None => (b, Outcome::Redraw),
                }
            } else if c == 'N' {
                match prev_marked(b.entries, b.selected - 2) {
                    Some(k) => (select_entry(b, k), Outcome::Redraw),
                    None => (b, Outcome::Redraw),
                }
            } else {
                (b, Outcome::Redraw)
            }
        },
        Key::Ctrl(c) => {
            if c == 'h' {
                (b, Outcome::Reload { path: b.path, show_hidden_files: !b.show_hidden_files })
            } else {
                (b, Outcome::Redraw)
            }
        },
        Key::Other => (b, Outcome::Redraw),
    }
}

/// What the answer to a probe does: an entry that is a directory with something in it
/// is listed; otherwise nothing changes.
pub open spec fn entered(b: BrowserView, is_empty: bool) -> Outcome {
    let e = b.entries[b.selected - 1];
    if e.is_a_directory && !is_empty {
        Outcome::Reload { path: e.path, show_hidden_files: b.show_hidden_files }
    } else {
        Outcome::Redraw
    }
}

/// Whether the preview pane reads the selected entry's content, where that entry is a
/// file.
pub open spec fn previews_selected(b: BrowserView) -> bool {
    b.selected >= 1 && !b.entries[b.selected - 1].is_a_directory ==> joined(b.preview)
        == b.entries[b.selected - 1].content
}

/// Whether a browser can be opened on `entries`: there is one, and each path has a
/// parent component to show.
pub open spec fn can_open(entries: Seq<EntryView>) -> bool {
    &&& entries.len() >= 1
    &&& forall|i: int| 0 <= i < entries.len() ==> has_parent((#[trigger] entries[i]).path)
}


/// The browser over a listed directory: the list of its entries, the selected line and
/// the preview pane.
pub struct Browser {
    path: String,
    show_hidden_files: bool,
    matcher: Matcher,
    entries: Vec<Entry>,
    items: Vec<Vec<Span>>,
    selected: usize,
    preview: Vec<Span>,
}

impl View for Browser {
    type V = BrowserView;

    closed spec fn view(&self) -> BrowserView {
        BrowserView {
            path: self.path@,
            show_hidden_files: self.show_hidden_files,
            pattern: self.matcher@,
            entries: entries_view(self.entries@),
            items: lines_of(self.items@),
            selected: self.selected as nat,
            preview: spans_of(self.preview@),
        }
    }
}


/// No key changes the listing: the directory, the hidden-files setting, the pattern, the
/// entries and the list stay as they are.
pub proof fn lemma_keys_keep_listing(b: BrowserView, key: Key)
    ensures
        step(b, key).0.path == b.path,
        step(b, key).0.show_hidden_files == b.show_hidden_files,
        step(b, key).0.pattern == b.pattern,
        step(b, key).0.entries == b.entries,
        step(b, key).0.items == b.items,
{
}

/// The search of `n` finds the first marked entry at or after `i`.
pub proof fn lemma_next_marked_is_first(entries: Seq<EntryView>, i: int)
    requires
        0 <= i,
    ensures
        match next_marked(entries, i) {
            Some(k) => i <= k < entries.len() && is_marked(entries[k]) && forall|j: int| i <= j < k ==> !is_marked(#[trigger] entries[j]),
            None => forall|j: int| i <= j < entries.len() ==> !is_marked(#[trigger] entries[j]),
        },
    decreases entries.len() - i,
{
    if i < entries.len() && !is_marked(entries[i]) {
        lemma_next_marked_is_first(entries, i + 1);
    }
}

/// The search of `N` finds the last marked entry at or before `i`.
pub proof fn lemma_prev_marked_is_last(entries: Seq<EntryView>, i: int)
    requires
        i < entries.len(),
    ensures
        match prev_marked(entries, i) {
            Some(k) => 0 <= k <= i && is_marked(entries[k]) && forall|j: int| k < j <= i ==> !is_marked(#[trigger] entries[j]),
            None => forall|j: int| 0 <= j <= i ==> !is_marked(#[trigger] entries[j]),
        },
    decreases i + 1,
{
    if i >= 0 && !is_marked(entries[i]) {
        lemma_prev_marked_is_last(entries, i - 1);
    }
}

/// Every key keeps the state well formed.
pub proof fn lemma_step_well_formed(b: BrowserView, key: Key)
    requires
        well_formed(b),
    ensures
        well_formed(step(b, key).0),
{
    lemma_next_marked_is_first(b.entries, b.selected as int);
    lemma_prev_marked_is_last(b.entries, b.selected - 2);
}



/// `k` after `j` comes back to the line that was selected, wherever `j` moved down
/// from an entry.
pub proof fn lemma_up_undoes_down(b: BrowserView)
    requires
        well_formed(b),
        1 <= b.selected < b.entries.len(),
    ensures
        step(step(b, Key::Char('j')).0, Key::Char('k')).0.selected == b.selected,
{
}

/// `n` moves to the first entry with a match below the selected line, or stays where
/// there is none.
pub proof fn lemma_next_match(b: BrowserView)
    requires
        well_formed(b),
    ensures
        ({
            let after = step(b, Key::Char('n')).0;
            ||| after.selected == b.selected && forall|j: int| b.selected <= j < b.entries.len() ==> !is_marked(#[trigger] b.entries[j])
            ||| b.selected < after.selected && is_marked(b.entries[after.selected - 1])
                && forall|j: int| b.selected <= j < after.selected - 1 ==> !is_marked(#[trigger] b.entries[j])
        }),
{
    lemma_next_marked_is_first(b.entries, b.selected as int);
}

/// `N` moves to the nearest entry with a match above the selected line (the first entry
/// included), or stays where there is none.
pub proof fn lemma_previous_match(b: BrowserView)
    requires
        well_formed(b),
    ensures
        ({
            let after = step(b, Key::Char('N')).0;
            ||| after.selected == b.selected && forall|j: int| 0 <= j < b.selected - 1 ==> !is_marked(#[trigger] b.entries[j])
            ||| 1 <= after.selected < b.selected && is_marked(b.entries[after.selected - 1])
                && forall|j: int| after.selected - 1 < j < b.selected - 1 ==> !is_marked(#[trigger] b.entries[j])
        }),
{
    lemma_prev_marked_is_last(b.entries, b.selected - 2);
}

/// Moving the selection with `j`, `k`, `n` or `N` shows the preview of the entry reached:
/// nothing for a directory; for a file, its content split by the pattern, each piece
/// plain and each match highlighted between them, in order.
pub proof fn lemma_move_shows_highlighted_preview(b: BrowserView, key: Key)
    requires
        well_formed(b),
        key == Key::Char('j') || key == Key::Char('k') || key == Key::Char('n') || key == Key::Char('N'),
        step(b, key).0.selected != b.selected,
    ensures
        ({
            let after = step(b, key).0;
            let e = b.entries[after.selected - 1];
            let pieces = crate::pattern::regex_split(b.pattern, e.content);
            let ms = crate::pattern::regex_match_texts(b.pattern, e.content);
            &&& 1 <= after.selected <= b.entries.len()
            &&& e.is_a_directory ==> after.preview.len() == 0
            &&& !e.is_a_directory ==> {
                &&& after.preview.len() == 2 * ms.len() + 1
                &&& forall|i: int| 0 <= i <= ms.len() ==> #[trigger] after.preview[2 * i] == (pieces[i], Style::Plain)
                &&& forall|i: int| 0 <= i < ms.len() ==> #[trigger] after.preview[2 * i + 1] == (ms[i], Style::Match)
            }
        }),
{
    lemma_next_marked_is_first(b.entries, b.selected as int);
    lemma_prev_marked_is_last(b.entries, b.selected - 2);
    let after = step(b, key).0;
    let k = after.selected - 1;
    assert(after == select_entry(b, k));
    let e = b.entries[k];
    let ms = crate::pattern::regex_match_texts(b.pattern, e.content);
    crate::ui::lemma_highlighted_shape(crate::pattern::regex_split(b.pattern, e.content), ms, ms.len());
}

/// Ctrl-`h` lists the same directory again with hidden files toggled: shown where they
/// were hidden, hidden where they were shown; the state does not change.
pub proof fn lemma_ctrl_h_toggles(b: BrowserView)
    ensures
        step(b, Key::Ctrl('h')).0 == b,
        step(b, Key::Ctrl('h')).1 matches Outcome::Reload { path, show_hidden_files }
            && path == b.path && show_hidden_files != b.show_hidden_files,
{
}

/// The list holds `"(..)"` first and then one line for each entry.
pub proof fn lemma_list_lines(pattern: Seq<char>, entries: Seq<EntryView>)
    ensures
        items_of(pattern, entries).len() == entries.len() + 1,
        items_of(pattern, entries)[0] == seq![(crate::ui::up_text(), Style::Plain)],
{
}

/// Whether an entry has something that the pattern matched.
fn marked(e: &Entry) -> (res: bool)
    ensures
        res == is_marked(e@),
{
    e.matched_text.len() > 0 || e.content_matches.len() > 0
}

/// Whether a browser can be opened on `entries` (`can_open`).
pub fn can_open_on(entries: &Vec<Entry>) -> (res: bool)
    ensures
        res == can_open(entries_view(entries@)),
{
    if entries.len() == 0 {
        return false;
    }
    let ghost ev = entries_view(entries@);
    let mut i: usize = 0;
    while i < entries.len()
        invariant
            i <= entries.len(),
            ev == entries_view(entries@),
            forall|k: int| 0 <= k < i ==> has_parent((#[trigger] ev[k]).path),
        decreases entries.len() - i,
    {
        let comps = split_slashes(entries[i].path.as_str());
        if comps.len() < 2 {
            proof {
                assert(ev[i as int].path == entries@[i as int].path@);
                assert(!has_parent(ev[i as int].path));
            }
            return false;
        }
        i = i + 1;
    }
    true
}

impl Browser {
    /// The browser over `entries`, listed from directory `path`, with the first entry
    /// selected and its preview shown.
    pub fn open(path: String, show_hidden_files: bool, matcher: Matcher, entries: Vec<Entry>) -> (res: Browser)
        requires
            can_open(entries_view(entries@)),
        ensures
            well_formed(res@),
            previews_selected(res@),
            res@ == (BrowserView {
                path: path@,
                show_hidden_files,
                pattern: matcher@,
                entries: entries_view(entries@),
                items: items_of(matcher@, entries_view(entries@)),
                selected: 1,
                preview: entry_preview(matcher@, entries_view(entries@)[0]),
            }),
    {
        proof {
            assert forall|i: int| 0 <= i < entries.len() implies has_parent((#[trigger] entries@[i]).path@) by {
                assert(entries_view(entries@)[i].path == entries@[i].path@);
            }
        }
        let items = list_items(&matcher, &entries);
        let preview = entry_preview_of(&matcher, &entries[0]);
        Browser { path, show_hidden_files, matcher, entries, items, selected: 1, preview }
    }

    /// The browser over `entries`, or `None` where it cannot be opened (`can_open` fails).
    pub fn try_open(path: String, show_hidden_files: bool, matcher: Matcher, entries: Vec<Entry>) -> (res: Option<Browser>)
        ensures
            res is Some <==> can_open(entries_view(entries@)),
            res matches Some(b) ==> well_formed(b@) && previews_selected(b@) && b@ == (BrowserView {
                path: path@,
                show_hidden_files,
                pattern: matcher@,
                entries: entries_view(entries@),
                items: items_of(matcher@, entries_view(entries@)),
                selected: 1,
                preview: entry_preview(matcher@, entries_view(entries@)[0]),
            }),
    {
        if can_open_on(&entries) {
            Some(Browser::open(path, show_hidden_files, matcher, entries))
        } else {
            None
        }
    }

    /// The lines of the list.
    pub fn items(&self) -> (res: &Vec<Vec<Span>>)
        ensures
            lines_of(res@) == self@.items,
    {
        &self.items
    }

    /// The selected line.
    pub fn selected(&self) -> (res: usize)
        ensures
            res == self@.selected,
    {
        self.selected
    }

    /// The preview pane.
    pub fn preview(&self) -> (res: &Vec<Span>)
        ensures
            spans_of(res@) == self@.preview,
    {
        &self.preview
    }

    /// The pattern the entries were matched with.
    pub fn pattern(&self) -> (res: &String)
        ensures
            res@ == self@.pattern,
    {
        self.matcher.pattern()
    }

    /// The directory being listed.
    pub fn path(&self) -> (res: &String)
        ensures
            res@ == self@.path,
    {
        &self.path
    }

    /// Whether hidden files are shown.
    pub fn show_hidden_files(&self) -> (res: bool)
        ensures
            res == self@.show_hidden_files,
    {
        self.show_hidden_files
    }


    /// Selects entry `k` and shows its preview.
    fn select(&mut self, k: usize)
        requires
            well_formed(old(self)@),
            k < old(self)@.entries.len(),
        ensures
            final(self)@ == select_entry(old(self)@, k as int),
            well_formed(final(self)@),
            previews_selected(final(self)@),
    {
        proof {
            assert(entries_view(self.entries@)[k as int] == self.entries@[k as int]@);
            assert(k < self.entries.len());
        }
        let preview = entry_preview_of(&self.matcher, &self.entries[k]);
        self.preview = preview;
        self.selected = k + 1;
    }

    /// The first marked entry at or after index `from`.
    fn find_next(&self, from: usize) -> (res: Option<usize>)
        requires
            well_formed(self@),
        ensures
            match res {
                Some(k) => next_marked(self@.entries, from as int) == Some(k as int) && k < self@.entries.len(),
                None => next_marked(self@.entries, from as int) is None,
            },
    {
        let ghost ev = self@.entries;
        let mut i = from;
        while i < self.entries.len()
            invariant
                ev == entries_view(self.entries@),
                next_marked(ev, from as int) == next_marked(ev, i as int),
            decreases self.entries.len() - i,
        {
            proof {
                assert(ev[i as int] == self.entries@[i as int]@);
            }
            if marked(&self.entries[i]) {
                return Some(i);
            }
            i = i + 1;
        }
        None
    }


    /// The last marked entry at or before index `from`.
    fn find_prev(&self, from: usize) -> (res: Option<usize>)
        requires
            well_formed(self@),
            from < self@.entries.len(),
        ensures
            match res {
                Some(k) => prev_marked(self@.entries, from as int) == Some(k as int) && k < self@.entries.len(),
                None => prev_marked(self@.entries, from as int) is None,
            },
    {
        let ghost ev = self@.entries;
        let mut i = from;
        loop
            invariant
                ev == entries_view(self.entries@),
                i <= from < self.entries.len(),
                prev_marked(ev, from as int) == prev_marked(ev, i as int),
            decreases i,
        {
            proof {
                assert(ev[i as int] == self.entries@[i as int]@);
            }
            if marked(&self.entries[i]) {
                return Some(i);
            }
            if i == 0 {
                proof {
                    assert(prev_marked(ev, -1) is None);
                }
                return None;
            }
            i = i - 1;
        }
    }


    /// Handles a key: changes the state and tells what to do, as `step` says.
    pub fn handle_key(&mut self, key: Key) -> (res: Action)
        requires
            well_formed(old(self)@),
        ensures
            well_formed(final(self)@),
            (final(self)@, outcome_of(res)) == step(old(self)@, key),
            (key == Key::Char('j') || key == Key::Char('k') || key == Key::Char('n') || key == Key::Char('N'))
                && final(self)@.selected != old(self)@.selected ==> previews_selected(final(self)@),
    {
        let n = self.entries.len();
        let ghost ev = self@.entries;
        match key {
            Key::Char(c) => {
                if c == 'q' {
                    Action::Quit
                } else if c == 'j' {
                    if self.selected < n {
                        let k = self.selected;
                        self.select(k);
                    }
                    Action::Redraw
                } else if c == 'k' {
                    if self.selected > 1 {
                        let k = self.selected - 2;
                        self.select(k);
                    }
                    Action::Redraw
                } else if c == 'g' {
                    self.selected = 0;
                    Action::Redraw
                } else if c == 'G' {
                    self.selected = n;
                    Action::Redraw
                } else if c == 'l' {
                    if self.selected == 0 {
                        Action::Reload { path: parent_dir_of(&self.path), show_hidden_files: self.show_hidden_files }
                    } else {
                        proof {
                            assert(ev[self.selected - 1] == self.entries@[self.selected - 1]@);
                        }
                        let e = &self.entries[self.selected - 1];
                        if e.is_a_directory {
                            Action::Probe { path: e.path.clone() }
                        } else {
                            Action::Redraw
                        }
                    }
                } else if c == 'h' {
                    Action::Reload { path: parent_dir_of(&self.path), show_hidden_files: self.show_hidden_files }
                } else if c == 'n' {
                    match self.find_next(self.selected) {
                        Some(k) => {
                            self.select(k);
                        },
                        None => {},
                    }
                    Action::Redraw
                } else if c == 'N' {
                    if self.selected >= 2 {
                        match self.find_prev(self.selected - 2) {
                            Some(k) => {
                                self.select(k);
                            },
                            None => {},
                        }
                    }
                    Action::Redraw
                } else {
                    Action::Redraw
                }
            },
            Key::Ctrl(c) => {
                if c == 'h' {
                    Action::Reload { path: self.path.clone(), show_hidden_files: !self.show_hidden_files }
                } else {
                    Action::Redraw
                }
            },
            Key::Other => Action::Redraw,
        }
    }



    /// Takes the answer to a `Probe`: whether the selected entry's directory is empty.
    pub fn enter(&self, is_empty: bool) -> (res: Action)
        requires
            well_formed(self@),
            self@.selected >= 1,
        ensures
            outcome_of(res) == entered(self@, is_empty),
    {
        let e = &self.entries[self.selected - 1];
        proof {
            assert(self@.entries[self.selected - 1] == self.entries@[self.selected - 1]@);
        }
        if e.is_a_directory && !is_empty {
            Action::Reload { path: e.path.clone(), show_hidden_files: self.show_hidden_files }
        } else {
            Action::Redraw
        }
    }
}

} // verus!