//! A lighter listing: each entry keeps only whether the pattern matched its text, and
//! the list is browsed without a preview pane.
use vstd::prelude::*;

use crate::browser::Key;
use crate::pattern::{regex_is_match, Matcher};
use crate::service::{matched_text_of, name_fits, name_matches, read_text, Listing, ReadOutcome};
use crate::text::{file_name, file_name_of, parent_dir, parent_dir_of, split_slashes, texts_of};
use crate::ui::{
    has_parent, joined, lines_of, mark_spans, marker_text, path_line, path_spans, path_text,
    spans_of, up_line, up_text, Span, Style,
};

verus! {

/// One item of a directory listing with a flag for a match in its text.
pub struct Entry {
    pub path: String,
    pub matched_text: Vec<String>,
    pub is_a_directory: bool,
    /// Whether the pattern matches the item's text (the empty text where it could not
    /// be read).
    pub does_content_have_matches: bool,
}

/// What an `Entry` holds, as mathematical values.
pub struct EntryView {
    pub path: Seq<char>,
    pub matched_text: Seq<Seq<char>>,
    pub is_a_directory: bool,
    pub does_content_have_matches: bool,
}

impl View for Entry {
    type V = EntryView;

    open spec fn view(&self) -> EntryView {
        EntryView {
            path: self.path@,
            matched_text: texts_of(self.matched_text@),
            is_a_directory: self.is_a_directory,
            does_content_have_matches: self.does_content_have_matches,
        }
    }
}

impl Entry {
    /// A fresh entry with nothing matched in its name.
    pub fn new(path: String, is_a_directory: bool, does_content_have_matches: bool) -> (res: Entry)
        ensures
            res@ == (EntryView {
                path: path@,
                matched_text: Seq::empty(),
                is_a_directory,
                does_content_have_matches,
            }),
    {
        let res = Entry { path, matched_text: Vec::new(), is_a_directory, does_content_have_matches };
        proof {
            assert(res@.matched_text =~= Seq::<Seq<char>>::empty());
        }
        res
    }
}

/// The entry of an item.
pub open spec fn entry_of(pattern: Seq<char>, l: Listing) -> EntryView {
    EntryView {
        path: l.path@,
        matched_text: name_matches(pattern, file_name(l.path@)),
        is_a_directory: l.read is Directory,
        does_content_have_matches: regex_is_match(pattern, read_text(l.read)),
    }
}

/// The views of a list of entries.
pub open spec fn entries_view(v: Seq<Entry>) -> Seq<EntryView> {
    Seq::new(v.len(), |i: int| v[i]@)
}

/// Whether every item's name fits the pattern.
pub open spec fn all_names_fit(pattern: Seq<char>, listing: Seq<Listing>) -> bool {
    forall|i: int| 0 <= i < listing.len() ==> name_fits(pattern, file_name((#[trigger] listing[i]).path@))
}

/// The entry of one item.
pub fn entry_for(matcher: &Matcher, item: &Listing) -> (res: Entry)
    requires
        name_fits(matcher@, file_name(item.path@)),
    ensures
        res@ == entry_of(matcher@, *item),
{
    let is_a_directory = match &item.read {
        ReadOutcome::Directory => true,
        _ => false,
    };
    let does_content_have_matches = match &item.read {
        ReadOutcome::Text(text) => matcher.is_match(text.as_str()),
        _ => {
            let empty = String::new();
            matcher.is_match(empty.as_str())
        },
    };
    let mut entry = Entry::new(item.path.clone(), is_a_directory, does_content_have_matches);
    let name = file_name_of(item.path.as_str());
    entry.matched_text = matched_text_of(matcher, &name);
    entry
}

/// The entries of all items of a listing, in its order.
pub fn filter_by_regex(matcher: &Matcher, listing: &Vec<Listing>) -> (res: Vec<Entry>)
    requires
        all_names_fit(matcher@, listing@),
    ensures
        entries_view(res@) == Seq::new(listing@.len(), |i: int| entry_of(matcher@, listing@[i])),
{
    let mut entries: Vec<Entry> = Vec::new();
    let mut i: usize = 0;
    while i < listing.len()
        invariant
            i <= listing.len(),
            all_names_fit(matcher@, listing@),
            entries_view(entries@) == Seq::new(i as nat, |k: int| entry_of(matcher@, listing@[k])),
        decreases listing.len() - i,
    {
        proof {
            assert(name_fits(matcher@, file_name(listing@[i as int].path@)));
        }
        let entry = entry_for(matcher, &listing[i]);
        let ghost before = entries@;
        entries.push(entry);
        proof {
            assert(entries_view(entries@) =~= entries_view(before).push(entry@));
            assert(entries_view(entries@) =~= Seq::new((i + 1) as nat, |k: int| entry_of(matcher@, listing@[k])));
        }
        i = i + 1;
    }
    entries
}

/// The entries of all items, or `None` where some name does not fit the pattern.
pub fn try_filter_by_regex(matcher: &Matcher, listing: &Vec<Listing>) -> (res: Option<Vec<Entry>>)
    ensures
        res is Some <==> all_names_fit(matcher@, listing@),
        res matches Some(entries) ==> entries_view(entries@) == Seq::new(
            listing@.len(),
            |i: int| entry_of(matcher@, listing@[i]),
        ),
{
    let mut i: usize = 0;
    while i < listing.len()
        invariant
            i <= listing.len(),
            forall|k: int| 0 <= k < i ==> name_fits(matcher@, file_name((#[trigger] listing@[k]).path@)),
        decreases listing.len() - i,
    {
        let name = file_name_of(listing[i].path.as_str());
        if !crate::service::name_fits_pattern(matcher, &name) {
            return None;
        }
        i = i + 1;
    }
    Some(filter_by_regex(matcher, listing))
}

/// Whether an entry's line carries the content mark: its name matched and the pattern
/// matched its text.
pub open spec fn has_mark(e: EntryView) -> bool {
    e.matched_text.len() > 0 && e.does_content_have_matches
}

/// The line that lists an entry: its parent directory and name between slashes, every
/// match of the pattern in the name highlighted where the name matched, and then the
/// content mark.
pub open spec fn item_of(pattern: Seq<char>, e: EntryView) -> Seq<(Seq<char>, Style)> {
    path_spans(pattern, e.path, e.matched_text.len() > 0) + mark_spans(has_mark(e))
}

/// The text of the line that lists an entry: `/parent/name`, then `" *"` where the line
/// carries the content mark.
pub open spec fn row_text(e: EntryView) -> Seq<char> {
    path_text(e.path) + if has_mark(e) {
        marker_text()
    } else {
        Seq::empty()
    }
}

/// The lines of the list: `"(..)"` first, then one line for each entry.
pub open spec fn items_of(pattern: Seq<char>, entries: Seq<EntryView>) -> Seq<Seq<(Seq<char>, Style)>> {
    seq![seq![(up_text(), Style::Plain)]] + Seq::new(entries.len(), |i: int| item_of(pattern, entries[i]))
}

/// The line that lists an entry; it reads `row_text`.
pub fn list_item(matcher: &Matcher, entry: &Entry) -> (res: Vec<Span>)
    requires
        has_parent(entry.path@),
    ensures
        spans_of(res@) == item_of(matcher@, entry@),
        joined(spans_of(res@)) == row_text(entry@),
{
    let highlight = entry.matched_text.len() > 0;
    path_line(matcher, &entry.path, highlight, highlight && entry.does_content_have_matches)
}

/// The lines of the list for `entries`.
pub fn list_items(matcher: &Matcher, entries: &Vec<Entry>) -> (res: Vec<Vec<Span>>)
    requires
        forall|i: int| 0 <= i < entries.len() ==> has_parent((#[trigger] entries@[i]).path@),
    ensures
        lines_of(res@) == items_of(matcher@, entries_view(entries@)),
{
    let mut lines: Vec<Vec<Span>> = Vec::new();
    let first = up_line();
    lines.push(first);
    proof {
        assert(lines_of(lines@) =~= seq![seq![(up_text(), Style::Plain)]]);
    }
    let ghost ev = entries_view(entries@);
    let mut i: usize = 0;
    while i < entries.len()
        invariant
            i <= entries.len(),
            ev == entries_view(entries@),
            forall|k: int| 0 <= k < entries.len() ==> has_parent((#[trigger] entries@[k]).path@),
            lines_of(lines@) == items_of(matcher@, ev.take(i as int)),
        decreases entries.len() - i,
    {
        let line = list_item(matcher, &entries[i]);
        let ghost before = lines@;
        lines.push(line);
        proof {
            assert(lines_of(lines@) =~= lines_of(before).push(spans_of(line@)));
            assert(items_of(matcher@, ev.take(i + 1)) =~= items_of(matcher@, ev.take(i as int)).push(
                item_of(matcher@, ev[i as int]),
            ));
        }
        i = i + 1;
    }
    proof {
        assert(ev.take(entries.len() as int) == ev);
    }
    lines
}

/// What the explorer asks of the terminal program after a key.
pub enum Move {
    /// Leave the explorer.
    Quit,
    /// Draw the explorer again.
    Redraw,
    /// List the directory at `path`.
    Open { path: String },
}

/// A move as a mathematical value.
pub enum MoveView {
    Quit,
    Redraw,
    Open { path: Seq<char> },
}

/// The view of a move.
pub open spec fn move_of(m: Move) -> MoveView {
    match m {
        Move::Quit => MoveView::Quit,
        Move::Redraw => MoveView::Redraw,
        Move::Open { path } => MoveView::Open { path: path@ },
    }
}

/// The state of the explorer as mathematical values.
pub struct ExplorerView {
    pub path: Seq<char>,
    pub pattern: Seq<char>,
    pub entries: Seq<EntryView>,
    pub items: Seq<Seq<(Seq<char>, Style)>>,
    /// The selected line: 0 is `"(..)"`, `i > 0` is `entries[i - 1]`.
    pub selected: nat,
}

/// An explorer state: each path with a parent, the list made of the entries, and a
/// selected line no further down than the last entry, or than line 1 where there is none.
pub open spec fn explorer_well_formed(x: ExplorerView) -> bool {
    &&& forall|i: int| 0 <= i < x.entries.len() ==> has_parent((#[trigger] x.entries[i]).path)
    &&& x.items == items_of(x.pattern, x.entries)
    &&& (x.selected <= x.entries.len() || x.selected == 1)
}

/// Whether a key can be handled: `l` on an entry's line needs that entry (line 1 of an
/// empty listing has none).
pub open spec fn explorer_key_fits(x: ExplorerView, key: Key) -> bool {
    key == Key::Char('l') && x.selected > 0 ==> x.selected <= x.entries.len()
}

/// What a key does: `q` quits; `j`/`k` move one line down/up; `g` goes to the first
/// line; `l` on `"(..)"` lists the directory above the listed one, and on a directory lists it; any
/// other key changes nothing.
pub open spec fn explorer_step(x: ExplorerView, key: Key) -> (ExplorerView, MoveView) {
    let n = x.entries.len();
    match key {
        Key::Char(c) => {
            if c == 'q' {
                (x, MoveView::Quit)
            } else if c == 'j' {
                (ExplorerView { selected: if x.selected < n { x.selected + 1 } else { x.selected }, ..x }, MoveView::Redraw)
            } else if c == 'k' {
                (ExplorerView { selected: if x.selected > 0 { (x.selected - 1) as nat } else { x.selected }, ..x }, MoveView::Redraw)
            } else if c == 'g' {
                (ExplorerView { selected: 0, ..x }, MoveView::Redraw)
            } else if c == 'l' {
                if x.selected == 0 {
                    (x, MoveView::Open { path: parent_dir(x.path) })
                } else if x.entries[x.selected - 1].is_a_directory {
                    (x, MoveView::Open { path: x.entries[x.selected - 1].path })
                } else {
                    (x, MoveView::Redraw)
                }
            } else {
                (x, MoveView::Redraw)
            }
        },
        _ => (x, MoveView::Redraw),
    }
}

/// `k` after `j` comes back to the selected line wherever `j` moved down.
pub proof fn lemma_explorer_up_undoes_down(x: ExplorerView)
    requires
        explorer_well_formed(x),
        x.selected < x.entries.len(),
    ensures
        explorer_step(explorer_step(x, Key::Char('j')).0, Key::Char('k')).0.selected == x.selected,
{
}

/// No key changes the listing of the explorer.
pub proof fn lemma_explorer_keys_keep_listing(x: ExplorerView, key: Key)
    ensures
        explorer_step(x, key).0.entries == x.entries,
        explorer_step(x, key).0.items == x.items,
        explorer_step(x, key).0.path == x.path,
{
}

/// A list of entries browsed without a preview pane.
pub struct Explorer {
    path: String,
    matcher: Matcher,
    entries: Vec<Entry>,
    items: Vec<Vec<Span>>,
    selected: usize,
}

impl View for Explorer {
    type V = ExplorerView;

    closed spec fn view(&self) -> ExplorerView {
        ExplorerView {
            path: self.path@,
            pattern: self.matcher@,
            entries: entries_view(self.entries@),
            items: lines_of(self.items@),
            selected: self.selected as nat,
        }
    }
}

/// Whether every entry's path has a parent.
pub fn all_have_parents(entries: &Vec<Entry>) -> (res: bool)
    ensures
        res == forall|i: int| 0 <= i < entries.len() ==> has_parent((#[trigger] entries@[i]).path@),
{
    let mut i: usize = 0;
    while i < entries.len()
        invariant
            i <= entries.len(),
            forall|k: int| 0 <= k < i ==> has_parent((#[trigger] entries@[k]).path@),
        decreases entries.len() - i,
    {
        let comps = split_slashes(entries[i].path.as_str());
        if comps.len() < 2 {
            return false;
        }
        i = i + 1;
    }
    true
}

impl Explorer {
    /// The explorer over `entries` of directory `path`, with line 1 selected.
    pub fn open(path: String, matcher: Matcher, entries: Vec<Entry>) -> (res: Explorer)
        requires
            forall|i: int| 0 <= i < entries.len() ==> has_parent((#[trigger] entries@[i]).path@),
        ensures
            explorer_well_formed(res@),
            res@ == (ExplorerView {
                path: path@,
                pattern: matcher@,
                entries: entries_view(entries@),
                items: items_of(matcher@, entries_view(entries@)),
                selected: 1,
            }),
    {
        let items = list_items(&matcher, &entries);
        proof {
            assert forall|i: int| 0 <= i < entries.len() implies has_parent(
                (#[trigger] entries_view(entries@)[i]).path,
            ) by {
                assert(entries_view(entries@)[i].path == entries@[i].path@);
            }
        }
        Explorer { path, matcher, entries, items, selected: 1 }
    }

    /// The explorer over `entries`, or `None` where some path has no parent.
    pub fn try_open(path: String, matcher: Matcher, entries: Vec<Entry>) -> (res: Option<Explorer>)
        ensures
            res is Some <==> forall|i: int| 0 <= i < entries.len() ==> has_parent((#[trigger] entries@[i]).path@),
            res matches Some(x) ==> explorer_well_formed(x@) && x@ == (ExplorerView {
                path: path@,
                pattern: matcher@,
                entries: entries_view(entries@),
                items: items_of(matcher@, entries_view(entries@)),
                selected: 1,
            }),
    {
        if all_have_parents(&entries) {
            Some(Explorer::open(path, matcher, entries))
        } else {
            None
        }
    }

    /// The lines of the list.
    pub fn items(&self) -> (res: &Vec<Vec<Span>>)
        ensures
            lines_of(res@) == self@.items,
    {
        &self.items
    }

    /// The selected line.
    pub fn selected(&self) -> (res: usize)
        ensures
            res == self@.selected,
    {
        self.selected
    }

    /// Whether `key` can be handled now.
    pub fn accepts(&self, key: Key) -> (res: bool)
        ensures
            res == explorer_key_fits(self@, key),
    {
        match key {
            Key::Char(c) => {
                if c == 'l' {
                    self.selected == 0 || self.selected <= self.entries.len()
                } else {
                    true
                }
            },
            _ => true,
        }
    }

    /// Handles a key, as `explorer_step` says.
    pub fn handle_key(&mut self, key: Key) -> (res: Move)
        requires
            explorer_well_formed(old(self)@),
            explorer_key_fits(old(self)@, key),
        ensures
            explorer_well_formed(final(self)@),
            (final(self)@, move_of(res)) == explorer_step(old(self)@, key),
    {
        let ghost ev = self@.entries;
        match key {
            Key::Char(c) => {
                if c == 'q' {
                    Move::Quit
                } else if c == 'j' {
                    if self.selected < self.entries.len() {
                        self.selected = self.selected + 1;
                    }
                    Move::Redraw
                } else if c == 'k' {
                    if self.selected > 0 {
                        self.selected = self.selected - 1;
                    }
                    Move::Redraw
                } else if c == 'g' {
                    self.selected = 0;
                    Move::Redraw
                } else if c == 'l' {
                    if self.selected == 0 {
                        Move::Open { path: parent_dir_of(&self.path) }
                    } else {
                        proof {
                            assert(ev[self.selected - 1] == self.entries@[self.selected - 1]@);
                        }
                        let e = &self.entries[self.selected - 1];
                        if e.is_a_directory {
                            Move::Open { path: e.path.clone() }
                        } else {
                            Move::Redraw
                        }
                    }
                } else {
                    Move::Redraw
                }
            },
            _ => Move::Redraw,
        }
    }

    /// Handles a key where it can be handled; `None`, with the state unchanged, where
    /// `explorer_key_fits` fails.
    pub fn try_handle_key(&mut self, key: Key) -> (res: Option<Move>)
        requires
            explorer_well_formed(old(self)@),
        ensures
            explorer_well_formed(final(self)@),
            res is Some <==> explorer_key_fits(old(self)@, key),
            match res {
                Some(m) => (final(self)@, move_of(m)) == explorer_step(old(self)@, key),
                None => final(self)@ == old(self)@,
            },
    {
        if self.accepts(key) {
            Some(self.handle_key(key))
        } else {
            None
        }
    }
}

} // verus!
