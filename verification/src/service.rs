use vstd::prelude::*;

use crate::pattern::{opt_texts_of, regex_captures, regex_is_match, regex_match_texts, Matcher};
use crate::text::{
    chars_of, contains_chars, file_name, file_name_of, is_substring, strip_char, texts_of,
    without_char,
};

verus! {

/// One item of a directory listing, as the browser shows it.
pub struct Entry {
    /// The item's path, as the directory listing displays it.
    pub path: String,
    /// The texts of the pattern's capture groups in the item's name (dashes taken out).
    pub matched_text: Vec<String>,
    /// Whether reading the item failed because it is a directory.
    pub is_a_directory: bool,
    /// The item's text with its line breaks taken out (empty where it could not be read).
    pub content: String,
    /// The texts of the successive matches of the pattern in `content`.
    pub content_matches: Vec<String>,
}

/// What an `Entry` holds, as mathematical values.
pub struct EntryView {
    pub path: Seq<char>,
    pub matched_text: Seq<Seq<char>>,
    pub is_a_directory: bool,
    pub content: Seq<char>,
    pub content_matches: Seq<Seq<char>>,
}

impl View for Entry {
    type V = EntryView;

    open spec fn view(&self) -> EntryView {
        EntryView {
            path: self.path@,
            matched_text: texts_of(self.matched_text@),
            is_a_directory: self.is_a_directory,
            content: self.content@,
            content_matches: texts_of(self.content_matches@),
        }
    }
}

impl Entry {
    /// A fresh entry: nothing matched yet and no content.
    pub fn new(path: String, is_a_directory: bool) -> (res: Entry)
        ensures
            res@ == (EntryView {
                path: path@,
                matched_text: Seq::empty(),
                is_a_directory,
                content: Seq::empty(),
                content_matches: Seq::empty(),
            }),
    {
        let res = Entry {
            path,
            matched_text: Vec::new(),
            is_a_directory,
            content: String::new(),
            content_matches: Vec::new(),
        };
        proof {
            assert(res@.matched_text =~= Seq::<Seq<char>>::empty());
            assert(res@.content_matches =~= Seq::<Seq<char>>::empty());
        }
        res
    }
}

/// `string` with every `'-'` taken out.
pub fn remove_dashes(string: &String) -> (res: String)
    ensures
        res@ == without_char(string@, '-'),
{
    strip_char(string.as_str(), '-')
}


/// How many of `saved` do not contain `g`.
pub open spec fn missing(saved: Seq<Seq<char>>, g: Seq<char>) -> nat
    decreases saved.len(),
{
    if saved.len() == 0 {
        0
    } else {
        missing(saved.drop_last(), g) + if is_substring(g, saved.last()) {
            0nat
        } else {
            1nat
        }
    }
}

/// `saved`, then `g` once for each element of `saved` that does not contain it.
pub open spec fn absorb(saved: Seq<Seq<char>>, g: Seq<char>) -> Seq<Seq<char>> {
    saved + Seq::new(missing(saved, g), |_k: int| g)
}

/// The matched texts kept after taking in the first `n` capture groups: group 0 is
/// kept first, then each group is taken in by `absorb`.
pub open spec fn gathered(groups: Seq<Seq<char>>, n: nat) -> Seq<Seq<char>>
    decreases n,
{
    if n == 0 {
        Seq::empty()
    } else {
        let prev = gathered(groups, (n - 1) as nat);
        let base = if n == 1 {
            prev.push(groups[0])
        } else {
            prev
        };
        absorb(base, groups[n - 1])
    }
}

/// Whether every capture group took part in the match.
pub open spec fn all_present(groups: Seq<Option<Seq<char>>>) -> bool {
    forall|i: int| 0 <= i < groups.len() ==> (#[trigger] groups[i]) is Some
}

/// The texts of capture groups that all took part.
pub open spec fn present_texts(groups: Seq<Option<Seq<char>>>) -> Seq<Seq<char>> {
    Seq::new(groups.len(), |i: int| groups[i].unwrap())
}

/// Whether naming an item `name` lets the listing go through: the pattern, where it
/// matches the name, also matches it with its dashes taken out, with every capture
/// group taking part.
pub open spec fn name_fits(pattern: Seq<char>, name: Seq<char>) -> bool {
    regex_is_match(pattern, name) ==> match regex_captures(pattern, without_char(name, '-')) {
        Some(groups) => all_present(groups),
        None => false,
    }
}

/// The matched texts of an item named `name`: none where the pattern does not match the
/// name, otherwise the capture groups of the name without dashes, gathered.
pub open spec fn name_matches(pattern: Seq<char>, name: Seq<char>) -> Seq<Seq<char>> {
    if regex_is_match(pattern, name) {
        match regex_captures(pattern, without_char(name, '-')) {
            Some(groups) => gathered(present_texts(groups), groups.len()),
            None => Seq::empty(),
        }
    } else {
        Seq::empty()
    }
}

proof fn lemma_absorb_step(base: Seq<Seq<char>>, g: Seq<char>, j: int)
    requires
        0 <= j < base.len(),
    ensures
        missing(base.take(j + 1), g) == missing(base.take(j), g) + if is_substring(g, base[j]) {
            0nat
        } else {
            1nat
        },
{
    assert(base.take(j + 1).drop_last() == base.take(j));
}

/// After taking in at least one group, the kept texts begin with group 0.
pub proof fn lemma_gathered_starts_with_whole_match(groups: Seq<Seq<char>>, n: nat)
    requires
        1 <= n <= groups.len(),
    ensures
        gathered(groups, n).len() >= 1,
        gathered(groups, n)[0] == groups[0],
    decreases n,
{
    let prev = gathered(groups, (n - 1) as nat);
    let base = if n == 1 { prev.push(groups[0]) } else { prev };
    if n > 1 {
        lemma_gathered_starts_with_whole_match(groups, (n - 1) as nat);
    }
    assert(absorb(base, groups[n - 1])[0] == base[0]);
}

/// Every kept text is the text of one of the groups taken in.
pub proof fn lemma_gathered_from_groups(groups: Seq<Seq<char>>, n: nat)
    requires
        n <= groups.len(),
    ensures
        forall|x: int| 0 <= x < gathered(groups, n).len()
            ==> exists|j: int| 0 <= j < n && #[trigger] gathered(groups, n)[x] == groups[j],
    decreases n,
{
    if n > 0 {
        lemma_gathered_from_groups(groups, (n - 1) as nat);
        let prev = gathered(groups, (n - 1) as nat);
        let base = if n == 1 { prev.push(groups[0]) } else { prev };
        let g = groups[n - 1];
        assert forall|x: int| 0 <= x < gathered(groups, n).len()
            implies exists|j: int| 0 <= j < n && #[trigger] gathered(groups, n)[x] == groups[j] by {
            if x < prev.len() {
                assert(gathered(groups, n)[x] == prev[x]);
                let j = choose|j: int| 0 <= j < n - 1 && prev[x] == groups[j];
                assert(gathered(groups, n)[x] == groups[j]);
            } else if x < base.len() {
                assert(gathered(groups, n)[x] == groups[0]);
            } else {
                assert(gathered(groups, n)[x] == g);
            }
        }
    }
}

/// Where every group lies inside group 0, taking in the groups keeps group 0 alone.
pub proof fn lemma_gathered_whole_match_only(groups: Seq<Seq<char>>, n: nat)
    requires
        1 <= n <= groups.len(),
        forall|j: int| 0 <= j < groups.len() ==> is_substring(#[trigger] groups[j], groups[0]),
    ensures
        gathered(groups, n) == seq![groups[0]],
    decreases n,
{
    let g = groups[n - 1];
    assert(is_substring(g, groups[0]));
    let base = seq![groups[0]];
    if n > 1 {
        lemma_gathered_whole_match_only(groups, (n - 1) as nat);
    } else {
        assert(gathered(groups, 0).push(groups[0]) =~= base);
    }
    assert(base.drop_last() =~= Seq::<Seq<char>>::empty());
    assert(missing(Seq::<Seq<char>>::empty(), g) == 0);
    assert(base.last() == groups[0]);
    assert(missing(base, g) == 0);
    assert(absorb(base, g) =~= base);
}

/// The text of the first match of `pattern` in `text`: group 0 of its captures.
pub open spec fn first_match_text(pattern: Seq<char>, text: Seq<char>) -> Seq<char> {
    regex_captures(pattern, text).unwrap()[0].unwrap()
}

/// Gathers the capture groups of a match, as the listing keeps them.
fn gather(groups: &Vec<Option<String>>) -> (res: Vec<String>)
    requires
        all_present(opt_texts_of(groups@)),
    ensures
        texts_of(res@) == gathered(
            present_texts(opt_texts_of(groups@)),
            groups@.len(),
        ),
{
    let ghost gs = present_texts(opt_texts_of(groups@));
    let mut matched: Vec<String> = Vec::new();
    let mut i: usize = 0;
    while i < groups.len()
        invariant
            i <= groups.len(),
            gs == present_texts(opt_texts_of(groups@)),
            all_present(opt_texts_of(groups@)),
            texts_of(matched@) == gathered(gs, i as nat),
        decreases groups.len() - i,
    {
        proof {
            assert(opt_texts_of(groups@)[i as int] is Some);
        }
        let g: &String = match &groups[i] {
            Some(g) => g,
            None => {
                proof {
                    assert(false);
                }
                return matched;
            },
        };
        assert(g@ == gs[i as int]);
        if i == 0 {
            let ghost before = matched@;
            matched.push(g.clone());
            proof {
                assert(texts_of(matched@) =~= texts_of(before).push(g@));
            }
        }
        let ghost base = texts_of(matched@);
        let n = matched.len();
        let needle = chars_of(g.as_str());
        let mut j: usize = 0;
        while j < n
            invariant
                j <= n,
                n == base.len(),
                n <= matched.len(),
                needle@ == g@,
                texts_of(matched@) == base + Seq::new(missing(base.take(j as int), g@), |_k: int| g@),
            decreases n - j,
        {
            proof {
                assert(texts_of(matched@)[j as int] == base[j as int]);
                lemma_absorb_step(base, g@, j as int);
            }
            let hay = chars_of(matched[j].as_str());
            if !contains_chars(&hay, &needle) {
                let ghost before = matched@;
                matched.push(g.clone());
                proof {
                    assert(texts_of(matched@) =~= texts_of(before).push(g@));
                    assert(texts_of(matched@) =~= base + Seq::new(
                        missing(base.take(j + 1), g@),
                        |_k: int| g@,
                    ));
                }
            } else {
                proof {
                    assert(texts_of(matched@) =~= base + Seq::new(
                        missing(base.take(j + 1), g@),
                        |_k: int| g@,
                    ));
                }
            }
            j = j + 1;
        }
        proof {
            assert(base.take(n as int) == base);
        }
        i = i + 1;
    }
    matched
}

/// The matched texts of an item whose name is `name`.
pub fn matched_text_of(matcher: &Matcher, name: &String) -> (res: Vec<String>)
    requires
        name_fits(matcher@, name@),
    ensures
        texts_of(res@) == name_matches(matcher@, name@),
        res@.len() > 0 <==> regex_is_match(matcher@, name@),
        regex_is_match(matcher@, name@) ==> texts_of(res@) == seq![
            first_match_text(matcher@, without_char(name@, '-')),
        ],
{
    if matcher.is_match(name.as_str()) {
        let dashless = remove_dashes(name);
        match matcher.captures(dashless.as_str()) {
            Some(groups) => {
                let res = gather(&groups);
                proof {
                    let gv = opt_texts_of(groups@);
                    let gs = present_texts(gv);
                    assert forall|j: int| 0 <= j < gs.len() implies is_substring(#[trigger] gs[j], gs[0]) by {
                        assert(gv[j] is Some);
                    }
                    lemma_gathered_whole_match_only(gs, groups@.len());
                }
                res
            },
            None => {
                proof {
                    assert(false);
                }
                Vec::new()
            },
        }
    } else {
        let res: Vec<String> = Vec::new();
        proof {
            assert(texts_of(res@) =~= Seq::<Seq<char>>::empty());
        }
        res
    }
}


/// What reading an item of a directory as text gave.
pub enum ReadOutcome {
    /// The item's text.
    Text(String),
    /// Reading failed because the item is a directory.
    Directory,
    /// Reading failed for another reason (no permission, not UTF-8, ...).
    Unreadable,
}

/// An item of a directory: its displayed path and what reading it gave.
pub struct Listing {
    pub path: String,
    pub read: ReadOutcome,
}

/// The text that reading gave, empty where it failed.
pub open spec fn read_text(r: ReadOutcome) -> Seq<char> {
    match r {
        ReadOutcome::Text(s) => s@,
        _ => Seq::empty(),
    }
}

/// Whether a name marks a hidden item: it begins with a dot.
pub open spec fn is_hidden(name: Seq<char>) -> bool {
    name.len() > 0 && name[0] == '.'
}

/// Whether an item at `path` is shown: always with hidden files shown, and otherwise
/// only where its name does not begin with a dot.
pub open spec fn listed(path: Seq<char>, show_hidden_files: bool) -> bool {
    show_hidden_files || !is_hidden(file_name(path))
}

/// Whether an item lets the listing go through: with hidden files not shown its name
/// must have a first character to test, and a shown item's name must fit the pattern.
pub open spec fn listing_fits(pattern: Seq<char>, l: Listing, show_hidden_files: bool) -> bool {
    &&& (!show_hidden_files ==> file_name(l.path@).len() > 0)
    &&& (listed(l.path@, show_hidden_files) ==> name_fits(pattern, file_name(l.path@)))
}

/// Whether every item lets the listing go through.
pub open spec fn all_fit(pattern: Seq<char>, listing: Seq<Listing>, show_hidden_files: bool) -> bool {
    forall|i: int| 0 <= i < listing.len() ==> listing_fits(pattern, #[trigger] listing[i], show_hidden_files)
}

/// The content kept of an item: its text with line breaks taken out.
pub open spec fn kept_content(text: Seq<char>) -> Seq<char> {
    if text.len() > 0 {
        without_char(text, '\n')
    } else {
        Seq::empty()
    }
}

/// The entry that the browser shows for an item.
pub open spec fn entry_of(pattern: Seq<char>, l: Listing) -> EntryView {
    let text = read_text(l.read);
    EntryView {
        path: l.path@,
        matched_text: name_matches(pattern, file_name(l.path@)),
        is_a_directory: l.read is Directory,
        content: kept_content(text),
        content_matches: if text.len() > 0 {
            regex_match_texts(pattern, without_char(text, '\n'))
        } else {
            Seq::empty()
        },
    }
}

/// The entries of the shown items of `listing`, in its order.
pub open spec fn filtered(pattern: Seq<char>, listing: Seq<Listing>, show_hidden_files: bool) -> Seq<EntryView>
    decreases listing.len(),
{
    if listing.len() == 0 {
        Seq::empty()
    } else {
        let prev = filtered(pattern, listing.drop_last(), show_hidden_files);
        if listed(listing.last().path@, show_hidden_files) {
            prev.push(entry_of(pattern, listing.last()))
        } else {
            prev
        }
    }
}

/// The views of a list of entries.
pub open spec fn entries_view(v: Seq<Entry>) -> Seq<EntryView> {
    Seq::new(v.len(), |i: int| v[i]@)
}

/// Whether the item at `path` is shown.
pub fn is_listed(path: &String, show_hidden_files: bool) -> (res: bool)
    requires
        show_hidden_files || file_name(path@).len() > 0,
    ensures
        res == listed(path@, show_hidden_files),
{
    if show_hidden_files {
        true
    } else {
        let name = file_name_of(path.as_str());
        let first = chars_of(name.as_str());
        first[0] != '.'
    }
}

/// Whether an entry keeps a matched text exactly where the pattern matches its name,
/// and then only the whole first match in the name without dashes.
pub open spec fn names_whole_match(pattern: Seq<char>, e: EntryView) -> bool {
    let name = file_name(e.path);
    &&& e.matched_text.len() > 0 <==> regex_is_match(pattern, name)
    &&& regex_is_match(pattern, name) ==> e.matched_text == seq![
        first_match_text(pattern, without_char(name, '-')),
    ]
}

/// The entry that the browser shows for one item.
pub fn entry_for(matcher: &Matcher, item: &Listing) -> (res: Entry)
    requires
        name_fits(matcher@, file_name(item.path@)),
    ensures
        res@ == entry_of(matcher@, *item),
        names_whole_match(matcher@, res@),
{
    let is_a_directory = match &item.read {
        ReadOutcome::Directory => true,
        _ => false,
    };
    let mut entry = Entry::new(item.path.clone(), is_a_directory);
    if let ReadOutcome::Text(text) = &item.read {
        if !text.as_str().is_empty() {
            let content = strip_char(text.as_str(), '\n');
            entry.content_matches = matcher.match_texts(content.as_str());
            entry.content = content;
        }
    }
    let name = file_name_of(item.path.as_str());
    entry.matched_text = matched_text_of(matcher, &name);
    entry
}

/// The entries of the shown items of a directory listing, in its order. Each entry
/// keeps the capture groups of the pattern in its name (dashes taken out) and the
/// matches of the pattern in its text.
pub fn filter_by_regex(matcher: &Matcher, listing: &Vec<Listing>, show_hidden_files: bool) -> (res: Vec<Entry>)
    requires
        all_fit(matcher@, listing@, show_hidden_files),
    ensures
        entries_view(res@) == filtered(matcher@, listing@, show_hidden_files),
        forall|i: int| 0 <= i < res@.len() ==> names_whole_match(matcher@, #[trigger] res@[i]@),
{
    let mut entries: Vec<Entry> = Vec::new();
    let mut i: usize = 0;
    while i < listing.len()
        invariant
            i <= listing.len(),
            all_fit(matcher@, listing@, show_hidden_files),
            entries_view(entries@) == filtered(matcher@, listing@.take(i as int), show_hidden_files),
            forall|k: int| 0 <= k < entries@.len() ==> names_whole_match(matcher@, #[trigger] entries@[k]@),
        decreases listing.len() - i,
    {
        let item = &listing[i];
        proof {
            assert(listing_fits(matcher@, listing@[i as int], show_hidden_files));
            assert(listing@.take(i + 1).drop_last() == listing@.take(i as int));
            assert(listing@.take(i + 1).last() == listing@[i as int]);
        }
        if is_listed(&item.path, show_hidden_files) {
            let entry = entry_for(matcher, item);
            let ghost before = entries@;
            entries.push(entry);
            proof {
                assert(entries_view(entries@) =~= entries_view(before).push(entry@));
            }
        }
        i = i + 1;
    }
    proof {
        assert(listing@.take(listing.len() as int) == listing@);
    }
    entries
}


/// Whether the pattern, where it matches `name`, matches it without dashes with every
/// capture group taking part.
pub fn name_fits_pattern(matcher: &Matcher, name: &String) -> (res: bool)
    ensures
        res == name_fits(matcher@, name@),
{
    if !matcher.is_match(name.as_str()) {
        return true;
    }
    let dashless = remove_dashes(name);
    match matcher.captures(dashless.as_str()) {
        None => false,
        Some(groups) => {
            let mut i: usize = 0;
            while i < groups.len()
                invariant
                    i <= groups.len(),
                    regex_is_match(matcher@, name@),
                    regex_captures(matcher@, without_char(name@, '-')) == Some(opt_texts_of(groups@)),
                    forall|k: int| 0 <= k < i ==> (#[trigger] opt_texts_of(groups@)[k]) is Some,
                decreases groups.len() - i,
            {
                if groups[i].is_none() {
                    proof {
                        assert(opt_texts_of(groups@)[i as int] is None);
                        assert(!all_present(opt_texts_of(groups@)));
                    }
                    return false;
                }
                i = i + 1;
            }
            true
        },
    }
}

/// Whether an item lets the listing go through (`listing_fits`).
pub fn item_fits(matcher: &Matcher, item: &Listing, show_hidden_files: bool) -> (res: bool)
    ensures
        res == listing_fits(matcher@, *item, show_hidden_files),
{
    let name = file_name_of(item.path.as_str());
    if !show_hidden_files && name.as_str().is_empty() {
        return false;
    }
    if !is_listed(&item.path, show_hidden_files) {
        return true;
    }
    name_fits_pattern(matcher, &name)
}

/// The entries of the shown items, or `None` where an item does not let the listing
/// go through (`all_fit` fails).
pub fn try_filter_by_regex(matcher: &Matcher, listing: &Vec<Listing>, show_hidden_files: bool) -> (res: Option<Vec<Entry>>)
    ensures
        res is Some <==> all_fit(matcher@, listing@, show_hidden_files),
        res matches Some(entries) ==> entries_view(entries@) == filtered(matcher@, listing@, show_hidden_files),
        res matches Some(entries) ==> forall|i: int|
            0 <= i < entries@.len() ==> names_whole_match(matcher@, #[trigger] entries@[i]@),
{
    let mut i: usize = 0;
    while i < listing.len()
        invariant
            i <= listing.len(),
            forall|k: int| 0 <= k < i ==> listing_fits(matcher@, #[trigger] listing@[k], show_hidden_files),
        decreases listing.len() - i,
    {
        if !item_fits(matcher, &listing[i], show_hidden_files) {
            return None;
        }
        i = i + 1;
    }
    Some(filter_by_regex(matcher, listing, show_hidden_files))
}


/// The content kept of an item holds no line break.
pub proof fn lemma_content_has_no_line_breaks(pattern: Seq<char>, item: Listing)
    ensures
        !entry_of(pattern, item).content.contains('\n'),
{
    crate::text::lemma_without_char_absent(read_text(item.read), '\n');
}

/// Taking out `c` keeps exactly the other characters, in order: it is the filter of
/// the characters that are not `c`.
pub proof fn lemma_without_char_is_filter(s: Seq<char>, c: char)
    ensures
        without_char(s, c) == s.filter(|x: char| x != c),
    decreases s.len(),
{
    reveal(Seq::filter);
    if s.len() > 0 {
        lemma_without_char_is_filter(s.drop_last(), c);
    }
}

/// An item read as a non-empty text `t` keeps all of `t` but its line breaks, every
/// other character in order, and the matches of the pattern in that whole kept text;
/// an item read as an empty text, or not read, keeps no content and no matches.
pub proof fn lemma_entry_keeps_whole_text(pattern: Seq<char>, item: Listing)
    ensures
        ({
            let e = entry_of(pattern, item);
            let t = read_text(item.read);
            &&& t.len() > 0 ==> e.content == t.filter(|x: char| x != '\n')
            &&& t.len() > 0 ==> e.content_matches == regex_match_texts(pattern, e.content)
            &&& t.len() == 0 ==> e.content.len() == 0 && e.content_matches.len() == 0
        }),
{
    lemma_without_char_is_filter(read_text(item.read), '\n');
}

/// With hidden files shown, every item has its entry, in the listing's order.
pub proof fn lemma_all_shown(pattern: Seq<char>, listing: Seq<Listing>)
    ensures
        filtered(pattern, listing, true) == Seq::new(listing.len(), |i: int| entry_of(pattern, listing[i])),
    decreases listing.len(),
{
    if listing.len() > 0 {
        lemma_all_shown(pattern, listing.drop_last());
        assert(filtered(pattern, listing, true) =~= Seq::new(listing.len(), |i: int| entry_of(pattern, listing[i])));
    }
}

/// With hidden files not shown, the entries are those of the shown listing whose names
/// do not begin with a dot, in the same order.
pub proof fn lemma_hidden_left_out(pattern: Seq<char>, listing: Seq<Listing>)
    ensures
        filtered(pattern, listing, false) == filtered(pattern, listing, true).filter(
            |e: EntryView| !is_hidden(file_name(e.path)),
        ),
    decreases listing.len(),
{
    reveal(Seq::filter);
    if listing.len() > 0 {
        lemma_hidden_left_out(pattern, listing.drop_last());
        let all = filtered(pattern, listing, true);
        assert(all.drop_last() == filtered(pattern, listing.drop_last(), true));
    }
}

/// With hidden files not shown, no entry's name begins with a dot.
pub proof fn lemma_no_hidden_entry(pattern: Seq<char>, listing: Seq<Listing>)
    ensures
        forall|i: int| 0 <= i < filtered(pattern, listing, false).len()
            ==> !is_hidden(file_name((#[trigger] filtered(pattern, listing, false)[i]).path)),
    decreases listing.len(),
{
    if listing.len() > 0 {
        lemma_no_hidden_entry(pattern, listing.drop_last());
        let prev = filtered(pattern, listing.drop_last(), false);
        assert forall|i: int| 0 <= i < filtered(pattern, listing, false).len()
            implies !is_hidden(file_name((#[trigger] filtered(pattern, listing, false)[i]).path)) by {
            if i < prev.len() {
                assert(filtered(pattern, listing, false)[i] == prev[i]);
            }
        }
    }
}

} // verus!
