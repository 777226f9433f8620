use vstd::prelude::*;

use crate::pattern::{interleave, regex_is_match, regex_match_texts, regex_split, Matcher};
use crate::service::{Entry, EntryView};
use crate::text::{components, push_char, split_slashes, texts_of};

verus! {

/// How a piece of text is shown.
#[derive(Debug, Clone, Copy, PartialEq, Eq, Structural)]
pub enum Style {
    /// Ordinary text.
    Plain,
    /// A text that the pattern matched (bold, light yellow).
    Match,
    /// The mark of an item whose content the pattern matched (bold, red).
    Marker,
}

/// A piece of text with its style.
pub struct Span {
    pub text: String,
    pub style: Style,
}

/// A span as a mathematical value.
pub open spec fn span_of(s: Span) -> (Seq<char>, Style) {
    (s.text@, s.style)
}

/// The views of a list of spans.
pub open spec fn spans_of(v: Seq<Span>) -> Seq<(Seq<char>, Style)> {
    Seq::new(v.len(), |i: int| span_of(v[i]))
}

/// The views of a list of lines of spans.
pub open spec fn lines_of(v: Seq<Vec<Span>>) -> Seq<Seq<(Seq<char>, Style)>> {
    Seq::new(v.len(), |i: int| spans_of(v[i]@))
}

/// The mark shown after an item whose content matched: `" *"`.
pub open spec fn marker_text() -> Seq<char> {
    seq![' ', '*']
}

/// The first item of the list, which leads to the parent directory: `"(..)"`.
pub open spec fn up_text() -> Seq<char> {
    seq!['(', '.', '.', ')']
}

/// The spans of a text split by its matches: the first piece, then each match
/// highlighted followed by the piece after it, for the first `k` matches.
pub open spec fn highlighted(pieces: Seq<Seq<char>>, matches: Seq<Seq<char>>, k: nat) -> Seq<(Seq<char>, Style)>
    decreases k,
{
    if k == 0 {
        seq![(pieces[0], Style::Plain)]
    } else {
        highlighted(pieces, matches, (k - 1) as nat) + seq![
            (matches[k - 1], Style::Match),
            (pieces[k as int], Style::Plain),
        ]
    }
}

/// A text with every match of the pattern in it highlighted.
pub open spec fn highlight_of(pattern: Seq<char>, text: Seq<char>) -> Seq<(Seq<char>, Style)> {
    let matches = regex_match_texts(pattern, text);
    highlighted(regex_split(pattern, text), matches, matches.len())
}

/// The text that a line of spans shows: their texts in a row.
pub open spec fn joined(spans: Seq<(Seq<char>, Style)>) -> Seq<char>
    decreases spans.len(),
{
    if spans.len() == 0 {
        Seq::empty()
    } else {
        joined(spans.drop_last()) + spans.last().0
    }
}

/// A line of one span shows that span's text.
pub proof fn lemma_joined_one(x: (Seq<char>, Style))
    ensures
        joined(seq![x]) == x.0,
{
    let one = seq![x];
    assert(one.drop_last() =~= Seq::<(Seq<char>, Style)>::empty());
    assert(joined(Seq::<(Seq<char>, Style)>::empty()) == Seq::<char>::empty());
    assert(Seq::<char>::empty() + x.0 =~= x.0);
}

pub proof fn lemma_joined_append(a: Seq<(Seq<char>, Style)>, b: Seq<(Seq<char>, Style)>)
    ensures
        joined(a + b) == joined(a) + joined(b),
    decreases b.len(),
{
    if b.len() == 0 {
        assert(a + b =~= a);
        assert(joined(a) + joined(b) =~= joined(a));
    } else {
        lemma_joined_append(a, b.drop_last());
        assert((a + b).drop_last() =~= a + b.drop_last());
        assert((a + b).last() == b.last());
        assert(joined(a + b) =~= joined(a) + joined(b));
    }
}

/// The highlighted spans show the pieces and matches in turn.
pub proof fn lemma_joined_highlighted(pieces: Seq<Seq<char>>, matches: Seq<Seq<char>>, k: nat)
    ensures
        joined(highlighted(pieces, matches, k)) == interleave(pieces, matches, k),
    decreases k,
{
    if k == 0 {
        lemma_joined_one((pieces[0], Style::Plain));
    } else {
        lemma_joined_highlighted(pieces, matches, (k - 1) as nat);
        let prev = highlighted(pieces, matches, (k - 1) as nat);
        let two = seq![(matches[k - 1], Style::Match), (pieces[k as int], Style::Plain)];
        lemma_joined_append(prev, two);
        assert(two.drop_last() =~= seq![(matches[k - 1], Style::Match)]);
        lemma_joined_one((matches[k - 1], Style::Match));
        assert(joined(two) =~= matches[k - 1] + pieces[k as int]);
        assert(joined(highlighted(pieces, matches, k)) =~= interleave(pieces, matches, k));
    }
}

/// The content mark `" *"` where `mark` holds, nothing otherwise.
pub open spec fn mark_spans(mark: bool) -> Seq<(Seq<char>, Style)> {
    if mark {
        seq![(marker_text(), Style::Marker)]
    } else {
        Seq::empty()
    }
}

/// The spans of the line for a path: its parent directory and name between slashes,
/// every match of the pattern in the name highlighted where `highlight` holds.
pub open spec fn path_spans(pattern: Seq<char>, path: Seq<char>, highlight: bool) -> Seq<(Seq<char>, Style)> {
    let comps = components(path);
    let parent = comps[comps.len() - 2];
    let name = comps.last();
    if highlight {
        seq![(seq!['/'] + parent + seq!['/'], Style::Plain)] + highlight_of(pattern, name)
    } else {
        seq![(seq!['/'] + parent + seq!['/'] + name, Style::Plain)]
    }
}

/// The text of the line for a path: `/parent/name`.
pub open spec fn path_text(path: Seq<char>) -> Seq<char> {
    let comps = components(path);
    seq!['/'] + comps[comps.len() - 2] + seq!['/'] + comps.last()
}

/// The spans of a text split by its matches alternate: piece `i` (plain) at `2 * i`,
/// match `i` (highlighted) at `2 * i + 1`, ending with the last piece.
pub proof fn lemma_highlighted_shape(pieces: Seq<Seq<char>>, matches: Seq<Seq<char>>, k: nat)
    ensures
        highlighted(pieces, matches, k).len() == 2 * k + 1,
        forall|i: int| 0 <= i <= k ==> #[trigger] highlighted(pieces, matches, k)[2 * i] == (pieces[i], Style::Plain),
        forall|i: int| 0 <= i < k ==> #[trigger] highlighted(pieces, matches, k)[2 * i + 1] == (matches[i], Style::Match),
    decreases k,
{
    if k > 0 {
        lemma_highlighted_shape(pieces, matches, (k - 1) as nat);
        let prev = highlighted(pieces, matches, (k - 1) as nat);
        let h = highlighted(pieces, matches, k);
        assert forall|i: int| 0 <= i <= k implies #[trigger] h[2 * i] == (pieces[i], Style::Plain) by {
            if i < k {
                assert(h[2 * i] == prev[2 * i]);
            }
        }
        assert forall|i: int| 0 <= i < k implies #[trigger] h[2 * i + 1] == (matches[i], Style::Match) by {
            if i < k - 1 {
                assert(h[2 * i + 1] == prev[2 * i + 1]);
            }
        }
    }
}

/// The content mark of an entry: present where the pattern matched its content.
pub open spec fn marker_of(e: EntryView) -> Seq<(Seq<char>, Style)> {
    mark_spans(e.content_matches.len() > 0)
}

/// The line that lists an entry: its parent directory and name between slashes, every
/// match of the pattern in the name highlighted where the name matched, and the
/// content mark.
pub open spec fn item_of(pattern: Seq<char>, e: EntryView) -> Seq<(Seq<char>, Style)> {
    path_spans(pattern, e.path, e.matched_text.len() > 0) + marker_of(e)
}

/// The text of the line that lists an entry: `/parent/name`, then `" *"` where the
/// pattern matched its content.
pub open spec fn row_text(e: EntryView) -> Seq<char> {
    path_text(e.path) + if e.content_matches.len() > 0 {
        marker_text()
    } else {
        Seq::empty()
    }
}

/// A row ends with the content mark `" *"` exactly where the pattern matched the entry's
/// content, whether or not its name matched.
pub proof fn lemma_row_marked_by_content(pattern: Seq<char>, e: EntryView)
    ensures
        item_of(pattern, e).len() > 0,
        (item_of(pattern, e).last() == (seq![' ', '*'], Style::Marker)) <==> e.content_matches.len() > 0,
{
    let comps = components(e.path);
    let name = comps.last();
    let ps = path_spans(pattern, e.path, e.matched_text.len() > 0);
    if e.matched_text.len() > 0 {
        let ms = regex_match_texts(pattern, name);
        lemma_highlighted_shape(regex_split(pattern, name), ms, ms.len());
        let h = highlight_of(pattern, name);
        assert(h[2 * (ms.len() as int)] == (regex_split(pattern, name)[ms.len() as int], Style::Plain));
        assert(ps.last() == h.last());
    }
    assert(ps.len() > 0);
    assert(ps.last().1 == Style::Plain);
    if e.content_matches.len() > 0 {
        assert(item_of(pattern, e).last() == (marker_text(), Style::Marker));
        assert(marker_text() =~= seq![' ', '*']);
    } else {
        assert(item_of(pattern, e) =~= ps);
    }
}

/// Whether a path has a parent component to show: it holds a slash.
pub open spec fn has_parent(path: Seq<char>) -> bool {
    components(path).len() >= 2
}

pub(crate) fn push_span(out: &mut Vec<Span>, text: String, style: Style)
    ensures
        spans_of(final(out)@) == spans_of(old(out)@).push((text@, style)),
{
    let ghost before = out@;
    let span = Span { text, style };
    out.push(span);
    proof {
        assert(spans_of(out@) =~= spans_of(before).push((span.text@, style)));
    }
}

/// Appends `text` with every match of the pattern in it highlighted.
pub(crate) fn push_highlighted(out: &mut Vec<Span>, matcher: &Matcher, text: &str)
    ensures
        spans_of(final(out)@) == spans_of(old(out)@) + highlight_of(matcher@, text@),
        joined(highlight_of(matcher@, text@)) == text@,
        !regex_is_match(matcher@, text@) ==> highlight_of(matcher@, text@) == seq![(text@, Style::Plain)],
{
    let pieces = matcher.split(text);
    let matches = matcher.match_texts(text);
    let ghost ps = texts_of(pieces@);
    let ghost ms = texts_of(matches@);
    let ghost start = spans_of(out@);
    push_span(out, pieces[0].clone(), Style::Plain);
    proof {
        assert(spans_of(out@) =~= start + highlighted(ps, ms, 0));
    }
    let mut i: usize = 0;
    while i < matches.len()
        invariant
            i <= matches.len(),
            pieces.len() == matches.len() + 1,
            ps == texts_of(pieces@),
            ms == texts_of(matches@),
            spans_of(out@) == start + highlighted(ps, ms, i as nat),
        decreases matches.len() - i,
    {
        push_span(out, matches[i].clone(), Style::Match);
        push_span(out, pieces[i + 1].clone(), Style::Plain);
        proof {
            assert(ms[i as int] == matches@[i as int]@);
            assert(ps[i + 1] == pieces@[i + 1]@);
            assert(spans_of(out@) =~= start + highlighted(ps, ms, (i + 1) as nat));
        }
        i = i + 1;
    }
    proof {
        lemma_joined_highlighted(ps, ms, ms.len());
    }
}

/// The lines of the list: `"(..)"` first, then one line for each entry.
pub open spec fn items_of(pattern: Seq<char>, entries: Seq<EntryView>) -> Seq<Seq<(Seq<char>, Style)>> {
    seq![seq![(up_text(), Style::Plain)]] + Seq::new(entries.len(), |i: int| item_of(pattern, entries[i]))
}

/// The line for a path: `/parent/name`, the matches in the name highlighted where
/// `highlight` holds, and the content mark where `mark` holds.
pub(crate) fn path_line(matcher: &Matcher, path: &String, highlight: bool, mark: bool) -> (res: Vec<Span>)
    requires
        has_parent(path@),
    ensures
        spans_of(res@) == path_spans(matcher@, path@, highlight) + mark_spans(mark),
        joined(spans_of(res@)) == path_text(path@) + if mark {
            marker_text()
        } else {
            Seq::empty()
        },
{
    let comps = split_slashes(path.as_str());
    let n = comps.len();
    proof {
        assert(texts_of(comps@)[n - 2] == comps@[n - 2]@);
        assert(texts_of(comps@)[n - 1] == comps@[n - 1]@);
    }
    let parent = &comps[n - 2];
    let name = &comps[n - 1];
    let mut out: Vec<Span> = Vec::new();
    let mut head = String::new();
    push_char(&mut head, '/');
    head.append(parent.as_str());
    push_char(&mut head, '/');
    let ghost comps_v = components(path@);
    let ghost head_v = seq!['/'] + parent@ + seq!['/'];
    proof {
        assert(head@ =~= head_v);
        assert(comps_v[comps_v.len() - 2] == parent@);
        assert(comps_v.last() == name@);
    }
    if highlight {
        push_span(&mut out, head, Style::Plain);
        push_highlighted(&mut out, matcher, name.as_str());
        proof {
            let first = seq![(head_v, Style::Plain)];
            assert(spans_of(out@) =~= path_spans(matcher@, path@, highlight));
            lemma_joined_append(first, highlight_of(matcher@, name@));
            lemma_joined_one((head_v, Style::Plain));
            assert(joined(spans_of(out@)) =~= path_text(path@));
        }
    } else {
        head.append(name.as_str());
        push_span(&mut out, head, Style::Plain);
        proof {
            assert(spans_of(out@) =~= path_spans(matcher@, path@, highlight));
            lemma_joined_one((head_v + name@, Style::Plain));
            assert(joined(spans_of(out@)) =~= path_text(path@));
        }
    }
    let ghost pre_mark = spans_of(out@);
    if mark {
        let mut text = String::new();
        push_char(&mut text, ' ');
        push_char(&mut text, '*');
        proof {
            assert(text@ =~= marker_text());
        }
        push_span(&mut out, text, Style::Marker);
    }
    proof {
        assert(spans_of(out@) =~= pre_mark + mark_spans(mark));
        lemma_joined_append(pre_mark, mark_spans(mark));
        if mark {
            lemma_joined_one((marker_text(), Style::Marker));
        } else {
            assert(joined(mark_spans(mark)) =~= Seq::<char>::empty());
        }
        assert(joined(spans_of(out@)) =~= path_text(path@) + if mark {
            marker_text()
        } else {
            Seq::empty()
        });
    }
    out
}

/// The line `"(..)"` that leads to the directory above.
pub(crate) fn up_line() -> (res: Vec<Span>)
    ensures
        spans_of(res@) == seq![(up_text(), Style::Plain)],
{
    let mut up = String::new();
    push_char(&mut up, '(');
    push_char(&mut up, '.');
    push_char(&mut up, '.');
    push_char(&mut up, ')');
    proof {
        assert(up@ =~= up_text());
    }
    let mut line: Vec<Span> = Vec::new();
    push_span(&mut line, up, Style::Plain);
    proof {
        assert(spans_of(line@) =~= seq![(up_text(), Style::Plain)]);
    }
    line
}

/// The line that lists an entry; it reads `row_text`.
pub fn list_item(matcher: &Matcher, entry: &Entry) -> (res: Vec<Span>)
    requires
        has_parent(entry.path@),
    ensures
        spans_of(res@) == item_of(matcher@, entry@),
        joined(spans_of(res@)) == row_text(entry@),
{
    path_line(matcher, &entry.path, entry.matched_text.len() > 0, entry.content_matches.len() > 0)
}

/// The lines of the list for `entries`.
pub fn list_items(matcher: &Matcher, entries: &Vec<Entry>) -> (res: Vec<Vec<Span>>)
    requires
        forall|i: int| 0 <= i < entries.len() ==> has_parent((#[trigger] entries@[i]).path@),
    ensures
        lines_of(res@) == items_of(matcher@, crate::service::entries_view(entries@)),
{
    let mut lines: Vec<Vec<Span>> = Vec::new();
    let first = up_line();
    lines.push(first);
    proof {
        assert(lines_of(lines@) =~= seq![seq![(up_text(), Style::Plain)]]);
    }
    let ghost ev = crate::service::entries_view(entries@);
    let mut i: usize = 0;
    while i < entries.len()
        invariant
            i <= entries.len(),
            ev == crate::service::entries_view(entries@),
            forall|k: int| 0 <= k < entries.len() ==> has_parent((#[trigger] entries@[k]).path@),
            lines_of(lines@) == items_of(matcher@, ev.take(i as int)),
        decreases entries.len() - i,
    {
        let line = list_item(matcher, &entries[i]);
        let ghost before = lines@;
        lines.push(line);
        proof {
            assert(lines_of(lines@) =~= lines_of(before).push(spans_of(line@)));
            assert(items_of(matcher@, ev.take(i + 1)) =~= items_of(matcher@, ev.take(i as int)).push(
                item_of(matcher@, ev[i as int]),
            ));
        }
        i = i + 1;
    }
    proof {
        assert(ev.take(entries.len() as int) == ev);
    }
    lines
}

/// The preview shown for an entry: nothing for a directory, otherwise its content with
/// every match of the pattern highlighted.
pub open spec fn entry_preview(pattern: Seq<char>, e: EntryView) -> Seq<(Seq<char>, Style)> {
    if e.is_a_directory {
        Seq::empty()
    } else {
        highlight_of(pattern, e.content)
    }
}

/// The preview shown for an entry; for a file it reads the entry's content.
pub fn entry_preview_of(matcher: &Matcher, entry: &Entry) -> (res: Vec<Span>)
    ensures
        spans_of(res@) == entry_preview(matcher@, entry@),
        !entry@.is_a_directory ==> joined(spans_of(res@)) == entry@.content,
        !entry@.is_a_directory && !regex_is_match(matcher@, entry@.content) ==> spans_of(res@) == seq![
            (entry@.content, Style::Plain),
        ],
{
    let mut out: Vec<Span> = Vec::new();
    if entry.is_a_directory {
        proof {
            assert(spans_of(out@) =~= Seq::<(Seq<char>, Style)>::empty());
        }
        return out;
    }
    push_highlighted(&mut out, matcher, entry.content.as_str());
    proof {
        assert(spans_of(out@) =~= highlight_of(matcher@, entry@.content));
    }
    out
}

/// The preview of an entry shows nothing for a directory, and for a file its content
/// split by the pattern: each piece plain, each match highlighted between them, in order.
pub proof fn lemma_entry_preview_shape(pattern: Seq<char>, e: EntryView)
    ensures
        ({
            let p = entry_preview(pattern, e);
            let pieces = regex_split(pattern, e.content);
            let ms = regex_match_texts(pattern, e.content);
            &&& e.is_a_directory ==> p.len() == 0
            &&& !e.is_a_directory ==> {
                &&& p.len() == 2 * ms.len() + 1
                &&& forall|i: int| 0 <= i <= ms.len() ==> #[trigger] p[2 * i] == (pieces[i], Style::Plain)
                &&& forall|i: int| 0 <= i < ms.len() ==> #[trigger] p[2 * i + 1] == (ms[i], Style::Match)
            }
        }),
{
    let ms = regex_match_texts(pattern, e.content);
    lemma_highlighted_shape(regex_split(pattern, e.content), ms, ms.len());
}

/// For an entry that the listing made from a non-empty text, the preview highlights
/// exactly the entry's content matches, in order.
pub proof fn lemma_preview_highlights_content_matches(pattern: Seq<char>, item: crate::service::Listing)
    requires
        crate::service::read_text(item.read).len() > 0,
        !(item.read is Directory),
    ensures
        ({
            let e = crate::service::entry_of(pattern, item);
            entry_preview(pattern, e) == highlighted(
                regex_split(pattern, e.content),
                e.content_matches,
                e.content_matches.len(),
            )
        }),
{
}

} // verus!
