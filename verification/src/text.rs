use vstd::prelude::*;

verus! {

broadcast use vstd::string::group_string_axioms;

/// `s` with every occurrence of `c` taken out, the other characters in order.
pub open spec fn without_char(s: Seq<char>, c: char) -> Seq<char>
    decreases s.len(),
{
    if s.len() == 0 {
        s
    } else {
        let rest = without_char(s.drop_last(), c);
        if s.last() == c {
            rest
        } else {
            rest.push(s.last())
        }
    }
}

/// Taking out `c` leaves no `c` behind.
pub proof fn lemma_without_char_absent(s: Seq<char>, c: char)
    ensures
        !without_char(s, c).contains(c),
    decreases s.len(),
{
    if s.len() > 0 {
        lemma_without_char_absent(s.drop_last(), c);
        let rest = without_char(s.drop_last(), c);
        if s.last() != c {
            assert forall|i: int| 0 <= i < rest.push(s.last()).len() implies rest.push(s.last())[i] != c by {
                if i < rest.len() {
                    assert(rest.push(s.last())[i] == rest[i]);
                }
            }
        }
    }
}

/// Taking out `c` a second time changes nothing.
pub proof fn lemma_without_char_idempotent(s: Seq<char>, c: char)
    ensures
        without_char(without_char(s, c), c) == without_char(s, c),
    decreases s.len(),
{
    if s.len() > 0 {
        lemma_without_char_idempotent(s.drop_last(), c);
        let rest = without_char(s.drop_last(), c);
        if s.last() != c {
            assert(rest.push(s.last()).drop_last() == rest);
        }
    }
}

/// Appends one character to a string (`String::push`).
#[verifier::external_body]
pub(crate) fn push_char(s: &mut String, c: char)
    ensures
        final(s)@ == old(s)@.push(c),
{
    s.push(c);
}

/// Builds `s` without any `c` in it.
pub fn strip_char(s: &str, c: char) -> (res: String)
    ensures
        res@ == without_char(s@, c),
{
    let mut out = String::new();
    for ch in it: s.chars()
        invariant
            it.seq() == s@,
            out@ == without_char(it.seq().take(it.index() as int), c),
    {
        proof {
            assert(it.seq().take(it.index() + 1).drop_last() == it.seq().take(it.index() as int));
        }
        if ch != c {
            push_char(&mut out, ch);
        }
    }
    proof {
        assert(s@.take(s@.len() as int) == s@);
    }
    out
}


/// Whether `needle` occurs as a contiguous part of `hay` (`str::contains` with a string
/// pattern); the empty needle occurs in every string.
pub open spec fn is_substring(needle: Seq<char>, hay: Seq<char>) -> bool {
    exists|i: int| 0 <= i && i + needle.len() <= hay.len() && #[trigger] hay.subrange(i, i + needle.len()) == needle
}

/// The parts of `s` between its `'/'` characters, as `str::split("/")` yields them:
/// always at least one, and one more than there are slashes.
pub open spec fn components(s: Seq<char>) -> Seq<Seq<char>>
    decreases s.len(),
{
    if s.len() == 0 {
        seq![Seq::<char>::empty()]
    } else {
        let prev = components(s.drop_last());
        if s.last() == '/' {
            prev.push(Seq::<char>::empty())
        } else {
            prev.update(prev.len() - 1, prev.last().push(s.last()))
        }
    }
}

/// The last component of a path: what follows its last `'/'` (all of it if there is none).
pub open spec fn file_name(s: Seq<char>) -> Seq<char> {
    components(s).last()
}

/// The components joined with a `'/'` between each two: the inverse of `components`.
pub open spec fn join_slash(parts: Seq<Seq<char>>) -> Seq<char>
    decreases parts.len(),
{
    if parts.len() == 0 {
        Seq::<char>::empty()
    } else if parts.len() == 1 {
        parts[0]
    } else {
        join_slash(parts.drop_last()) + seq!['/'] + parts.last()
    }
}

/// The components without the empty ones that trailing slashes leave at the end.
pub open spec fn trimmed(parts: Seq<Seq<char>>) -> Seq<Seq<char>>
    decreases parts.len(),
{
    if parts.len() > 0 && parts.last().len() == 0 {
        trimmed(parts.drop_last())
    } else {
        parts
    }
}

/// Whether a component is `"."` or `".."`, which name no entry of their own.
pub open spec fn is_dot_name(s: Seq<char>) -> bool {
    s == seq!['.'] || s == seq!['.', '.']
}

/// Whether a component names an entry of a directory: not empty, no slash, no dot name.
pub open spec fn is_plain_name(s: Seq<char>) -> bool {
    s.len() > 0 && !s.contains('/') && !is_dot_name(s)
}

/// A path naming the directory that holds the directory at `dir`, found from the text
/// alone: its last component taken off (`"."` for a single relative component, `"/"`
/// for a component of the root); where the last component is `"."` or `".."`, `"/.."`
/// added. The root has no directory above it: it gives the empty path, which names no
/// directory; the empty path gives `".."`.
pub open spec fn parent_dir(dir: Seq<char>) -> Seq<char> {
    let c = trimmed(components(dir));
    if c.len() == 0 {
        if dir.len() == 0 {
            seq!['.', '.']
        } else {
            Seq::<char>::empty()
        }
    } else if is_dot_name(c.last()) {
        join_slash(c) + seq!['/', '.', '.']
    } else if c.len() == 1 {
        seq!['.']
    } else if c.len() == 2 && c[0].len() == 0 {
        seq!['/']
    } else {
        join_slash(c.drop_last())
    }
}

/// Joining the components of a path gives the path back.
pub proof fn lemma_join_components(s: Seq<char>)
    ensures
        join_slash(components(s)) == s,
    decreases s.len(),
{
    if s.len() > 0 {
        let prev = components(s.drop_last());
        lemma_join_components(s.drop_last());
        lemma_components_nonempty(s.drop_last());
        if s.last() == '/' {
            assert(prev.push(Seq::<char>::empty()).drop_last() == prev);
            assert(join_slash(components(s)) =~= s);
        } else {
            let upd = prev.update(prev.len() - 1, prev.last().push(s.last()));
            if prev.len() == 1 {
                assert(join_slash(upd) =~= s);
            } else {
                assert(upd.drop_last() =~= prev.drop_last());
                assert(join_slash(upd) =~= join_slash(prev).push(s.last()));
                assert(join_slash(upd) =~= s);
            }
        }
    }
}

/// Appending characters other than `'/'` extends the last component.
pub proof fn lemma_components_append_plain(x: Seq<char>, b: Seq<char>)
    requires
        !b.contains('/'),
    ensures
        components(x + b) == components(x).update(components(x).len() - 1, components(x).last() + b),
    decreases b.len(),
{
    lemma_components_nonempty(x);
    if b.len() == 0 {
        assert(x + b =~= x);
        assert(components(x).last() + b =~= components(x).last());
        assert(components(x).update(components(x).len() - 1, components(x).last()) =~= components(x));
    } else {
        assert(!b.drop_last().contains('/')) by {
            if b.drop_last().contains('/') {
                let k = choose|k: int| 0 <= k < b.drop_last().len() && b.drop_last()[k] == '/';
                assert(b[k] == '/');
            }
        }
        assert(b.last() != '/') by {
            assert(b[b.len() - 1] == b.last());
        }
        lemma_components_append_plain(x, b.drop_last());
        assert((x + b).drop_last() =~= x + b.drop_last());
        assert((x + b).last() == b.last());
        let c = components(x);
        let prev = components(x + b.drop_last());
        assert(prev == c.update(c.len() - 1, c.last() + b.drop_last()));
        assert(prev.len() == c.len());
        assert(prev.last() == c.last() + b.drop_last());
        assert(components(x + b) == prev.update(prev.len() - 1, prev.last().push(b.last())));
        assert((c.last() + b.drop_last()).push(b.last()) =~= c.last() + b);
        assert(components(x + b) =~= c.update(c.len() - 1, c.last() + b));
    }
}

/// The parent of an entry of a directory is that directory: for a plain name `b`, the
/// parent of `a/b` is `a` (the root where `a` is empty), and the parent of `b` is `"."`.
pub proof fn lemma_parent_of_child(a: Seq<char>, b: Seq<char>)
    requires
        is_plain_name(b),
    ensures
        parent_dir(a + seq!['/'] + b) == if a.len() == 0 {
            seq!['/']
        } else {
            a
        },
        parent_dir(b) == seq!['.'],
{
    let ca = components(a);
    lemma_components_nonempty(a);
    let a1 = a + seq!['/'];
    assert(a1.drop_last() =~= a);
    assert(a1.last() == '/');
    assert(components(a1) == ca.push(Seq::<char>::empty()));
    lemma_components_append_plain(a1, b);
    assert(Seq::<char>::empty() + b =~= b);
    let c = ca.push(b);
    assert(components(a1 + b) =~= c);
    assert(c.last() == b);
    assert(trimmed(c) == c);
    assert(c.drop_last() =~= ca);
    lemma_join_components(a);
    if a.len() == 0 {
        assert(ca =~= seq![Seq::<char>::empty()]);
    } else {
        if ca.len() == 1 && ca[0].len() == 0 {
            assert(join_slash(ca) == ca[0]);
        }
    }
    lemma_components_append_plain(Seq::<char>::empty(), b);
    assert(Seq::<char>::empty() + b =~= b);
    assert(components(Seq::<char>::empty()) == seq![Seq::<char>::empty()]);
    assert(components(b) =~= seq![b]);
    assert(trimmed(seq![b]) == seq![b]);
}

/// Strips the trailing empty components, as `trimmed` does.
fn trimmed_len(parts: &Vec<String>) -> (res: usize)
    ensures
        res <= parts.len(),
        trimmed(texts_of(parts@)) == texts_of(parts@).take(res as int),
{
    let ghost ts = texts_of(parts@);
    let mut m = parts.len();
    proof {
        assert(ts.take(m as int) == ts);
    }
    while m > 0 && parts[m - 1].as_str().is_empty()
        invariant
            m <= parts.len(),
            ts == texts_of(parts@),
            trimmed(ts) == trimmed(ts.take(m as int)),
        decreases m,
    {
        proof {
            assert(ts.take(m as int).last() == parts@[m - 1]@);
            assert(ts.take(m as int).drop_last() == ts.take(m - 1));
        }
        m = m - 1;
    }
    proof {
        if m > 0 {
            assert(ts.take(m as int).last() == parts@[m - 1]@);
        }
    }
    m
}

/// The first `k` components joined with slashes.
fn join_first(parts: &Vec<String>, k: usize) -> (res: String)
    requires
        k <= parts.len(),
    ensures
        res@ == join_slash(texts_of(parts@).take(k as int)),
{
    let ghost ts = texts_of(parts@);
    let mut out = String::new();
    let mut i: usize = 0;
    while i < k
        invariant
            k <= parts.len(),
            i <= k,
            ts == texts_of(parts@),
            out@ == join_slash(ts.take(i as int)),
        decreases k - i,
    {
        if i > 0 {
            push_char(&mut out, '/');
        }
        out.append(parts[i].as_str());
        proof {
            assert(ts.take(i + 1).drop_last() == ts.take(i as int));
            assert(ts.take(i + 1).last() == parts@[i as int]@);
            if i == 0 {
                assert(out@ =~= parts@[0]@);
            }
        }
        i = i + 1;
    }
    out
}

/// Whether `s` is `"."` or `".."`.
fn is_dot(s: &String) -> (res: bool)
    ensures
        res == is_dot_name(s@),
{
    let c = chars_of(s.as_str());
    if c.len() == 1 && c[0] == '.' {
        proof {
            assert(s@ =~= seq!['.']);
        }
        true
    } else if c.len() == 2 && c[0] == '.' && c[1] == '.' {
        proof {
            assert(s@ =~= seq!['.', '.']);
        }
        true
    } else {
        proof {
            if s@ == seq!['.'] {
                assert(c@.len() == 1);
            }
            if s@ == seq!['.', '.'] {
                assert(c@.len() == 2);
            }
        }
        false
    }
}

/// A path naming the directory above the directory at `dir`.
pub fn parent_dir_of(dir: &String) -> (res: String)
    ensures
        res@ == parent_dir(dir@),
{
    let parts = split_slashes(dir.as_str());
    let m = trimmed_len(&parts);
    let ghost c = trimmed(components(dir@));
    let mut out = String::new();
    if m == 0 {
        if dir.as_str().is_empty() {
            push_char(&mut out, '.');
            push_char(&mut out, '.');
            proof {
                assert(out@ =~= seq!['.', '.']);
            }
        }
        return out;
    }
    proof {
        assert(c.last() == parts@[m - 1]@);
    }
    if is_dot(&parts[m - 1]) {
        out = join_first(&parts, m);
        push_char(&mut out, '/');
        push_char(&mut out, '.');
        push_char(&mut out, '.');
        proof {
            assert(texts_of(parts@).take(m as int) == c);
            assert(out@ =~= join_slash(c) + seq!['/', '.', '.']);
        }
        out
    } else if m == 1 {
        push_char(&mut out, '.');
        proof {
            assert(out@ =~= seq!['.']);
        }
        out
    } else if m == 2 && parts[0].as_str().is_empty() {
        proof {
            assert(c[0] == parts@[0]@);
        }
        push_char(&mut out, '/');
        proof {
            assert(out@ =~= seq!['/']);
        }
        out
    } else {
        proof {
            if m == 2 {
                assert(c[0] == parts@[0]@);
            }
            assert(texts_of(parts@).take(m - 1) == c.drop_last());
        }
        join_first(&parts, m - 1)
    }
}

pub proof fn lemma_components_nonempty(s: Seq<char>)
    ensures
        components(s).len() >= 1,
    decreases s.len(),
{
    if s.len() > 0 {
        lemma_components_nonempty(s.drop_last());
    }
}

/// The characters of `s`, one per element.
pub fn chars_of(s: &str) -> (res: Vec<char>)
    ensures
        res@ == s@,
{
    let mut out: Vec<char> = Vec::new();
    for ch in it: s.chars()
        invariant
            it.seq() == s@,
            out@ == it.seq().take(it.index() as int),
    {
        out.push(ch);
    }
    out
}

/// Builds a `String` from characters.
pub fn string_of(chars: &Vec<char>) -> (res: String)
    ensures
        res@ == chars@,
{
    let mut out = String::new();
    let mut i: usize = 0;
    while i < chars.len()
        invariant
            i <= chars.len(),
            out@ == chars@.take(i as int),
        decreases chars.len() - i,
    {
        push_char(&mut out, chars[i]);
        proof {
            assert(chars@.take(i + 1) == chars@.take(i as int).push(chars@[i as int]));
        }
        i = i + 1;
    }
    proof {
        assert(chars@.take(chars.len() as int) == chars@);
    }
    out
}

/// Whether `needle` occurs in `hay` at position `at`.
fn occurs_at(hay: &Vec<char>, needle: &Vec<char>, at: usize) -> (res: bool)
    requires
        at + needle.len() <= hay.len(),
    ensures
        res == (hay@.subrange(at as int, at + needle.len()) == needle@),
{
    let mut j: usize = 0;
    while j < needle.len()
        invariant
            at + needle.len() <= hay.len(),
            j <= needle.len(),
            forall|k: int| 0 <= k < j ==> hay@[at + k] == needle@[k],
        decreases needle.len() - j,
    {
        if hay[at + j] != needle[j] {
            proof {
                assert(hay@.subrange(at as int, at + needle.len())[j as int] != needle@[j as int]);
            }
            return false;
        }
        j = j + 1;
    }
    proof {
        assert(hay@.subrange(at as int, at + needle.len()) =~= needle@);
    }
    true
}

/// Whether `needle` occurs as a contiguous part of `hay`.
pub fn contains_chars(hay: &Vec<char>, needle: &Vec<char>) -> (res: bool)
    ensures
        res == is_substring(needle@, hay@),
{
    if needle.len() > hay.len() {
        return false;
    }
    let last = hay.len() - needle.len();
    let mut i: usize = 0;
    loop
        invariant
            last == hay.len() - needle.len(),
            needle.len() <= hay.len(),
            i <= last,
            forall|k: int| 0 <= k < i ==> #[trigger] hay@.subrange(k, k + needle.len()) != needle@,
        decreases last - i,
    {
        if occurs_at(hay, needle, i) {
            return true;
        }
        if i == last {
            return false;
        }
        i = i + 1;
    }
}

/// The parts of `s` between its slashes (`str::split("/")`).
pub fn split_slashes(s: &str) -> (res: Vec<String>)
    ensures
        texts_of(res@) == components(s@),
        res@.len() >= 1,
{
    let mut done: Vec<String> = Vec::new();
    let mut cur = String::new();
    for ch in it: s.chars()
        invariant
            it.seq() == s@,
            texts_of(done@).push(cur@) == components(it.seq().take(it.index() as int)),
    {
        let ghost before = it.seq().take(it.index() as int);
        let ghost prev_done = done@;
        proof {
            assert(it.seq().take(it.index() + 1) == before.push(ch));
            assert(before.push(ch).drop_last() == before);
            lemma_components_nonempty(before);
        }
        if ch == '/' {
            let finished = cur;
            done.push(finished);
            cur = String::new();
            proof {
                assert(texts_of(done@) =~= texts_of(prev_done).push(finished@));
                assert(texts_of(done@).push(cur@) =~= components(before).push(Seq::<char>::empty()));
            }
        } else {
            push_char(&mut cur, ch);
            proof {
                assert(texts_of(done@).push(cur@) =~= components(before).update(
                    components(before).len() - 1,
                    components(before).last().push(ch),
                ));
            }
        }
    }
    let ghost prev_done = done@;
    done.push(cur);
    proof {
        assert(s@.take(s@.len() as int) == s@);
        assert(texts_of(done@) =~= texts_of(prev_done).push(cur@));
    }
    done
}

/// The last component of `path` (`path.split("/")` and its last part).
pub fn file_name_of(path: &str) -> (res: String)
    ensures
        res@ == file_name(path@),
{
    let mut parts = split_slashes(path);
    let last = parts.len() - 1;
    let ghost before = parts@;
    let res = parts.remove(last);
    proof {
        assert(texts_of(before)[last as int] == res@);
    }
    res
}

/// The deep view of a list of strings.
pub open spec fn texts_of(v: Seq<String>) -> Seq<Seq<char>> {
    Seq::new(v.len(), |i: int| v[i]@)
}

} // verus!
