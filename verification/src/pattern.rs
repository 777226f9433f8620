use vstd::prelude::*;

use crate::text::{is_substring, texts_of};

verus! {

#[verifier::external_type_specification]
#[verifier::external_body]
pub struct ExRegex(regex::Regex);

#[verifier::external_type_specification]
#[verifier::external_body]
pub struct ExRegexError(regex::Error);

/// Whether `Regex::new` accepts `pattern` (a valid pattern within the default size limit).
pub uninterp spec fn regex_compiles(pattern: Seq<char>) -> bool;

/// Whether the regex of `pattern` matches anywhere in `haystack`.
pub uninterp spec fn regex_is_match(pattern: Seq<char>, haystack: Seq<char>) -> bool;

/// The capture groups of the leftmost-first match of `pattern` in `haystack`, group 0
/// first, each the matched text or `None` where the group took no part.
pub uninterp spec fn regex_captures(pattern: Seq<char>, haystack: Seq<char>) -> Option<Seq<Option<Seq<char>>>>;

/// The texts of the successive non-overlapping matches of `pattern` in `haystack`.
pub uninterp spec fn regex_match_texts(pattern: Seq<char>, haystack: Seq<char>) -> Seq<Seq<char>>;

/// The pieces of `haystack` between the successive matches of `pattern`.
pub uninterp spec fn regex_split(pattern: Seq<char>, haystack: Seq<char>) -> Seq<Seq<char>>;


/// The text that the pieces between matches and the matches give when laid in turn:
/// `pieces[0] + matches[0] + pieces[1] + ... + matches[k - 1] + pieces[k]`.
pub open spec fn interleave(pieces: Seq<Seq<char>>, matches: Seq<Seq<char>>, k: nat) -> Seq<char>
    decreases k,
{
    if k == 0 {
        pieces[0]
    } else {
        interleave(pieces, matches, (k - 1) as nat) + matches[k - 1] + pieces[k as int]
    }
}

/// Whether every group that took part lies inside group 0, the whole match.
pub open spec fn groups_inside_match(groups: Seq<Option<Seq<char>>>) -> bool {
    forall|i: int|
        0 <= i < groups.len() && (#[trigger] groups[i]) is Some ==> is_substring(
            groups[i].unwrap(),
            groups[0].unwrap(),
        )
}

/// The deep view of a list of optional strings.
pub open spec fn opt_texts_of(v: Seq<Option<String>>) -> Seq<Option<Seq<char>>> {
    Seq::new(
        v.len(),
        |i: int|
            match v[i] {
                Some(s) => Some(s@),
                None => None,
            },
    )
}

/// Error of `Matcher::new`: the pattern is no regex that the `regex` crate builds.
#[derive(Debug, Clone, Copy, PartialEq, Eq)]
pub enum PatternError {
    Invalid,
}

/// A compiled regular expression together with the pattern it was compiled from.
/// Only the trusted `compile` builds one, so `compiled` is always `Regex::new(pattern)`.
pub struct Matcher {
    pattern: String,
    compiled: regex::Regex,
}

impl View for Matcher {
    type V = Seq<char>;

    closed spec fn view(&self) -> Seq<char> {
        self.pattern@
    }
}

/// `regex::Regex::new` on `pattern`, the compiled regex stored beside a copy of the
/// pattern: `Ok` exactly when the pattern compiles, and the matcher then stands for it.
#[verifier::external_body]
fn compile(pattern: &String) -> (res: Result<Matcher, regex::Error>)
    ensures
        res is Ok <==> regex_compiles(pattern@),
        res matches Ok(m) ==> m@ == pattern@,
{
    regex::Regex::new(pattern.as_str()).map(|compiled| Matcher { pattern: pattern.clone(), compiled })
}

/// `regex::Regex::is_match` on the compiled regex of `m`: whether it matches anywhere.
#[verifier::external_body]
fn is_match_of(m: &Matcher, haystack: &str) -> (res: bool)
    ensures
        res == regex_is_match(m@, haystack@),
{
    m.compiled.is_match(haystack)
}

/// `regex::Regex::captures` on the compiled regex of `m`, each group converted to its
/// text (`Captures::iter`, `Match::as_str`). The regex documentation gives: `None`
/// exactly when there is no match; otherwise group 0, the whole match, is present, and
/// the groups are parts of that match, so each lies inside group 0.
#[verifier::external_body]
fn captures_of(m: &Matcher, haystack: &str) -> (res: Option<Vec<Option<String>>>)
    ensures
        match res {
            Some(groups) => regex_captures(m@, haystack@) == Some(opt_texts_of(groups@)),
            None => regex_captures(m@, haystack@) is None,
        },
        res is Some <==> regex_is_match(m@, haystack@),
        res matches Some(groups) ==> groups@.len() >= 1 && groups@[0] is Some,
        res matches Some(groups) ==> groups_inside_match(opt_texts_of(groups@)),
{
    m.compiled.captures(haystack).map(
        |caps| caps.iter().map(|g| g.map(|x| x.as_str().to_string())).collect(),
    )
}

/// `regex::Regex::captures_iter` on the compiled regex of `m`, each item reduced to the
/// text of its group 0 (`Captures::get(0)`, which the documentation says is never `None`).
/// The source (regex-automata's `Split::next`) splits by the same search, so `split`
/// gives one piece more than there are matches; and the search finds a match exactly
/// where `is_match` says there is one.
#[verifier::external_body]
fn match_texts_of(m: &Matcher, haystack: &str) -> (res: Vec<String>)
    ensures
        texts_of(res@) == regex_match_texts(m@, haystack@),
        res@.len() + 1 == regex_split(m@, haystack@).len(),
        res@.len() == 0 <==> !regex_is_match(m@, haystack@),
{
    m.compiled.captures_iter(haystack).map(|c| c.get(0).unwrap().as_str().to_string()).collect()
}

/// `regex::Regex::split` on the compiled regex of `m`, each piece converted to a `String`.
/// The source (regex-automata's `Split::next`) yields, for each match found by the same
/// search as `captures_iter`, the text from the end of the previous match to its start,
/// and then the rest after the last match: one more piece than matches, and the pieces
/// and matches laid in turn give the haystack back.
#[verifier::external_body]
fn split_of(m: &Matcher, haystack: &str) -> (res: Vec<String>)
    ensures
        texts_of(res@) == regex_split(m@, haystack@),
        res@.len() == regex_match_texts(m@, haystack@).len() + 1,
        interleave(
            texts_of(res@),
            regex_match_texts(m@, haystack@),
            regex_match_texts(m@, haystack@).len(),
        ) == haystack@,
{
    m.compiled.split(haystack).map(|s| s.to_string()).collect()
}

impl Matcher {
    /// Compiles `pattern`; fails exactly when the `regex` crate refuses it.
    pub fn new(pattern: &String) -> (res: Result<Matcher, PatternError>)
        ensures
            res is Ok <==> regex_compiles(pattern@),
            res matches Ok(m) ==> m@ == pattern@,
    {
        match compile(pattern) {
            Ok(m) => Ok(m),
            Err(_) => Err(PatternError::Invalid),
        }
    }

    /// The pattern this matcher was compiled from.
    pub fn pattern(&self) -> (res: &String)
        ensures
            res@ == self@,
    {
        &self.pattern
    }

    /// Whether the regex matches anywhere in `haystack`.
    pub fn is_match(&self, haystack: &str) -> (res: bool)
        ensures
            res == regex_is_match(self@, haystack@),
    {
        is_match_of(self, haystack)
    }

    /// The capture groups of the first match in `haystack`, if there is one.
    pub fn captures(&self, haystack: &str) -> (res: Option<Vec<Option<String>>>)
        ensures
            match res {
                Some(groups) => regex_captures(self@, haystack@) == Some(opt_texts_of(groups@)),
                None => regex_captures(self@, haystack@) is None,
            },
            res is Some <==> regex_is_match(self@, haystack@),
            res matches Some(groups) ==> groups@.len() >= 1 && groups@[0] is Some,
            res matches Some(groups) ==> groups_inside_match(opt_texts_of(groups@)),
    {
        captures_of(self, haystack)
    }

    /// The texts of all successive non-overlapping matches in `haystack`.
    pub fn match_texts(&self, haystack: &str) -> (res: Vec<String>)
        ensures
            texts_of(res@) == regex_match_texts(self@, haystack@),
            res@.len() + 1 == regex_split(self@, haystack@).len(),
            res@.len() == 0 <==> !regex_is_match(self@, haystack@),
    {
        match_texts_of(self, haystack)
    }

    /// The pieces of `haystack` between the matches; laid in turn with the matches they
    /// give `haystack` back.
    pub fn split(&self, haystack: &str) -> (res: Vec<String>)
        ensures
            texts_of(res@) == regex_split(self@, haystack@),
            res@.len() == regex_match_texts(self@, haystack@).len() + 1,
            interleave(
                texts_of(res@),
                regex_match_texts(self@, haystack@),
                regex_match_texts(self@, haystack@).len(),
            ) == haystack@,
    {
        split_of(self, haystack)
    }
}

} // verus!
