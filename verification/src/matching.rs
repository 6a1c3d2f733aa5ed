//! The text engines that scanning rests on: regular expressions from the `regex` crate and the
//! multi-word search of the `aho-corasick` crate. The contracts in this module are taken from
//! those crates' documentation; nothing here is proved.

use vstd::prelude::*;
use aho_corasick::AhoCorasick;
use regex::Regex;

use crate::rules;
use crate::text;

verus! {

/// A compiled regular expression.
#[verifier::external_type_specification]
#[verifier::external_body]
pub struct ExRegex(Regex);

/// A compiled search for several words at once.
#[verifier::external_type_specification]
#[verifier::external_body]
pub struct ExAhoCorasick(AhoCorasick);

/// The pattern that `Regex::new` compiled `re` from; `None` for one that was made otherwise.
pub uninterp spec fn compiled_from(re: Regex) -> Option<Seq<char>>;

/// The text that `Regex::find` matches: the leftmost match of `pattern` in `haystack`.
pub uninterp spec fn regex_find(pattern: Seq<char>, haystack: Seq<char>) -> Option<Seq<char>>;

/// The text of one group in the match that `Regex::captures` finds.
pub uninterp spec fn regex_group(
    pattern: Seq<char>,
    haystack: Seq<char>,
    group: nat,
) -> Option<Seq<char>>;

/// The words that `AhoCorasick::new` built `ac` from; `None` for one that was made otherwise.
pub uninterp spec fn literals_of(ac: AhoCorasick) -> Option<Seq<Seq<char>>>;

/// What an optional piece of text holds.
pub open spec fn opt_view(m: Option<&str>) -> Option<Seq<char>> {
    match m {
        Some(t) => Some(t@),
        None => None,
    }
}

/// What each piece of text of `v` holds.
pub open spec fn str_views(v: Seq<&str>) -> Seq<Seq<char>> {
    v.map_values(|s: &str| s@)
}

/// One of `words` occurs in `t`.
pub open spec fn contains_any(t: Seq<char>, words: Seq<Seq<char>>) -> bool {
    exists|i: int| 0 <= i < words.len() && text::contains(t, #[trigger] words[i])
}

/// Calls `Regex::new`, which compiles a pattern. It succeeds on each of the patterns that this
/// crate is written with; no other pattern is admitted.
#[verifier::external_body]
pub(crate) fn compile(pattern: &str) -> (re: Regex)
    requires
        rules::is_static_pattern(pattern@),
    ensures
        compiled_from(re) == Some(pattern@),
{
    Regex::new(pattern).expect("static regex compiles")
}

/// Calls `Regex::find`: the text of the leftmost match, if there is one.
#[verifier::external_body]
pub(crate) fn find<'h>(re: &Regex, haystack: &'h str) -> (m: Option<&'h str>)
    requires
        compiled_from(*re) is Some,
    ensures
        opt_view(m) == regex_find(compiled_from(*re)->0, haystack@),
{
    re.find(haystack).map(|m| m.as_str())
}

/// Calls `Regex::is_match`, which tells whether there is a match anywhere, that is, whether
/// `Regex::find` would find one.
#[verifier::external_body]
pub(crate) fn is_match(re: &Regex, haystack: &str) -> (b: bool)
    requires
        compiled_from(*re) is Some,
    ensures
        b == (regex_find(compiled_from(*re)->0, haystack@) is Some),
{
    re.is_match(haystack)
}

/// Calls `Regex::find_iter` for the pattern of a long token: the texts of the successive matches,
/// in order. The pattern asks for 24 characters or more of one class, a match begins as far left
/// as it can and takes as many characters as it can, and the next one is looked for behind it, so
/// the matches are the runs of such characters that are long enough.
#[verifier::external_body]
pub(crate) fn find_all<'h>(re: &Regex, haystack: &'h str) -> (v: Vec<&'h str>)
    requires
        compiled_from(*re) == Some(rules::ENTROPY_TOKEN@),
    ensures
        str_views(v@) == rules::long_tokens(haystack@),
{
    re.find_iter(haystack).map(|m| m.as_str()).collect()
}

/// Calls `Regex::captures`: the text of one group of the leftmost match, if there is a match and
/// the group took part in it. For the pattern of a hunk's first line number, a plus sign with
/// digits behind it that are the group: where the first plus sign has a number in ASCII digits
/// behind it, the group is that number.
#[verifier::external_body]
pub(crate) fn group<'h>(re: &Regex, haystack: &'h str, n: usize) -> (m: Option<&'h str>)
    requires
        compiled_from(*re) is Some,
    ensures
        opt_view(m) == regex_group(compiled_from(*re)->0, haystack@, n as nat),
        compiled_from(*re) == Some(rules::HUNK_START@) && n == 1 && rules::has_plus_number(
            haystack@,
        ) ==> opt_view(m) == Some(rules::plus_number(haystack@)),
{
    re.captures(haystack).and_then(|c| c.get(n)).map(|m| m.as_str())
}

/// Calls `AhoCorasick::new`, which builds a search for all of `words`. It succeeds on the anchor
/// words; no other list is admitted.
#[verifier::external_body]
pub(crate) fn automaton(words: &Vec<&'static str>) -> (ac: AhoCorasick)
    requires
        str_views(words@) == rules::anchors(),
    ensures
        literals_of(ac) == Some(str_views(words@)),
{
    AhoCorasick::new(words).expect("aho-corasick builds")
}

/// Calls `AhoCorasick::is_match`: whether one of the words occurs anywhere in `haystack`, letter
/// for letter.
#[verifier::external_body]
pub(crate) fn has_word(ac: &AhoCorasick, haystack: &str) -> (b: bool)
    requires
        literals_of(*ac) is Some,
    ensures
        b == contains_any(haystack@, literals_of(*ac)->0),
{
    ac.is_match(haystack)
}

} // verus!
