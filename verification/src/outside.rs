//! Trusted boundary to the outside crates.
//!
//! Everything the library takes from `regex` and `uuid`, and the one Unicode
//! operation it takes from `std`, passes through the declarations and
//! wrappers in this module. Each wrapper's contract states what the outside
//! call returns; results too large to state directly are given names
//! (`found_strings`, `captured_strings`, `match_char_spans`, `lower_of`) that
//! the rest of the crate's contracts are written over.

use vstd::prelude::*;

verus! {

#[verifier::external_type_specification]
#[verifier::external_body]
pub struct ExRegex(regex::Regex);

/// The substrings matched by the non-overlapping, leftmost-first matches that
/// the pattern `pat` finds in `text`. A fixed function of the two arguments.
pub uninterp spec fn found_strings(pat: Seq<char>, text: Seq<char>) -> Seq<Seq<char>>;

/// For each match of `pat` in `text`, in order, the text of capture group
/// `group`; matches in which the group did not participate contribute
/// nothing.
pub uninterp spec fn captured_strings(pat: Seq<char>, text: Seq<char>, group: int) -> Seq<
    Seq<char>,
>;

/// The half-open character-offset spans of the non-overlapping,
/// leftmost-first matches of `pat` in `text`.
pub uninterp spec fn match_char_spans(pat: Seq<char>, text: Seq<char>) -> Seq<(usize, usize)>;

/// Whether the regex compiler accepts `pat` as a pattern.
pub uninterp spec fn pattern_compiles(pat: Seq<char>) -> bool;

/// A compiled pattern, kept together with the source it was compiled from.
/// Only [`compile_pattern`] constructs one, so `src` is always the source of
/// `re`.
pub struct Pattern {
    pub re: regex::Regex,
    pub src: String,
}

/// Relies on `regex::Regex::new`: compiling `src` yields a pattern that
/// matches as `src` prescribes, or an error for a syntactically invalid
/// pattern.
#[verifier::external_body]
pub fn compile_pattern(src: &str) -> (r: Option<Pattern>)
    ensures
        r matches Some(p) ==> p.src@ == src@,
        (r matches Some(_)) == pattern_compiles(src@),
{
    match regex::Regex::new(src) {
        Ok(re) => Some(Pattern { re, src: src.to_string() }),
        Err(_) => None,
    }
}

impl Pattern {
    /// Relies on `regex::Regex::find_iter`: the number of non-overlapping
    /// matches of the pattern in `text`.
    #[verifier::external_body]
    pub fn count_matches(&self, text: &str) -> (r: usize)
        ensures
            r == found_strings(self.src@, text@).len(),
    {
        self.re.find_iter(text).count()
    }

    /// Relies on `regex::Regex::find_iter` and `regex::Match::as_str`: the
    /// matched substrings, leftmost first.
    #[verifier::external_body]
    pub fn find_match_strings(&self, text: &str) -> (r: Vec<String>)
        ensures
            r.deep_view() == found_strings(self.src@, text@),
    {
        self.re.find_iter(text).map(|m| m.as_str().to_string()).collect()
    }

    /// Relies on `regex::Regex::captures_iter` and `regex::Captures::get`:
    /// the text of capture group `group` for each match in which the group
    /// participated, in match order.
    #[verifier::external_body]
    pub fn find_capture_strings(&self, text: &str, group: usize) -> (r: Vec<String>)
        ensures
            r.deep_view() == captured_strings(self.src@, text@, group as int),
    {
        self.re
            .captures_iter(text)
            .filter_map(|c| c.get(group).map(|m| m.as_str().to_string()))
            .collect()
    }

    /// Relies on `regex::Regex::find_iter` and `regex::Match::start`/`end`:
    /// the match spans, converted from byte offsets to character offsets.
    /// Spans of matches lie within the haystack and are well-formed.
    #[verifier::external_body]
    pub fn find_char_spans(&self, text: &str) -> (r: Vec<(usize, usize)>)
        ensures
            r@ == match_char_spans(self.src@, text@),
            forall|i: int| 0 <= i < r@.len() ==> (#[trigger] r@[i]).0 <= r@[i].1 <= text@.len(),
    {
        self.re
            .find_iter(text)
            .map(|m| (text[..m.start()].chars().count(), text[..m.end()].chars().count()))
            .collect()
    }
}

/// The Unicode lowercase mapping of a character sequence, as `std` computes
/// it: a function of the characters alone.
pub uninterp spec fn lower_of(s: Seq<char>) -> Seq<char>;

/// Relies on `str::to_lowercase`: the result depends on the characters alone;
/// an empty string stays empty.
#[verifier::external_body]
pub fn lowercase(s: &str) -> (r: String)
    ensures
        r@ == lower_of(s@),
        s@.len() == 0 ==> r@.len() == 0,
{
    s.to_lowercase()
}

/// Relies on `uuid::Uuid::new_v4` and its string rendering for a
/// process-unique opaque identifier. Nothing is promised of the characters.
#[verifier::external_body]
pub fn fresh_id() -> String {
    uuid::Uuid::new_v4().to_string()
}

} // verus!
