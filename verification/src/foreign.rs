//! The calls this library makes into `regex` and into parts of `std` that
//! Verus has no specification for. Each item here is believed, not proved:
//! its doc comment says what it claims of the function it calls.

use std::time::{Duration, SystemTime, SystemTimeError, UNIX_EPOCH};
use vstd::prelude::*;
use vstd::utf8::{decode_utf8, valid_utf8};

verus! {

/// `regex::Regex`, a compiled regular expression.
#[verifier::external_type_specification]
#[verifier::external_body]
pub struct ExRegex(regex::Regex);

/// `regex::Error`, why a pattern failed to compile.
#[verifier::external_type_specification]
#[verifier::external_body]
pub struct ExRegexError(regex::Error);

/// `std::time::SystemTime`, a reading of the wall clock.
#[verifier::external_type_specification]
#[verifier::external_body]
pub struct ExSystemTime(SystemTime);

/// `std::time::SystemTimeError`, a clock reading earlier than the one it
/// was compared with.
#[verifier::external_type_specification]
#[verifier::external_body]
pub struct ExSystemTimeError(SystemTimeError);

/// Whether `regex::Regex::new` accepts the pattern: it is valid syntax and
/// the compiled form stays under the crate's default size limit.
pub uninterp spec fn regex_compiles(pattern: Seq<char>) -> bool;

/// The groups of the leftmost-first match of `pattern` in `haystack`, as
/// `regex::Regex::captures` finds it: `None` when nothing matches, else
/// one entry per group (group 0 the whole match), each the matched text
/// or `None` when the group took no part in the match.
pub uninterp spec fn regex_captures(pattern: Seq<char>, haystack: Seq<char>) -> Option<
    Seq<Option<Seq<char>>>,
>;

/// The groups of each successive non-overlapping match of `pattern` in
/// `haystack`, as `regex::Regex::captures_iter` yields them.
pub uninterp spec fn regex_captures_all(pattern: Seq<char>, haystack: Seq<char>) -> Seq<
    Seq<Option<Seq<char>>>,
>;

/// What `String::from_utf8_lossy` makes of a byte string.
pub uninterp spec fn utf8_lossy(bytes: Seq<u8>) -> Seq<char>;

/// A compiled regular expression together with the pattern it was
/// compiled from.
pub struct Pattern {
    re: regex::Regex,
    source: Ghost<Seq<char>>,
}

impl View for Pattern {
    type V = Seq<char>;

    closed spec fn view(&self) -> Seq<char> {
        self.source@
    }
}

/// The texts of the groups of a match.
pub open spec fn groups_view(g: Seq<Option<String>>) -> Seq<Option<Seq<char>>> {
    g.map_values(
        |o: Option<String>|
            match o {
                Some(t) => Some(t@),
                None => None,
            },
    )
}

/// The texts of the groups of a match, when there is one.
pub open spec fn opt_groups_view(r: Option<Vec<Option<String>>>) -> Option<Seq<Option<Seq<char>>>> {
    match r {
        Some(g) => Some(groups_view(g@)),
        None => None,
    }
}

/// The texts of the groups of each of a list of matches.
pub open spec fn all_groups_view(s: Seq<Vec<Option<String>>>) -> Seq<Seq<Option<Seq<char>>>> {
    s.map_values(|g: Vec<Option<String>>| groups_view(g@))
}

/// Calls `regex::Regex::new`. Claimed: it succeeds exactly when the
/// pattern compiles, and the result stands for that pattern.
#[verifier::external_body]
pub(crate) fn compile_pattern(pattern: &str) -> (r: Result<Pattern, regex::Error>)
    ensures
        r is Ok <==> regex_compiles(pattern@),
        r matches Ok(p) ==> p@ == pattern@,
{
    match regex::Regex::new(pattern) {
        Ok(re) => Ok(Pattern { re, source: Ghost(pattern@) }),
        Err(e) => Err(e),
    }
}

/// Calls `regex::Regex::captures` and hands out the text of each group.
/// Claimed: the result is `regex_captures` of the pattern and haystack.
#[verifier::external_body]
pub(crate) fn pattern_captures(p: &Pattern, haystack: &str) -> (r: Option<Vec<Option<String>>>)
    ensures
        opt_groups_view(r) == regex_captures(p@, haystack@),
{
    p.re.captures(haystack).map(|c| c.iter().map(|m| m.map(|m| m.as_str().to_string())).collect())
}

/// Calls `regex::Regex::captures_iter` and hands out the text of each group
/// of each match. Claimed: the result is `regex_captures_all` of the
/// pattern and haystack.
#[verifier::external_body]
pub(crate) fn pattern_captures_all(p: &Pattern, haystack: &str) -> (r: Vec<Vec<Option<String>>>)
    ensures
        all_groups_view(r@) == regex_captures_all(p@, haystack@),
{
    p.re.captures_iter(haystack).map(
        |c| c.iter().map(|m| m.map(|m| m.as_str().to_string())).collect(),
    ).collect()
}

/// Calls `String::push`. Claimed: the character is appended.
#[verifier::external_body]
pub(crate) fn string_push(s: &mut String, c: char)
    ensures
        final(s)@ == old(s)@.push(c),
{
    s.push(c)
}

/// Calls `String::from_utf8_lossy`. Claimed: the result is `utf8_lossy`
/// of the bytes, and for valid UTF-8 it is the text the bytes encode (what
/// the function's documentation promises). How invalid sequences turn into
/// U+FFFD is left to the name.
#[verifier::external_body]
pub(crate) fn decode_lossy(bytes: &[u8]) -> (s: String)
    ensures
        s@ == utf8_lossy(bytes@),
        valid_utf8(bytes@) ==> s@ == decode_utf8(bytes@),
{
    String::from_utf8_lossy(bytes).into_owned()
}

/// Calls `SystemTime::now`. Nothing is claimed of the reading.
#[verifier::external_body]
pub(crate) fn system_time_now() -> SystemTime {
    SystemTime::now()
}

/// Calls `SystemTime::duration_since` with `UNIX_EPOCH`. Nothing is
/// claimed of the result: it depends on the clock reading.
#[verifier::external_body]
pub(crate) fn duration_since_epoch(t: &SystemTime) -> Result<Duration, SystemTimeError> {
    t.duration_since(UNIX_EPOCH)
}

/// Calls `Duration::as_secs`. Nothing is claimed of the number: the
/// duration is opaque here.
#[verifier::external_body]
pub(crate) fn duration_secs(d: &Duration) -> u64 {
    d.as_secs()
}

} // verus!
