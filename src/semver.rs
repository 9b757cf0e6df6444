//! Recognising SemVer version strings, through the `regex` crate.

use vstd::prelude::*;
use regex::bytes::Regex;
use vstd::string::StringSliceAdditionalSpecFns;

verus! {

#[verifier::external_type_specification]
#[verifier::external_body]
pub struct ExRegex(regex::bytes::Regex);

#[verifier::external_type_specification]
#[verifier::external_body]
pub struct ExRegexError(regex::Error);

/// The SemVer 2.0 grammar, unanchored: it finds versions inside a line.
pub const SEMVER_PATTERN: &'static str = r"(?P<major>0|[1-9]\d*)\.(?P<minor>0|[1-9]\d*)\.(?P<patch>0|[1-9]\d*)(?:-(?P<prerelease>(?:0|[1-9]\d*|\d*[a-zA-Z-][0-9a-zA-Z-]*)(?:\.(?:0|[1-9]\d*|\d*[a-zA-Z-][0-9a-zA-Z-]*))*))?(?:\+(?P<buildmetadata>[0-9a-zA-Z-]+(?:\.[0-9a-zA-Z-]+)*))?";

/// The same grammar, anchored at both ends: it accepts a whole version only.
pub const SEMVER_WHOLE_PATTERN: &'static str = r"^(?:(?:0|[1-9]\d*)\.(?:0|[1-9]\d*)\.(?:0|[1-9]\d*)(?:-(?:(?:0|[1-9]\d*|\d*[a-zA-Z-][0-9a-zA-Z-]*)(?:\.(?:0|[1-9]\d*|\d*[a-zA-Z-][0-9a-zA-Z-]*))*))?(?:\+(?:[0-9a-zA-Z-]+(?:\.[0-9a-zA-Z-]+)*))?)$";

/// Start and end byte offsets of the leftmost-first match of
/// `SEMVER_PATTERN` in a haystack, if there is one.
pub uninterp spec fn semver_first_match(hay: Seq<u8>) -> Option<(int, int)>;

/// Whether a byte string as a whole is a SemVer version
/// (`SEMVER_WHOLE_PATTERN` matches it).
pub uninterp spec fn semver_whole_match(s: Seq<u8>) -> bool;

/// Relies on regex::bytes::Regex::new: compiles a pattern, or reports why it
/// cannot be compiled.
#[verifier::external_body]
fn compile(pattern: &str) -> (r: Result<Regex, regex::Error>) {
    Regex::new(pattern)
}

/// A compiled SemVer matcher.
///
/// Its fields are private and only `SemverMatcher::new` fills them, from
/// `SEMVER_PATTERN` and `SEMVER_WHOLE_PATTERN`.
pub struct SemverMatcher {
    search: Regex,
    whole: Regex,
}

impl SemverMatcher {
    /// Compiles both patterns; `None` only if the regex engine refuses one.
    pub fn new() -> (r: Option<SemverMatcher>) {
        match compile(SEMVER_PATTERN) {
            Ok(search) => match compile(SEMVER_WHOLE_PATTERN) {
                Ok(whole) => Some(SemverMatcher { search, whole }),
                Err(_) => None,
            },
            Err(_) => None,
        }
    }

    /// Relies on regex::bytes::Regex::find with Match::start and Match::end:
    /// the leftmost-first match of the search pattern in `hay`, whose offsets
    /// satisfy start <= end <= hay.len().
    #[verifier::external_body]
    fn find_first(&self, hay: &[u8]) -> (r: Option<(usize, usize)>)
        ensures
            match r {
                Some((s, e)) => semver_first_match(hay@) == Some((s as int, e as int)) && s
                    <= e <= hay@.len(),
                None => semver_first_match(hay@) is None,
            },
    {
        self.search.find(hay).map(|m| (m.start(), m.end()))
    }

    /// Relies on regex::bytes::Regex::is_match: whether the anchored pattern
    /// matches `s`.
    #[verifier::external_body]
    fn matches_whole(&self, s: &[u8]) -> (r: bool)
        ensures
            r == semver_whole_match(s@),
    {
        self.whole.is_match(s)
    }

    /// Whether `s` as a whole is a SemVer version.
    pub fn is_version(&self, s: &str) -> (r: bool)
        ensures
            r == semver_whole_match(s.spec_bytes()),
    {
        self.matches_whole(s.as_bytes())
    }

    /// The first version in `line` at or after byte `cursor`, as start and
    /// end offsets in `line`.
    pub fn find_at(&self, line: &[u8], cursor: usize) -> (r: Option<(usize, usize)>)
        requires
            cursor <= line@.len(),
        ensures
            match r {
                Some((s, e)) => next_match(line@, cursor as int) == Some((s as int, e as int)),
                None => next_match(line@, cursor as int) is None,
            },
    {
        let rest = vstd::slice::slice_subrange(line, cursor, line.len());
        match self.find_first(rest) {
            Some((s, e)) => {
                if s < e {
                    Some((cursor + s, cursor + e))
                } else {
                    None
                }
            },
            None => None,
        }
    }
}

/// The first non-empty match in `line` at or after `cursor`, in offsets of
/// `line`. The pattern cannot match the empty string; an empty match would
/// count as none.
pub open spec fn next_match(line: Seq<u8>, cursor: int) -> Option<(int, int)> {
    match semver_first_match(line.subrange(cursor, line.len() as int)) {
        Some((s, e)) => if 0 <= s < e && e <= line.len() - cursor {
            Some((cursor + s, cursor + e))
        } else {
            None
        },
        None => None,
    }
}

} // verus!
