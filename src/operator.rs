//! What the operator types: the new version and the answer to each prompt.

use vstd::prelude::*;
use vstd::string::StringSliceAdditionalSpecFns;
use crate::semver::{SemverMatcher, semver_whole_match};

verus! {

broadcast use vstd::string::is_ascii_spec_bytes;

/// What to do with one match.
#[derive(Clone, Copy, Debug, PartialEq, Eq, Structural)]
pub enum Action {
    Replace,
    Ignore,
    Quit,
    ReplaceAllInFile,
    IgnoreAllInFile,
}

/// One recognised answer to a confirmation prompt.
#[derive(Clone, Copy, Debug, PartialEq, Eq, Structural)]
pub enum UserConfirmationResponse {
    Replace,
    Ignore,
    Quit,
    ReplaceAllInFile,
    IgnoreAllInFile,
    Help,
}

/// A text without its leading and trailing whitespace.
pub uninterp spec fn trim_of(s: Seq<char>) -> Seq<char>;

/// Relies on str::trim: the text without leading and trailing whitespace.
#[verifier::external_body]
fn trim(s: &str) -> (r: &str)
    ensures
        r@ == trim_of(s@),
{
    s.trim()
}

/// The answer that one character stands for, in either case.
pub open spec fn response_of_char(c: char) -> Option<UserConfirmationResponse> {
    if c == 'y' || c == 'Y' {
        Some(UserConfirmationResponse::Replace)
    } else if c == 'n' || c == 'N' {
        Some(UserConfirmationResponse::Ignore)
    } else if c == 'q' || c == 'Q' {
        Some(UserConfirmationResponse::Quit)
    } else if c == 'a' || c == 'A' {
        Some(UserConfirmationResponse::ReplaceAllInFile)
    } else if c == 'd' || c == 'D' {
        Some(UserConfirmationResponse::IgnoreAllInFile)
    } else if c == '?' {
        Some(UserConfirmationResponse::Help)
    } else {
        None
    }
}

/// The answer that a trimmed input stands for: a single recognised character.
pub open spec fn response_of(s: Seq<char>) -> Option<UserConfirmationResponse> {
    if s.len() == 1 {
        response_of_char(s[0])
    } else {
        None
    }
}

/// Reads an answer from one line of operator input. Surrounding whitespace
/// and letter case do not matter; anything else than the six tokens is
/// refused, and the caller asks again.
pub fn read_user_confirmation(input: &str) -> (r: Result<UserConfirmationResponse, ()>)
    ensures
        match r {
            Ok(x) => response_of(trim_of(input@)) == Some(x),
            Err(_) => response_of(trim_of(input@)) is None,
        },
{
    parse_confirmation(trim(input))
}

/// The answer that an already trimmed input stands for: one of the six
/// tokens, in either case.
pub fn parse_confirmation(t: &str) -> (r: Result<UserConfirmationResponse, ()>)
    ensures
        match r {
            Ok(x) => response_of(t@) == Some(x),
            Err(_) => response_of(t@) is None,
        },
{
    if !t.is_ascii() {
        assert(t@.len() != 1 || !('\0' <= t@[0] <= '\u{7f}'));
        return Err(());
    }
    if t.len() != 1 {
        return Err(());
    }
    let b = t.as_bytes()[0];
    assert(b == t@[0] as u8);
    if b == 121 || b == 89 {
        Ok(UserConfirmationResponse::Replace)
    } else if b == 110 || b == 78 {
        Ok(UserConfirmationResponse::Ignore)
    } else if b == 113 || b == 81 {
        Ok(UserConfirmationResponse::Quit)
    } else if b == 97 || b == 65 {
        Ok(UserConfirmationResponse::ReplaceAllInFile)
    } else if b == 100 || b == 68 {
        Ok(UserConfirmationResponse::IgnoreAllInFile)
    } else if b == 63 {
        Ok(UserConfirmationResponse::Help)
    } else {
        Err(())
    }
}

/// The action an answer settles, or `None` for a request for help, after
/// which the same match is asked about again.
pub fn confirmation_action(r: UserConfirmationResponse) -> (a: Option<Action>)
    ensures
        a == action_of(r),
{
    match r {
        UserConfirmationResponse::Replace => Some(Action::Replace),
        UserConfirmationResponse::Ignore => Some(Action::Ignore),
        UserConfirmationResponse::Quit => Some(Action::Quit),
        UserConfirmationResponse::ReplaceAllInFile => Some(Action::ReplaceAllInFile),
        UserConfirmationResponse::IgnoreAllInFile => Some(Action::IgnoreAllInFile),
        UserConfirmationResponse::Help => None,
    }
}

/// The action of each answer; help settles none.
pub open spec fn action_of(r: UserConfirmationResponse) -> Option<Action> {
    match r {
        UserConfirmationResponse::Replace => Some(Action::Replace),
        UserConfirmationResponse::Ignore => Some(Action::Ignore),
        UserConfirmationResponse::Quit => Some(Action::Quit),
        UserConfirmationResponse::ReplaceAllInFile => Some(Action::ReplaceAllInFile),
        UserConfirmationResponse::IgnoreAllInFile => Some(Action::IgnoreAllInFile),
        UserConfirmationResponse::Help => None,
    }
}

/// The help legend: one line for each of the six tokens.
pub fn print_user_confirmation_input_help() -> (r: Vec<&'static str>)
    ensures
        r@ == seq![
            "y - replace",
            "n - skip",
            "q - quit",
            "a - replace remaining in file",
            "d - skip remaining in file",
            "? - print help",
        ],
{
    let r = vec![
        "y - replace",
        "n - skip",
        "q - quit",
        "a - replace remaining in file",
        "d - skip remaining in file",
        "? - print help",
    ];
    assert(r@ =~= seq![
        "y - replace",
        "n - skip",
        "q - quit",
        "a - replace remaining in file",
        "d - skip remaining in file",
        "? - print help",
    ]);
    r
}

/// Reads the new version from one line of operator input: the input without
/// surrounding whitespace if that is a whole SemVer version, else `None`,
/// and the caller asks again.
pub fn get_user_version(matcher: &SemverMatcher, input: &str) -> (r: Option<String>)
    ensures
        r is Some <==> semver_whole_match(encode_trimmed(input@)),
        r matches Some(v) ==> v@ == trim_of(input@),
{
    let t = trim(input);
    if matcher.is_version(t) {
        Some(t.to_owned())
    } else {
        None
    }
}

/// The UTF-8 bytes of an input without its surrounding whitespace.
pub open spec fn encode_trimmed(s: Seq<char>) -> Seq<u8> {
    vstd::utf8::encode_utf8(trim_of(s))
}

} // verus!
