//! Command-line settings of the derivation extension: how derived payloads are
//! validated.
use vstd::prelude::*;
use crate::text::same_text;

verus! {

/// Name for the lowercase form of a text as `str::to_lowercase` computes it
/// (Unicode lowercase mapping, the same on every machine).
pub uninterp spec fn spec_to_lowercase(s: Seq<char>) -> Seq<char>;

/// A character below 128.
pub open spec fn is_ascii_text(s: Seq<char>) -> bool {
    forall|k: int| 0 <= k < s.len() ==> (#[trigger] s[k] as int) < 128
}

/// The lowercase form of an ASCII character: `A`..`Z` become `a`..`z`.
pub open spec fn ascii_lower(c: char) -> char {
    if 'A' <= c <= 'Z' {
        (c as int + 32) as char
    } else {
        c
    }
}

/// The uppercase form of an ASCII character: `a`..`z` become `A`..`Z`.
pub open spec fn ascii_upper(c: char) -> char {
    if 'a' <= c <= 'z' {
        (c as int - 32) as char
    } else {
        c
    }
}

/// A text with its ASCII letters lowercased.
pub open spec fn ascii_lowered(s: Seq<char>) -> Seq<char> {
    Seq::new(s.len(), |k: int| ascii_lower(s[k]))
}

/// A text with its ASCII letters uppercased.
pub open spec fn ascii_uppered(s: Seq<char>) -> Seq<char> {
    Seq::new(s.len(), |k: int| ascii_upper(s[k]))
}

/// Lowercase form of a text.
///
/// Trusted: calls `str::to_lowercase`. The contract claims that the result is the
/// named lowercase form of the input and, for a text of ASCII characters, that it
/// maps `A`..`Z` to `a`..`z` and keeps every other character, as the Unicode
/// lowercase mapping that the documentation names does.
#[verifier::external_body]
fn to_lowercase(s: &str) -> (r: String)
    ensures
        r@ == spec_to_lowercase(s@),
        is_ascii_text(s@) ==> r@ == ascii_lowered(s@),
{
    s.to_lowercase()
}

/// How derived payload attributes are validated.
#[derive(Debug, Clone, Copy, PartialEq, Eq, Structural)]
pub enum ValidationMode {
    /// Against the blocks of a trusted L2 node.
    Trusted,
    /// By handing them to an L2 engine API.
    EngineApi,
}

/// The mode that a lowercased text names.
pub open spec fn mode_named(lowered: Seq<char>) -> Option<ValidationMode> {
    if lowered == "trusted"@ {
        Some(ValidationMode::Trusted)
    } else if lowered == "engine-api"@ {
        Some(ValidationMode::EngineApi)
    } else {
        None
    }
}

/// `Invalid validation mode: <text>`.
pub open spec fn invalid_mode_message(given: Seq<char>) -> Seq<char> {
    "Invalid validation mode: "@ + given
}

impl ValidationMode {
    /// The mode that `lowered`, the lowercase form of `given`, names; the error
    /// quotes `given`.
    pub fn from_lowercased(lowered: &str, given: &str) -> (r: Result<ValidationMode, String>)
        ensures
            match mode_named(lowered@) {
                Some(m) => r == Ok::<ValidationMode, String>(m),
                None => r matches Err(e) && e@ == invalid_mode_message(given@),
            },
    {
        if same_text(lowered, "trusted") {
            Ok(ValidationMode::Trusted)
        } else if same_text(lowered, "engine-api") {
            Ok(ValidationMode::EngineApi)
        } else {
            let mut e = String::from_str("Invalid validation mode: ");
            e.append(given);
            Err(e)
        }
    }

    /// Reads a mode, whatever the case of its letters: `trusted` or `engine-api`.
    pub fn parse(s: &str) -> (r: Result<ValidationMode, String>)
        ensures
            match mode_named(spec_to_lowercase(s@)) {
                Some(m) => r == Ok::<ValidationMode, String>(m),
                None => r matches Err(e) && e@ == invalid_mode_message(s@),
            },
            is_ascii_text(s@) ==> match mode_named(ascii_lowered(s@)) {
                Some(m) => r == Ok::<ValidationMode, String>(m),
                None => r matches Err(e) && e@ == invalid_mode_message(s@),
            },
    {
        let lowered = to_lowercase(s);
        ValidationMode::from_lowercased(lowered.as_str(), s)
    }
}

impl std::str::FromStr for ValidationMode {
    type Err = String;

    fn from_str(s: &str) -> (r: Result<Self, Self::Err>)
        ensures
            match mode_named(spec_to_lowercase(s@)) {
                Some(m) => r == Ok::<ValidationMode, String>(m),
                None => r matches Err(e) && e@ == invalid_mode_message(s@),
            },
            is_ascii_text(s@) ==> match mode_named(ascii_lowered(s@)) {
                Some(m) => r == Ok::<ValidationMode, String>(m),
                None => r matches Err(e) && e@ == invalid_mode_message(s@),
            },
    {
        ValidationMode::parse(s)
    }
}

/// Reading a mode ignores the case of ASCII letters: an ASCII text, its
/// uppercase form and its lowercase form all name the same mode, or none.
pub proof fn lemma_mode_ignores_case(s: Seq<char>)
    requires
        is_ascii_text(s),
    ensures
        is_ascii_text(ascii_uppered(s)),
        is_ascii_text(ascii_lowered(s)),
        mode_named(ascii_lowered(ascii_uppered(s))) == mode_named(ascii_lowered(s)),
        mode_named(ascii_lowered(ascii_lowered(s))) == mode_named(ascii_lowered(s)),
{
    assert forall|k: int| 0 <= k < s.len() implies (#[trigger] ascii_uppered(s)[k] as int) < 128
        && (ascii_lowered(s)[k] as int) < 128 && ascii_lower(ascii_upper(s[k])) == ascii_lower(s[k])
        && ascii_lower(ascii_lower(s[k])) == ascii_lower(s[k]) by {
        assert((s[k] as int) < 128);
    }
    assert(ascii_lowered(ascii_uppered(s)) =~= ascii_lowered(s));
    assert(ascii_lowered(ascii_lowered(s)) =~= ascii_lowered(s));
}

} // verus!
