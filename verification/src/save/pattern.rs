//! Regular expressions over the lines of a save.
use vstd::prelude::*;

use crate::map::strategic::region_pattern;
use crate::map::strategic::statetemplates::template_pattern;
use crate::save::countries::country_pattern;
use crate::save::cultures::culture_pattern;

verus! {

/// The patterns that this library compiles: the lines of a culture and of a country
/// of a save, of a state template and of a strategic region. Each is valid `regex`
/// syntax, far below its size limits.
pub open spec fn library_pattern(p: Seq<char>) -> bool {
    p == culture_pattern() || p == country_pattern() || p == template_pattern() || p
        == region_pattern()
}

/// What `regex::Regex::captures_iter` yields for the compiled `pattern` over `text`:
/// for each match in turn, the text of each group of the pattern where the group took
/// part in the match (group 0 being the whole match).
pub uninterp spec fn regex_captures(pattern: Seq<char>, text: Seq<char>) -> Seq<
    Seq<Option<Seq<char>>>,
>;

pub open spec fn captures_view(v: Seq<Vec<Option<String>>>) -> Seq<Seq<Option<Seq<char>>>> {
    v.map_values(
        |c: Vec<Option<String>>|
            c@.map_values(
                |g: Option<String>|
                    match g {
                        Some(s) => Some(s@),
                        None => None,
                    },
            ),
    )
}

/// Compiles `pattern`, one of the library's own, with `regex::Regex::new` (which
/// accepts each of them) and collects what `regex::Regex::captures_iter` yields over
/// `text`, each group as an owned string: what `regex_captures` names.
#[verifier::external_body]
pub(crate) fn captures(pattern: &str, text: &str) -> (r: Vec<Vec<Option<String>>>)
    requires
        library_pattern(pattern@),
    ensures
        captures_view(r@) == regex_captures(pattern@, text@),
{
    let re = regex::Regex::new(pattern).unwrap();
    re.captures_iter(text).map(
        |c| c.iter().map(|m| m.map(|m| m.as_str().to_string())).collect(),
    ).collect()
}

/// What `regex::Regex::captures` yields for the compiled `pattern` over `text`: the
/// first match, with the text of each group of the pattern where the group took part
/// (group 0 being the whole match), or nothing where the pattern does not match.
pub uninterp spec fn regex_first(pattern: Seq<char>, text: Seq<char>) -> Option<
    Seq<Option<Seq<char>>>,
>;

pub open spec fn groups_view(c: Seq<Option<String>>) -> Seq<Option<Seq<char>>> {
    c.map_values(
        |g: Option<String>|
            match g {
                Some(s) => Some(s@),
                None => None,
            },
    )
}

/// Compiles `pattern`, one of the library's own, with `regex::Regex::new` (which
/// accepts each of them) and collects what `regex::Regex::captures` yields over
/// `text`, each group as an owned string: what `regex_first` names.
#[verifier::external_body]
pub(crate) fn first_captures(pattern: &str, text: &str) -> (r: Option<Vec<Option<String>>>)
    requires
        library_pattern(pattern@),
    ensures
        match r {
            Some(v) => regex_first(pattern@, text@) == Some(groups_view(v@)),
            None => regex_first(pattern@, text@) is None,
        },
{
    let re = regex::Regex::new(pattern).unwrap();
    re.captures(text).map(|c| c.iter().map(|m| m.map(|m| m.as_str().to_string())).collect())
}

} // verus!

