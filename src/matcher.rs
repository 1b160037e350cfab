use vstd::prelude::*;
use crate::table::Rule;

verus! {

/// The error of regex::bytes::Regex::new, carried through unopened.
#[verifier::external_type_specification]
#[verifier::external_body]
pub struct ExRegexError(regex::Error);

// Patterns are written in the syntax of the `regex` crate and run on bytes,
// so that offsets are byte offsets into the source; a rule that should match
// only at the cursor starts with `^`, and a match found further on counts as
// none.

/// Whether `regex::bytes::Regex::new` accepts a pattern.
pub uninterp spec fn regex_compiles(pattern: Seq<char>) -> bool;

/// The leftmost-first match of a pattern in a haystack, as start and end
/// offsets, as `regex::bytes::Regex::find` reports it.
pub uninterp spec fn regex_find(pattern: Seq<char>, haystack: Seq<u8>) -> Option<(usize, usize)>;

/// Relies on regex::bytes::Regex::new, which fails exactly on the patterns
/// that do not compile, and on regex::bytes::Regex::find, which returns the
/// leftmost-first match with `start <= end <= haystack.len()`. The pattern is
/// compiled afresh at each call.
#[verifier::external_body]
fn regex_search(pattern: &str, haystack: &[u8]) -> (r: Result<Option<(usize, usize)>, regex::Error>)
    ensures
        r is Ok <==> regex_compiles(pattern@),
        r matches Ok(found) ==> found == regex_find(pattern@, haystack@),
        r matches Ok(Some(m)) ==> m.0 <= m.1 <= haystack@.len(),
{
    let re = regex::bytes::Regex::new(pattern)?;
    Ok(re.find(haystack).map(|m| (m.start(), m.end())))
}

/// The length of a match of `pattern` that begins at the start of `input`.
pub open spec fn match_at_start(pattern: Seq<char>, input: Seq<u8>) -> Option<nat> {
    match regex_find(pattern, input) {
        Some(m) => if m.0 == 0 && m.1 <= input.len() {
            Some(m.1 as nat)
        } else {
            None
        },
        None => None,
    }
}

/// The outcome of trying a list of rules at one position.
pub enum Selection {
    /// No listed rule matches at the start of the input.
    NoMatch,
    /// The first listed rule that matches, and the length of its match.
    Matched { rule: nat, len: nat },
    /// A listed rule, tried before any match, whose pattern does not compile.
    BadPattern { rule: nat },
}

/// Tries the rules `order[from..]` in turn on `input`: the first whose pattern
/// matches at the start of `input` wins, whatever the length of later matches.
pub open spec fn select_rule(rules: Seq<Rule>, order: Seq<usize>, input: Seq<u8>, from: int) -> Selection
    decreases order.len() - from,
{
    if from < 0 || from >= order.len() {
        Selection::NoMatch
    } else {
        let i = order[from] as int;
        let p = rules[i].pattern@;
        if !regex_compiles(p) {
            Selection::BadPattern { rule: i as nat }
        } else {
            match match_at_start(p, input) {
                Some(n) => Selection::Matched { rule: i as nat, len: n },
                None => select_rule(rules, order, input, from + 1),
            }
        }
    }
}

/// Tries `pattern` at the start of `input`: `Ok(Some(n))` for a match of
/// length `n`, `Ok(None)` for none, `Err(())` when the pattern does not compile.
pub fn match_prefix(pattern: &String, input: &[u8]) -> (r: Result<Option<usize>, ()>)
    ensures
        r is Ok <==> regex_compiles(pattern@),
        r matches Ok(found) ==> (match found {
            Some(n) => match_at_start(pattern@, input@) == Some(n as nat) && n <= input@.len(),
            None => match_at_start(pattern@, input@) is None,
        }),
{
    match regex_search(pattern.as_str(), input) {
        Err(_) => Err(()),
        Ok(None) => Ok(None),
        Ok(Some(m)) => if m.0 == 0 {
            Ok(Some(m.1))
        } else {
            Ok(None)
        },
    }
}

/// Tries the rules listed in `order` on `input`, in order, and returns the
/// outcome that [`select_rule`] describes.
pub fn first_matching_rule(rules: &Vec<Rule>, order: &Vec<usize>, input: &[u8]) -> (r: Result<
    Option<(usize, usize)>,
    usize,
>)
    requires
        forall|k: int| 0 <= k < order@.len() ==> #[trigger] order@[k] < rules@.len(),
    ensures
        match select_rule(rules@, order@, input@, 0) {
            Selection::NoMatch => r == Ok::<Option<(usize, usize)>, usize>(None),
            Selection::Matched { rule, len } => r matches Ok(Some(m)) && m.0 == rule && m.1
                == len,
            Selection::BadPattern { rule } => r matches Err(i) && i == rule,
        },
        r matches Ok(Some(m)) ==> m.0 < rules@.len() && m.1 <= input@.len(),
{
    let mut k: usize = 0;
    while k < order.len()
        invariant
            k <= order@.len(),
            forall|j: int| 0 <= j < order@.len() ==> #[trigger] order@[j] < rules@.len(),
            select_rule(rules@, order@, input@, 0) == select_rule(rules@, order@, input@, k as int),
        decreases order@.len() - k,
    {
        let i = order[k];
        match match_prefix(&rules[i].pattern, input) {
            Err(_) => {
                return Err(i);
            },
            Ok(Some(n)) => {
                return Ok(Some((i, n)));
            },
            Ok(None) => {},
        }
        k = k + 1;
    }
    Ok(None)
}

} // verus!
