//! The parsed form of a pattern: character classes and matcher nodes.

use vstd::prelude::*;

verus! {

/// An error reported while compiling a pattern.
#[derive(Debug, Clone, Copy, PartialEq, Eq, Structural)]
pub enum Error {
    /// The pattern ended in the middle of an escape, a bracket class, or
    /// similar construct that needed at least one more character.
    EOF,
    /// A `\`-escape named an alphanumeric class that the engine does not know.
    UnknownCharacterType(char),
    /// A `(` had no matching `)`.
    UnterminatedGroup,
}

/// A predicate over a single input character.
#[derive(Debug)]
pub enum SingleCharacterMatcher {
    /// Matches exactly this character.
    Literal(char),
    /// Matches any character.
    Any,
    /// Matches an ASCII digit.
    Digit,
    /// Matches an ASCII letter, an ASCII digit, or `_`.
    Alphanumeric,
    /// Matches when any of the inner classes matches.
    Group(Vec<SingleCharacterMatcher>),
    /// Matches when none of the inner classes matches.
    NegativeGroup(Vec<SingleCharacterMatcher>),
}

/// A node of the parsed pattern tree.
#[derive(Debug)]
pub enum Matcher {
    /// A quantifier wrapping one inner matcher: `+` is `min = Some(1)`,
    /// `?` is `max = Some(1)`, `*` leaves both open.
    Repeat { matcher: Box<Matcher>, min: Option<usize>, max: Option<usize> },
    /// A capturing group; the children may contain `Alternative` separators.
    CaptureGroup(Vec<Matcher>),
    /// Consume one character accepted by the class.
    SingleCharacter(SingleCharacterMatcher),
    /// Consume the characters captured earlier by the group with this
    /// (one-based) index.
    Backreference(usize),
    /// Succeeds only at input position 0.
    StartOfString,
    /// Succeeds only when no input remains.
    EndOfString,
    /// An alternation separator, meaningful only inside a capture group.
    Alternative,
}

/// Holds of a matcher that the engine can evaluate directly: an
/// `Alternative` separator may stand only as a direct child of a capture
/// group, never where a value is evaluated.
pub open spec fn evaluable(m: Matcher) -> bool
    decreases m,
{
    match m {
        Matcher::Repeat { matcher, min, max } => !(*matcher is Alternative) && evaluable(*matcher),
        Matcher::CaptureGroup(inner) => group_wf(inner@),
        Matcher::Alternative => false,
        _ => true,
    }
}

/// Holds of the children of a capture group (or of the top-level sequence):
/// every child is either an alternation separator or evaluable.
pub open spec fn group_wf(ms: Seq<Matcher>) -> bool
    decreases ms,
{
    forall|k: int| 0 <= k < ms.len() ==> ms[k] is Alternative || evaluable(#[trigger] ms[k])
}

} // verus!
