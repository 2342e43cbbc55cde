use vstd::prelude::*;

use crate::diagnostic::{diag, Category, Diagnostic};

verus! {

/// A match arm's pattern. A binding pattern is written as `Wildcard`.
#[derive(Clone, Copy, Debug, PartialEq, Eq, Structural)]
pub enum Pattern {
    Wildcard,
    /// An integer literal; `false` and `true` are 0 and 1.
    Literal(u64),
    /// An enum variant, by its index.
    Variant(u64),
}

/// The value space a match scrutinee ranges over.
#[derive(Clone, Copy, Debug, PartialEq, Eq, Structural)]
pub enum Space {
    /// Type not inferred: no verdict.
    Unknown,
    Bool,
    /// An integer type: too many values to list.
    Numeric,
    /// An enum with this many variants.
    Enum(u64),
}

/// A match expression: where it stands, what it matches on, and its arms.
pub struct MatchExpr {
    pub span: u64,
    pub space: Space,
    pub arms: Vec<Pattern>,
}

/// Whether the arms cover every value of the space. A catch-all arm covers
/// everything; an unknown space is given the benefit of the doubt.
pub open spec fn exhaustive(space: Space, arms: Seq<Pattern>) -> bool {
    arms.contains(Pattern::Wildcard) || match space {
        Space::Unknown => true,
        Space::Bool => arms.contains(Pattern::Literal(0)) && arms.contains(Pattern::Literal(1)),
        Space::Numeric => false,
        Space::Enum(n) => forall|k: u64| k < n ==> #[trigger] arms.contains(Pattern::Variant(k)),
    }
}

/// The non-exhaustive matches among the first `n`, in order.
pub open spec fn match_findings(ms: Seq<MatchExpr>, n: nat) -> Seq<Diagnostic>
    decreases n,
{
    if n == 0 {
        Seq::empty()
    } else {
        let prev = match_findings(ms, (n - 1) as nat);
        if exhaustive(ms[n - 1].space, ms[n - 1].arms@) {
            prev
        } else {
            prev.push(diag(Category::NonExhaustiveMatch, ms[n - 1].span))
        }
    }
}

fn has_pattern(arms: &Vec<Pattern>, p: Pattern) -> (r: bool)
    ensures
        r == arms@.contains(p),
{
    let mut i: usize = 0;
    while i < arms.len()
        invariant
            i <= arms.len(),
            forall|j: int| 0 <= j < i ==> arms@[j] != p,
        decreases arms.len() - i,
    {
        if arms[i] == p {
            assert(arms@[i as int] == p);
            return true;
        }
        i = i + 1;
    }
    false
}

/// Decides whether one match covers its value space.
pub fn is_exhaustive(space: Space, arms: &Vec<Pattern>) -> (r: bool)
    ensures
        r == exhaustive(space, arms@),
{
    if has_pattern(arms, Pattern::Wildcard) {
        return true;
    }
    match space {
        Space::Unknown => true,
        Space::Bool => has_pattern(arms, Pattern::Literal(0)) && has_pattern(arms, Pattern::Literal(1)),
        Space::Numeric => false,
        Space::Enum(n) => {
            let mut k: u64 = 0;
            while k < n
                invariant
                    k <= n,
                    space == Space::Enum(n),
                    !arms@.contains(Pattern::Wildcard),
                    forall|v: u64| v < k ==> #[trigger] arms@.contains(Pattern::Variant(v)),
                decreases n - k,
            {
                if !has_pattern(arms, Pattern::Variant(k)) {
                    assert(!arms@.contains(Pattern::Variant(k)));
                    return false;
                }
                k = k + 1;
            }
            true
        },
    }
}

/// Reports each match whose arms leave values of its space uncovered.
pub fn check_matches(ms: &Vec<MatchExpr>) -> (r: Vec<Diagnostic>)
    ensures
        r@ == match_findings(ms@, ms@.len()),
{
    let mut out: Vec<Diagnostic> = Vec::new();
    let mut i: usize = 0;
    while i < ms.len()
        invariant
            i <= ms.len(),
            out@ == match_findings(ms@, i as nat),
        decreases ms.len() - i,
    {
        if !is_exhaustive(ms[i].space, &ms[i].arms) {
            out.push(Diagnostic::new(Category::NonExhaustiveMatch, ms[i].span));
        }
        i = i + 1;
    }
    out
}

} // verus!
