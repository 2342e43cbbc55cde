use vstd::prelude::*;

use crate::types::Ty;

verus! {

/// The taxonomy of findings, in its canonical order.
#[derive(Clone, Copy, Debug, PartialEq, Eq, Structural, Hash)]
pub enum Category {
    ParseUnsupported,
    UseAfterMove,
    BorrowConflict,
    DanglingReference,
    TypeMismatch,
    NonExhaustiveMatch,
    UnresolvedImport,
    UnresolvedSymbol,
    ConfigurationInvalid,
}

/// Number of categories in the taxonomy.
pub const CATEGORY_COUNT: u8 = 9;

/// Position of a category in the canonical order.
pub open spec fn rank_of(c: Category) -> nat {
    match c {
        Category::ParseUnsupported => 0,
        Category::UseAfterMove => 1,
        Category::BorrowConflict => 2,
        Category::DanglingReference => 3,
        Category::TypeMismatch => 4,
        Category::NonExhaustiveMatch => 5,
        Category::UnresolvedImport => 6,
        Category::UnresolvedSymbol => 7,
        Category::ConfigurationInvalid => 8,
    }
}

/// The category at a position of the canonical order.
pub open spec fn category_at(k: nat) -> Category {
    if k == 0 {
        Category::ParseUnsupported
    } else if k == 1 {
        Category::UseAfterMove
    } else if k == 2 {
        Category::BorrowConflict
    } else if k == 3 {
        Category::DanglingReference
    } else if k == 4 {
        Category::TypeMismatch
    } else if k == 5 {
        Category::NonExhaustiveMatch
    } else if k == 6 {
        Category::UnresolvedImport
    } else if k == 7 {
        Category::UnresolvedSymbol
    } else {
        Category::ConfigurationInvalid
    }
}

pub proof fn lemma_rank_round_trip(c: Category)
    ensures
        rank_of(c) < CATEGORY_COUNT,
        category_at(rank_of(c)) == c,
{
}

/// Confidence, in percent, that a finding of this category is genuine:
/// structural findings are certain, those that rest on partial inference are not.
pub open spec fn confidence_of(c: Category) -> u8 {
    match c {
        Category::TypeMismatch | Category::NonExhaustiveMatch | Category::UnresolvedImport
        | Category::UnresolvedSymbol => 70,
        _ => 100,
    }
}

/// A short human-readable description of each category.
pub open spec fn message_of(c: Category) -> Seq<char> {
    match c {
        Category::ParseUnsupported => "construct not supported; span skipped"@,
        Category::UseAfterMove => "use of a value after it was moved"@,
        Category::BorrowConflict => "conflicting borrow of a value that is already borrowed"@,
        Category::DanglingReference => "reference used after its referent went out of scope"@,
        Category::TypeMismatch => "argument type does not match the parameter type"@,
        Category::NonExhaustiveMatch => "match does not cover every possible value"@,
        Category::UnresolvedImport => "import path cannot be resolved"@,
        Category::UnresolvedSymbol => "symbol is neither imported nor declared"@,
        Category::ConfigurationInvalid => "analysis configuration is malformed"@,
    }
}

impl Category {
    pub fn rank(&self) -> (r: u8)
        ensures
            r as nat == rank_of(*self),
    {
        match self {
            Category::ParseUnsupported => 0,
            Category::UseAfterMove => 1,
            Category::BorrowConflict => 2,
            Category::DanglingReference => 3,
            Category::TypeMismatch => 4,
            Category::NonExhaustiveMatch => 5,
            Category::UnresolvedImport => 6,
            Category::UnresolvedSymbol => 7,
            Category::ConfigurationInvalid => 8,
        }
    }

    pub fn from_rank(k: u8) -> (r: Category)
        requires
            k < CATEGORY_COUNT,
        ensures
            r == category_at(k as nat),
            rank_of(r) == k,
    {
        if k == 0 {
            Category::ParseUnsupported
        } else if k == 1 {
            Category::UseAfterMove
        } else if k == 2 {
            Category::BorrowConflict
        } else if k == 3 {
            Category::DanglingReference
        } else if k == 4 {
            Category::TypeMismatch
        } else if k == 5 {
            Category::NonExhaustiveMatch
        } else if k == 6 {
            Category::UnresolvedImport
        } else if k == 7 {
            Category::UnresolvedSymbol
        } else {
            Category::ConfigurationInvalid
        }
    }

    pub fn confidence(&self) -> (r: u8)
        ensures
            r == confidence_of(*self),
    {
        match self {
            Category::TypeMismatch | Category::NonExhaustiveMatch | Category::UnresolvedImport
            | Category::UnresolvedSymbol => 70,
            _ => 100,
        }
    }

    /// A short human-readable description of the category.
    pub fn message(&self) -> (r: &'static str)
        ensures
            r@ == message_of(*self),
    {
        match self {
            Category::ParseUnsupported => "construct not supported; span skipped",
            Category::UseAfterMove => "use of a value after it was moved",
            Category::BorrowConflict => "conflicting borrow of a value that is already borrowed",
            Category::DanglingReference => "reference used after its referent went out of scope",
            Category::TypeMismatch => "argument type does not match the parameter type",
            Category::NonExhaustiveMatch => "match does not cover every possible value",
            Category::UnresolvedImport => "import path cannot be resolved",
            Category::UnresolvedSymbol => "symbol is neither imported nor declared",
            Category::ConfigurationInvalid => "analysis configuration is malformed",
        }
    }
}

/// One finding: its category, the source position it refers to, the
/// confidence (in percent) that goes with its category, and, for a type
/// mismatch, the type expected and the type found (`Unknown` otherwise).
#[derive(Clone, Copy, Debug, PartialEq, Eq, Structural)]
pub struct Diagnostic {
    pub category: Category,
    pub span: u64,
    pub confidence: u8,
    pub expected: Ty,
    pub found: Ty,
}

pub open spec fn diag(c: Category, span: u64) -> Diagnostic {
    Diagnostic { category: c, span, confidence: confidence_of(c), expected: Ty::Unknown, found: Ty::Unknown }
}

pub open spec fn mismatch_diag_at(span: u64, expected: Ty, found: Ty) -> Diagnostic {
    Diagnostic {
        category: Category::TypeMismatch,
        span,
        confidence: confidence_of(Category::TypeMismatch),
        expected,
        found,
    }
}

impl Diagnostic {
    pub fn new(category: Category, span: u64) -> (r: Diagnostic)
        ensures
            r == diag(category, span),
    {
        Diagnostic { category, span, confidence: category.confidence(), expected: Ty::Unknown, found: Ty::Unknown }
    }

    /// A type mismatch at `span`, naming the two types.
    pub fn mismatch(span: u64, expected: Ty, found: Ty) -> (r: Diagnostic)
        ensures
            r == mismatch_diag_at(span, expected, found),
    {
        Diagnostic {
            category: Category::TypeMismatch,
            span,
            confidence: Category::TypeMismatch.confidence(),
            expected,
            found,
        }
    }
}

} // verus!
