use vstd::prelude::*;

verus! {

/// How an identifier occurrence touches its binding.
#[derive(Clone, Copy, Debug, PartialEq, Eq, Structural)]
pub enum EventKind {
    /// Ownership leaves the binding.
    Move,
    /// A shared reference to the binding is taken.
    BorrowShared,
    /// An exclusive reference to the binding is taken.
    BorrowExclusive,
    /// The binding is read without moving or borrowing it.
    Use,
}

/// One ownership event on a binding (an index into the binding table).
/// A borrow is live from `span` through `extent_end`; `holder` is the
/// reference binding that keeps it, if any.
#[derive(Clone, Copy, Debug, PartialEq, Eq, Structural)]
pub struct Event {
    pub kind: EventKind,
    pub binding: usize,
    pub span: u64,
    pub extent_end: u64,
    pub holder: Option<usize>,
}

/// A lexical scope: where it starts and ends, and the scope around it.
#[derive(Clone, Copy, Debug, PartialEq, Eq, Structural)]
pub struct Scope {
    pub start: u64,
    pub end: u64,
    pub parent: Option<usize>,
}

/// A binding: its interned name, where it is declared, the scope that owns it,
/// and whether its type is copyable.
#[derive(Clone, Copy, Debug, PartialEq, Eq, Structural)]
pub struct Binding {
    pub name: u64,
    pub span: u64,
    pub scope: usize,
    pub copy: bool,
}

pub open spec fn is_borrow(k: EventKind) -> bool {
    k == EventKind::BorrowShared || k == EventKind::BorrowExclusive
}

/// The fact table of one function body.
pub struct Facts {
    pub scopes: Vec<Scope>,
    pub bindings: Vec<Binding>,
    pub events: Vec<Event>,
    /// Positions of constructs that could not be classified.
    pub skipped: Vec<u64>,
}

/// Every index in the table points into it, and scopes form a tree whose
/// parents come before their children.
pub open spec fn facts_wf(scopes: Seq<Scope>, bindings: Seq<Binding>, events: Seq<Event>) -> bool {
    &&& forall|s: int| 0 <= s < scopes.len() ==> match #[trigger] scopes[s].parent {
        Some(p) => p < s,
        None => true,
    }
    &&& forall|b: int| 0 <= b < bindings.len() ==> #[trigger] bindings[b].scope < scopes.len()
    &&& forall|i: int| 0 <= i < events.len() ==> {
        &&& #[trigger] events[i].binding < bindings.len()
        &&& match events[i].holder {
            Some(h) => h < bindings.len(),
            None => true,
        }
    }
}

impl Facts {
    pub open spec fn wf(&self) -> bool {
        facts_wf(self.scopes@, self.bindings@, self.events@)
    }
}

} // verus!
