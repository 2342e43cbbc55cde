use vstd::prelude::*;

use crate::diagnostic::{diag, Category, Diagnostic};
use crate::facts::{is_borrow, Event, EventKind};

verus! {

/// Event `j` moves the binding that event `i` touches.
pub open spec fn moves_same(ev: Seq<Event>, i: int, j: int) -> bool {
    ev[j].binding == ev[i].binding && ev[j].kind == EventKind::Move
}

/// Event `j` is a borrow of the binding that event `i` touches, still live at
/// event `i` (exclusive ones only, if asked).
pub open spec fn live_borrow(ev: Seq<Event>, i: int, j: int, exclusive_only: bool) -> bool {
    &&& ev[j].binding == ev[i].binding
    &&& is_borrow(ev[j].kind)
    &&& (!exclusive_only || ev[j].kind == EventKind::BorrowExclusive)
    &&& ev[i].span <= ev[j].extent_end
}

pub open spec fn moved_before(ev: Seq<Event>, i: int) -> bool {
    exists|j: int| 0 <= j < i && #[trigger] moves_same(ev, i, j)
}

pub open spec fn borrowed_at(ev: Seq<Event>, i: int, exclusive_only: bool) -> bool {
    exists|j: int| 0 <= j < i && #[trigger] live_borrow(ev, i, j, exclusive_only)
}

/// What the ownership state machine reports at event `i`: touching a moved
/// binding is a use after move; otherwise an exclusive borrow or a move while
/// any borrow is live, or a shared borrow while an exclusive one is live, is a
/// conflict. At most one finding per event: the first rule that applies.
pub open spec fn ownership_finding(ev: Seq<Event>, i: int) -> Option<Category> {
    if moved_before(ev, i) {
        Some(Category::UseAfterMove)
    } else {
        match ev[i].kind {
            EventKind::BorrowExclusive | EventKind::Move => if borrowed_at(ev, i, false) {
                Some(Category::BorrowConflict)
            } else {
                None
            },
            EventKind::BorrowShared => if borrowed_at(ev, i, true) {
                Some(Category::BorrowConflict)
            } else {
                None
            },
            EventKind::Use => None,
        }
    }
}

/// The findings of the first `n` events, in event order.
pub open spec fn ownership_findings(ev: Seq<Event>, n: nat) -> Seq<Diagnostic>
    decreases n,
{
    if n == 0 {
        Seq::empty()
    } else {
        let prev = ownership_findings(ev, (n - 1) as nat);
        match ownership_finding(ev, n - 1) {
            Some(c) => prev.push(diag(c, ev[n - 1].span)),
            None => prev,
        }
    }
}

fn finding_at(events: &Vec<Event>, i: usize) -> (r: Option<Category>)
    requires
        i < events.len(),
    ensures
        r == ownership_finding(events@, i as int),
{
    let ev = Ghost(events@);
    let cur = events[i];
    let mut moved = false;
    let mut any_live = false;
    let mut exclusive_live = false;
    let mut j: usize = 0;
    while j < i
        invariant
            i < events.len(),
            j <= i,
            cur == ev@[i as int],
            ev@ == events@,
            moved == exists|k: int| 0 <= k < j && #[trigger] moves_same(ev@, i as int, k),
            any_live == exists|k: int| 0 <= k < j && #[trigger] live_borrow(ev@, i as int, k, false),
            exclusive_live == exists|k: int| 0 <= k < j && #[trigger] live_borrow(ev@, i as int, k, true),
        decreases i - j,
    {
        let e = events[j];
        let same = e.binding == cur.binding;
        if same && e.kind == EventKind::Move {
            assert(moves_same(ev@, i as int, j as int));
            moved = true;
        }
        let borrow = e.kind == EventKind::BorrowShared || e.kind == EventKind::BorrowExclusive;
        if same && borrow && cur.span <= e.extent_end {
            assert(live_borrow(ev@, i as int, j as int, false));
            any_live = true;
            if e.kind == EventKind::BorrowExclusive {
                assert(live_borrow(ev@, i as int, j as int, true));
                exclusive_live = true;
            }
        }
        j = j + 1;
    }
    if moved {
        Some(Category::UseAfterMove)
    } else {
        match cur.kind {
            EventKind::BorrowExclusive | EventKind::Move => if any_live {
                Some(Category::BorrowConflict)
            } else {
                None
            },
            EventKind::BorrowShared => if exclusive_live {
                Some(Category::BorrowConflict)
            } else {
                None
            },
            EventKind::Use => None,
        }
    }
}

/// Runs the ownership state machine over the events of one body, in order.
pub fn check_ownership(events: &Vec<Event>) -> (r: Vec<Diagnostic>)
    ensures
        r@ == ownership_findings(events@, events@.len()),
{
    let mut out: Vec<Diagnostic> = Vec::new();
    let mut i: usize = 0;
    while i < events.len()
        invariant
            i <= events.len(),
            out@ == ownership_findings(events@, i as nat),
        decreases events.len() - i,
    {
        match finding_at(events, i) {
            Some(c) => out.push(Diagnostic::new(c, events[i].span)),
            None => {},
        }
        i = i + 1;
    }
    out
}

} // verus!
