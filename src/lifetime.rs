use vstd::prelude::*;

use crate::diagnostic::{diag, Category, Diagnostic};
use crate::facts::{facts_wf, is_borrow, Binding, Event, EventKind, Scope};

verus! {

/// Where the scope that owns the binding touched by event `i` ends.
pub open spec fn referent_end(scopes: Seq<Scope>, bindings: Seq<Binding>, ev: Seq<Event>, i: int) -> u64 {
    scopes[bindings[ev[i].binding as int].scope as int].end
}

/// Event `j` touches reference `h` after position `end`.
pub open spec fn touches_after(ev: Seq<Event>, h: usize, end: u64, j: int) -> bool {
    ev[j].binding == h && ev[j].span > end
}

/// Event `i` creates a reference that is used after its referent's scope exited.
pub open spec fn dangles(scopes: Seq<Scope>, bindings: Seq<Binding>, ev: Seq<Event>, i: int) -> bool {
    &&& is_borrow(ev[i].kind)
    &&& match ev[i].holder {
        Some(h) => exists|j: int|
            0 <= j < ev.len() && #[trigger] touches_after(ev, h, referent_end(scopes, bindings, ev, i), j),
        None => false,
    }
}

/// The dangling references among the first `n` events, reported at the borrow.
pub open spec fn lifetime_findings(scopes: Seq<Scope>, bindings: Seq<Binding>, ev: Seq<Event>, n: nat) -> Seq<Diagnostic>
    decreases n,
{
    if n == 0 {
        Seq::empty()
    } else {
        let prev = lifetime_findings(scopes, bindings, ev, (n - 1) as nat);
        if dangles(scopes, bindings, ev, n - 1) {
            prev.push(diag(Category::DanglingReference, ev[n - 1].span))
        } else {
            prev
        }
    }
}

fn used_after(events: &Vec<Event>, h: usize, end: u64) -> (r: bool)
    ensures
        r == exists|j: int| 0 <= j < events@.len() && #[trigger] touches_after(events@, h, end, j),
{
    let mut j: usize = 0;
    while j < events.len()
        invariant
            j <= events.len(),
            forall|k: int| 0 <= k < j ==> !#[trigger] touches_after(events@, h, end, k),
        decreases events.len() - j,
    {
        if events[j].binding == h && events[j].span > end {
            assert(touches_after(events@, h, end, j as int));
            return true;
        }
        j = j + 1;
    }
    false
}

/// Reports each borrow whose reference is still used after the scope that
/// owns the borrowed value has exited.
pub fn check_lifetimes(scopes: &Vec<Scope>, bindings: &Vec<Binding>, events: &Vec<Event>) -> (r: Vec<Diagnostic>)
    requires
        facts_wf(scopes@, bindings@, events@),
    ensures
        r@ == lifetime_findings(scopes@, bindings@, events@, events@.len()),
{
    let mut out: Vec<Diagnostic> = Vec::new();
    let mut i: usize = 0;
    while i < events.len()
        invariant
            i <= events.len(),
            facts_wf(scopes@, bindings@, events@),
            out@ == lifetime_findings(scopes@, bindings@, events@, i as nat),
        decreases events.len() - i,
    {
        let e = events[i];
        assert(e.binding < bindings@.len()) by {
            assert(events@[i as int].binding < bindings@.len());
        }
        let borrow = e.kind == EventKind::BorrowShared
            || e.kind == EventKind::BorrowExclusive;
        if borrow {
            match e.holder {
                Some(h) => {
                    let owner = bindings[e.binding].scope;
                    assert(owner < scopes@.len()) by {
                        assert(bindings@[e.binding as int].scope < scopes@.len());
                    }
                    let end = scopes[owner].end;
                    assert(end == referent_end(scopes@, bindings@, events@, i as int));
                    if used_after(events, h, end) {
                        out.push(Diagnostic::new(Category::DanglingReference, e.span));
                    }
                },
                None => {},
            }
        }
        i = i + 1;
    }
    out
}

} // verus!
