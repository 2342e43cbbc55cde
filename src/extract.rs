use vstd::prelude::*;

use crate::facts::{facts_wf, is_borrow, Binding, Event, EventKind, Facts, Scope};

verus! {

/// One syntactic occurrence in a parsed function body, in source order.
/// Names are interned identifiers.
#[derive(Clone, Copy, Debug, PartialEq, Eq, Structural)]
pub enum Node {
    /// A block opens.
    Open { span: u64 },
    /// The innermost open block closes.
    Close { span: u64 },
    /// A binding is declared in the innermost open block.
    Let { name: u64, span: u64, copy: bool },
    /// A name in value position: passed or assigned by value.
    Value { name: u64, span: u64 },
    /// A name read in place (indexed, printed, compared).
    Read { name: u64, span: u64 },
    /// A reference taken to a name, kept by the binding `holder` if any.
    Ref { name: u64, span: u64, exclusive: bool, holder: Option<u64> },
    /// A name used as a method receiver; `mutating` when the method takes `&mut self`.
    Receiver { name: u64, span: u64, mutating: bool },
    /// A construct the extractor cannot classify.
    Unsupported { span: u64 },
}

/// The event kind of an occurrence of a binding whose type is copyable or not.
pub open spec fn classify(node: Node, copy: bool) -> Option<EventKind> {
    match node {
        Node::Value { .. } => Some(if copy { EventKind::Use } else { EventKind::Move }),
        Node::Read { .. } => Some(EventKind::Use),
        Node::Ref { exclusive, .. } => Some(if exclusive { EventKind::BorrowExclusive } else { EventKind::BorrowShared }),
        Node::Receiver { mutating, .. } => Some(if mutating { EventKind::BorrowExclusive } else { EventKind::BorrowShared }),
        _ => None,
    }
}

pub fn classify_node(node: Node, copy: bool) -> (r: Option<EventKind>)
    ensures
        r == classify(node, copy),
{
    match node {
        Node::Value { .. } => Some(if copy { EventKind::Use } else { EventKind::Move }),
        Node::Read { .. } => Some(EventKind::Use),
        Node::Ref { exclusive, .. } => Some(if exclusive { EventKind::BorrowExclusive } else { EventKind::BorrowShared }),
        Node::Receiver { mutating, .. } => Some(if mutating { EventKind::BorrowExclusive } else { EventKind::BorrowShared }),
        _ => None,
    }
}

/// The latest position among the first `n` events that touch binding `h` (0 if none).
pub open spec fn last_touch(ev: Seq<Event>, h: usize, n: nat) -> u64
    decreases n,
{
    if n == 0 {
        0
    } else {
        let p = last_touch(ev, h, (n - 1) as nat);
        if ev[n - 1].binding == h && ev[n - 1].span > p {
            ev[n - 1].span
        } else {
            p
        }
    }
}

/// A borrow kept by a reference binding lasts until that reference is last
/// touched; every other event keeps its extent.
pub open spec fn extended(ev: Seq<Event>, i: int) -> Event {
    let e = ev[i];
    match e.holder {
        Some(h) => if is_borrow(e.kind) {
            let t = last_touch(ev, h, ev.len());
            Event { extent_end: if t > e.span { t } else { e.span }, ..e }
        } else {
            e
        },
        None => e,
    }
}

fn last_touch_exec(events: &Vec<Event>, h: usize) -> (r: u64)
    ensures
        r == last_touch(events@, h, events@.len()),
{
    let mut best: u64 = 0;
    let mut j: usize = 0;
    while j < events.len()
        invariant
            j <= events.len(),
            best == last_touch(events@, h, j as nat),
        decreases events.len() - j,
    {
        if events[j].binding == h && events[j].span > best {
            best = events[j].span;
        }
        j = j + 1;
    }
    best
}

/// Stretches the extent of each borrow kept by a reference binding to the
/// last position at which that reference is touched.
pub fn extend_extents(events: &Vec<Event>) -> (r: Vec<Event>)
    ensures
        r@.len() == events@.len(),
        forall|i: int| 0 <= i < events@.len() ==> r@[i] == extended(events@, i),
{
    let mut out: Vec<Event> = Vec::new();
    let mut i: usize = 0;
    while i < events.len()
        invariant
            i <= events.len(),
            out@.len() == i,
            forall|k: int| 0 <= k < i ==> out@[k] == extended(events@, k),
        decreases events.len() - i,
    {
        let e = events[i];
        let borrow = e.kind == EventKind::BorrowShared || e.kind == EventKind::BorrowExclusive;
        let n = match e.holder {
            Some(h) => if borrow {
                let t = last_touch_exec(events, h);
                Event { extent_end: if t > e.span { t } else { e.span }, ..e }
            } else {
                e
            },
            None => e,
        };
        out.push(n);
        i = i + 1;
    }
    out
}

/// The name and position of an occurrence node.
pub open spec fn occurrence_of(node: Node) -> Option<(u64, u64)> {
    match node {
        Node::Value { name, span } => Some((name, span)),
        Node::Read { name, span } => Some((name, span)),
        Node::Ref { name, span, .. } => Some((name, span)),
        Node::Receiver { name, span, .. } => Some((name, span)),
        _ => None,
    }
}

fn occurrence(node: Node) -> (r: Option<(u64, u64)>)
    ensures
        r == occurrence_of(node),
{
    match node {
        Node::Value { name, span } => Some((name, span)),
        Node::Read { name, span } => Some((name, span)),
        Node::Ref { name, span, .. } => Some((name, span)),
        Node::Receiver { name, span, .. } => Some((name, span)),
        _ => None,
    }
}

/// The innermost (latest declared) visible binding among the first `n` with
/// the given name.
pub open spec fn resolve_name(bindings: Seq<Binding>, visible: Seq<bool>, name: u64, n: nat) -> Option<usize>
    decreases n,
{
    if n == 0 {
        None
    } else if visible[n - 1] && bindings[n - 1].name == name {
        Some((n - 1) as usize)
    } else {
        resolve_name(bindings, visible, name, (n - 1) as nat)
    }
}

fn resolve(bindings: &Vec<Binding>, visible: &Vec<bool>, name: u64) -> (r: Option<usize>)
    requires
        visible@.len() == bindings@.len(),
    ensures
        r == resolve_name(bindings@, visible@, name, bindings@.len()),
        r matches Some(b) ==> b < bindings@.len(),
{
    let mut i: usize = bindings.len();
    while i > 0
        invariant
            i <= bindings@.len(),
            visible@.len() == bindings@.len(),
            resolve_name(bindings@, visible@, name, bindings@.len()) == resolve_name(bindings@, visible@, name, i as nat),
        decreases i,
    {
        i = i - 1;
        if visible[i] && bindings[i].name == name {
            return Some(i);
        }
    }
    None
}

/// The state of extraction after a prefix of the body: the scopes and
/// bindings so far, which bindings are still visible, the stack of open
/// scopes, the events and the skipped positions.
pub struct ExtractState {
    pub scopes: Seq<Scope>,
    pub bindings: Seq<Binding>,
    pub visible: Seq<bool>,
    pub open: Seq<usize>,
    pub events: Seq<Event>,
    pub skipped: Seq<u64>,
}

pub open spec fn initial_state() -> ExtractState {
    ExtractState {
        scopes: seq![Scope { start: 0, end: u64::MAX, parent: None }],
        bindings: Seq::empty(),
        visible: Seq::empty(),
        open: seq![0usize],
        events: Seq::empty(),
        skipped: Seq::empty(),
    }
}

/// How one node changes the extraction state. An occurrence of a visible
/// binding becomes an event whose extent is, for now, its own position; an
/// occurrence of an unknown name, a stray `Close` and an unsupported
/// construct are skipped.
pub open spec fn step(st: ExtractState, node: Node) -> ExtractState {
    match node {
        Node::Open { span } => ExtractState {
            scopes: st.scopes.push(Scope { start: span, end: u64::MAX, parent: Some(st.open.last()) }),
            open: st.open.push(st.scopes.len() as usize),
            ..st
        },
        Node::Close { span } => if st.open.len() > 1 {
            let top = st.open.last();
            ExtractState {
                scopes: st.scopes.update(top as int, Scope { end: span, ..st.scopes[top as int] }),
                open: st.open.drop_last(),
                visible: Seq::new(st.visible.len(), |b: int| st.visible[b] && st.bindings[b].scope != top),
                ..st
            }
        } else {
            ExtractState { skipped: st.skipped.push(span), ..st }
        },
        Node::Let { name, span, copy } => ExtractState {
            bindings: st.bindings.push(Binding { name, span, scope: st.open.last(), copy }),
            visible: st.visible.push(true),
            ..st
        },
        Node::Unsupported { span } => ExtractState { skipped: st.skipped.push(span), ..st },
        _ => match occurrence_of(node) {
            Some((name, span)) => match resolve_name(st.bindings, st.visible, name, st.bindings.len()) {
                Some(b) => {
                    let kind = match classify(node, st.bindings[b as int].copy) {
                        Some(k) => k,
                        None => EventKind::Use,
                    };
                    let holder = match node {
                        Node::Ref { holder: Some(h), .. } => resolve_name(st.bindings, st.visible, h, st.bindings.len()),
                        _ => None,
                    };
                    ExtractState {
                        events: st.events.push(Event { kind, binding: b, span, extent_end: span, holder }),
                        ..st
                    }
                },
                None => ExtractState { skipped: st.skipped.push(span), ..st },
            },
            None => st,
        },
    }
}

/// The extraction state after the first `n` nodes.
pub open spec fn extract_upto(nodes: Seq<Node>, n: nat) -> ExtractState
    decreases n,
{
    if n == 0 {
        initial_state()
    } else {
        step(extract_upto(nodes, (n - 1) as nat), nodes[n - 1])
    }
}

/// `f` is the fact table of the body `nodes`: the final extraction state,
/// with borrow extents stretched.
pub open spec fn extracted(nodes: Seq<Node>, f: Facts) -> bool {
    let st = extract_upto(nodes, nodes.len());
    &&& f.wf()
    &&& f.scopes@ == st.scopes
    &&& f.bindings@ == st.bindings
    &&& f.skipped@ == st.skipped
    &&& f.events@.len() == st.events.len()
    &&& forall|i: int| 0 <= i < st.events.len() ==> f.events@[i] == extended(st.events, i)
}

/// Builds the fact table of a function body: a scope tree (scope 0 is the
/// body itself), the bindings each declaration introduces, one event for each
/// occurrence of a visible binding, with borrow extents stretched to the last
/// use of the reference that keeps them, and the position of every occurrence
/// that cannot be classified.
pub fn extract(nodes: &Vec<Node>) -> (r: Facts)
    ensures
        extracted(nodes@, r),
{
    let mut scopes: Vec<Scope> = Vec::new();
    scopes.push(Scope { start: 0, end: u64::MAX, parent: None });
    let mut open: Vec<usize> = Vec::new();
    open.push(0);
    let mut bindings: Vec<Binding> = Vec::new();
    let mut visible: Vec<bool> = Vec::new();
    let mut events: Vec<Event> = Vec::new();
    let mut skipped: Vec<u64> = Vec::new();
    assert(scopes@ =~= initial_state().scopes);
    assert(open@ =~= initial_state().open);
    let mut i: usize = 0;
    while i < nodes.len()
        invariant
            i <= nodes@.len(),
            facts_wf(scopes@, bindings@, events@),
            open@.len() >= 1,
            forall|k: int| 0 <= k < open@.len() ==> #[trigger] open@[k] < scopes@.len(),
            visible@.len() == bindings@.len(),
            ({
                let st = extract_upto(nodes@, i as nat);
                &&& scopes@ == st.scopes
                &&& bindings@ == st.bindings
                &&& visible@ == st.visible
                &&& open@ == st.open
                &&& events@ == st.events
                &&& skipped@ == st.skipped
            }),
        decreases nodes@.len() - i,
    {
        let node = nodes[i];
        let ghost st = extract_upto(nodes@, i as nat);
        assert(extract_upto(nodes@, (i + 1) as nat) == step(st, node));
        match node {
            Node::Open { span } => {
                let parent = open[open.len() - 1];
                let id = scopes.len();
                let ghost before = scopes@;
                scopes.push(Scope { start: span, end: u64::MAX, parent: Some(parent) });
                assert forall|s: int| 0 <= s < scopes@.len() implies match #[trigger] scopes@[s].parent {
                    Some(p) => p < s,
                    None => true,
                } by {
                    if s < before.len() {
                        assert(scopes@[s] == before[s]);
                    }
                }
                open.push(id);
            },
            Node::Close { span } => {
                if open.len() > 1 {
                    let top = open.pop().unwrap();
                    let old_scope = scopes[top];
                    let ghost before = scopes@;
                    scopes.set(top, Scope { end: span, ..old_scope });
                    assert forall|s: int| 0 <= s < scopes@.len() implies match #[trigger] scopes@[s].parent {
                        Some(p) => p < s,
                        None => true,
                    } by {
                        assert(scopes@[s].parent == before[s].parent);
                    }
                    let ghost vis0 = visible@;
                    let mut b: usize = 0;
                    while b < bindings.len()
                        invariant
                            b <= bindings@.len(),
                            visible@.len() == bindings@.len(),
                            vis0.len() == bindings@.len(),
                            forall|k: int| 0 <= k < b ==> #[trigger] visible@[k] == (vis0[k] && bindings@[k].scope != top),
                            forall|k: int| b <= k < bindings@.len() ==> #[trigger] visible@[k] == vis0[k],
                        decreases bindings@.len() - b,
                    {
                        if bindings[b].scope == top {
                            visible.set(b, false);
                        }
                        b = b + 1;
                    }
                    assert(visible@ =~= Seq::new(vis0.len(), |k: int| vis0[k] && bindings@[k].scope != top));
                } else {
                    skipped.push(span);
                }
            },
            Node::Let { name, span, copy } => {
                let scope = open[open.len() - 1];
                bindings.push(Binding { name, span, scope, copy });
                visible.push(true);
            },
            Node::Unsupported { span } => {
                skipped.push(span);
            },
            _ => {
                match occurrence(node) {
                    Some((name, span)) => {
                        match resolve(&bindings, &visible, name) {
                            Some(b) => {
                                let kind = match classify_node(node, bindings[b].copy) {
                                    Some(k) => k,
                                    None => EventKind::Use,
                                };
                                let holder = match node {
                                    Node::Ref { holder: Some(h), .. } => resolve(&bindings, &visible, h),
                                    _ => None,
                                };
                                events.push(Event { kind, binding: b, span, extent_end: span, holder });
                            },
                            None => {
                                skipped.push(span);
                            },
                        }
                    },
                    None => {},
                }
            },
        }
        i = i + 1;
    }
    let events = extend_extents(&events);
    Facts { scopes, bindings, events, skipped }
}

} // verus!
