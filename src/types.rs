use vstd::prelude::*;

use crate::diagnostic::{mismatch_diag_at, Diagnostic};

verus! {

/// A type as far as local inference knows it.
#[derive(Clone, Copy, Debug, PartialEq, Eq, Structural)]
pub enum Ty {
    Unknown,
    Bool,
    Char,
    I32,
    I64,
    U8,
    U16,
    U32,
    U64,
    Usize,
    Str,
    String,
    /// A user-defined type, by interned name.
    Named(u64),
}

/// A function signature: its interned name and parameter types.
pub struct Signature {
    pub name: u64,
    pub params: Vec<Ty>,
}

/// An argument expression with its locally inferred type.
#[derive(Clone, Copy, Debug, PartialEq, Eq, Structural)]
pub struct Arg {
    pub ty: Ty,
    pub span: u64,
}

/// A call expression.
pub struct Call {
    pub callee: u64,
    pub span: u64,
    pub args: Vec<Arg>,
}

/// An argument whose type differs from that of its parameter.
#[derive(Clone, Copy, Debug, PartialEq, Eq, Structural)]
pub struct Mismatch {
    pub span: u64,
    pub expected: Ty,
    pub found: Ty,
}

/// The first signature among the first `n` that has the given name.
pub open spec fn find_sig(sigs: Seq<Signature>, name: u64, n: nat) -> Option<int>
    decreases n,
{
    if n == 0 {
        None
    } else {
        match find_sig(sigs, name, (n - 1) as nat) {
            Some(s) => Some(s),
            None => if sigs[n - 1].name == name {
                Some(n - 1)
            } else {
                None
            },
        }
    }
}

/// Two types are in conflict when both are known and they differ.
pub open spec fn conflict(expected: Ty, found: Ty) -> bool {
    expected != Ty::Unknown && found != Ty::Unknown && expected != found
}

/// The mismatches among the first `n` positions of a call, in argument order.
pub open spec fn arg_mismatches(params: Seq<Ty>, args: Seq<Arg>, n: nat) -> Seq<Mismatch>
    decreases n,
{
    if n == 0 {
        Seq::empty()
    } else {
        let prev = arg_mismatches(params, args, (n - 1) as nat);
        let k = n - 1;
        if k < params.len() && k < args.len() && conflict(params[k], args[k].ty) {
            prev.push(Mismatch { span: args[k].span, expected: params[k], found: args[k].ty })
        } else {
            prev
        }
    }
}

/// The mismatches of one call: none when its callee has no known signature.
pub open spec fn call_mismatches(sigs: Seq<Signature>, call: Call) -> Seq<Mismatch> {
    match find_sig(sigs, call.callee, sigs.len()) {
        Some(s) => arg_mismatches(sigs[s].params@, call.args@, call.args@.len()),
        None => Seq::empty(),
    }
}

/// The mismatches of the first `n` calls, in call order.
pub open spec fn calls_mismatches(sigs: Seq<Signature>, calls: Seq<Call>, n: nat) -> Seq<Mismatch>
    decreases n,
{
    if n == 0 {
        Seq::empty()
    } else {
        calls_mismatches(sigs, calls, (n - 1) as nat) + call_mismatches(sigs, calls[n - 1])
    }
}

pub open spec fn mismatch_diag(m: Mismatch) -> Diagnostic {
    mismatch_diag_at(m.span, m.expected, m.found)
}

proof fn lemma_find_sig_stable(sigs: Seq<Signature>, name: u64, m: nat, n: nat)
    requires
        m <= n,
        find_sig(sigs, name, m) is Some,
    ensures
        find_sig(sigs, name, n) == find_sig(sigs, name, m),
    decreases n - m,
{
    if m < n {
        lemma_find_sig_stable(sigs, name, m, (n - 1) as nat);
    }
}

fn find_signature(sigs: &Vec<Signature>, name: u64) -> (r: Option<usize>)
    ensures
        match r {
            Some(s) => s < sigs@.len() && find_sig(sigs@, name, sigs@.len()) == Some(s as int),
            None => find_sig(sigs@, name, sigs@.len()) is None,
        },
{
    let mut i: usize = 0;
    while i < sigs.len()
        invariant
            i <= sigs.len(),
            find_sig(sigs@, name, i as nat) == None::<int>,
        decreases sigs.len() - i,
    {
        if sigs[i].name == name {
            proof {
                lemma_find_sig_stable(sigs@, name, (i + 1) as nat, sigs@.len());
            }
            return Some(i);
        }
        i = i + 1;
    }
    None
}

/// Compares each argument of each call with the declared type of its parameter.
pub fn find_mismatches(sigs: &Vec<Signature>, calls: &Vec<Call>) -> (r: Vec<Mismatch>)
    ensures
        r@ == calls_mismatches(sigs@, calls@, calls@.len()),
{
    let mut out: Vec<Mismatch> = Vec::new();
    let mut c: usize = 0;
    while c < calls.len()
        invariant
            c <= calls.len(),
            out@ == calls_mismatches(sigs@, calls@, c as nat),
        decreases calls.len() - c,
    {
        let call = &calls[c];
        let before = Ghost(out@);
        match find_signature(sigs, call.callee) {
            Some(s) => {
                let params = &sigs[s].params;
                let mut k: usize = 0;
                while k < call.args.len()
                    invariant
                        k <= call.args@.len(),
                        out@ == before@ + arg_mismatches(params@, call.args@, k as nat),
                    decreases call.args@.len() - k,
                {
                    let a = call.args[k];
                    if k < params.len() {
                        let p = params[k];
                        if p != Ty::Unknown && a.ty != Ty::Unknown && p != a.ty {
                            out.push(Mismatch { span: a.span, expected: p, found: a.ty });
                            assert(out@ == before@ + arg_mismatches(params@, call.args@, (k + 1) as nat));
                        }
                    }
                    k = k + 1;
                }
                assert(call_mismatches(sigs@, calls@[c as int]) == arg_mismatches(params@, call.args@, call.args@.len()));
            },
            None => {
                assert(out@ == before@ + Seq::<Mismatch>::empty());
            },
        }
        c = c + 1;
    }
    out
}

/// One `TypeMismatch` diagnostic for each mismatching argument.
pub fn check_calls(sigs: &Vec<Signature>, calls: &Vec<Call>) -> (r: Vec<Diagnostic>)
    ensures
        r@ == calls_mismatches(sigs@, calls@, calls@.len()).map_values(|m: Mismatch| mismatch_diag(m)),
{
    let ms = find_mismatches(sigs, calls);
    let mut out: Vec<Diagnostic> = Vec::new();
    let mut i: usize = 0;
    while i < ms.len()
        invariant
            i <= ms@.len(),
            out@ == ms@.take(i as int).map_values(|m: Mismatch| mismatch_diag(m)),
        decreases ms@.len() - i,
    {
        out.push(Diagnostic::mismatch(ms[i].span, ms[i].expected, ms[i].found));
        assert(ms@.take(i as int + 1) == ms@.take(i as int).push(ms@[i as int]));
        i = i + 1;
    }
    assert(ms@.take(ms@.len() as int) == ms@);
    out
}

} // verus!
