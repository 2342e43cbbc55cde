use vstd::prelude::*;

use crate::diagnostic::{diag, Category, Diagnostic};

verus! {

/// A `use` declaration: its path as interned segment names.
pub struct UsePath {
    pub span: u64,
    pub segments: Vec<u64>,
}

/// An occurrence of a name that must resolve to an import or a local item.
#[derive(Clone, Copy, Debug, PartialEq, Eq, Structural)]
pub struct SymbolRef {
    pub name: u64,
    pub span: u64,
}

/// The interned name of the standard library's root, which is always recognized.
pub const STD_ROOT: u64 = 0;

/// A crate root is recognized when it is the standard library's or on the whitelist.
pub open spec fn crate_known(crates: Seq<u64>, name: u64) -> bool {
    name == STD_ROOT || crates.contains(name)
}

/// A path resolves when its root is a recognized external crate, or a module
/// declared in the file whose path ends in the module itself or in an item
/// declared in the file.
pub open spec fn resolves(segments: Seq<u64>, modules: Seq<u64>, crates: Seq<u64>, decls: Seq<u64>) -> bool {
    &&& segments.len() > 0
    &&& crate_known(crates, segments[0]) || (modules.contains(segments[0]) && (segments.len() == 1 || decls.contains(
        segments.last(),
    )))
}

/// Some `use` declaration names `name` as its last segment.
pub open spec fn imported(uses: Seq<UsePath>, name: u64) -> bool {
    exists|i: int|
        0 <= i < uses.len() && #[trigger] uses[i].segments@.len() > 0 && uses[i].segments@.last() == name
}

/// The unresolved imports among the first `n` declarations.
pub open spec fn import_findings(
    uses: Seq<UsePath>,
    modules: Seq<u64>,
    crates: Seq<u64>,
    decls: Seq<u64>,
    n: nat,
) -> Seq<Diagnostic>
    decreases n,
{
    if n == 0 {
        Seq::empty()
    } else {
        let prev = import_findings(uses, modules, crates, decls, (n - 1) as nat);
        if resolves(uses[n - 1].segments@, modules, crates, decls) {
            prev
        } else {
            prev.push(diag(Category::UnresolvedImport, uses[n - 1].span))
        }
    }
}

/// A name is known when it is an item or module of the file, a recognized
/// crate root, or brought in by some `use`.
pub open spec fn known(uses: Seq<UsePath>, decls: Seq<u64>, modules: Seq<u64>, crates: Seq<u64>, name: u64) -> bool {
    decls.contains(name) || modules.contains(name) || crate_known(crates, name) || imported(uses, name)
}

/// The unresolved names among the first `n` references.
pub open spec fn symbol_findings(
    uses: Seq<UsePath>,
    decls: Seq<u64>,
    modules: Seq<u64>,
    crates: Seq<u64>,
    refs: Seq<SymbolRef>,
    n: nat,
) -> Seq<Diagnostic>
    decreases n,
{
    if n == 0 {
        Seq::empty()
    } else {
        let prev = symbol_findings(uses, decls, modules, crates, refs, (n - 1) as nat);
        let r = refs[n - 1];
        if known(uses, decls, modules, crates, r.name) {
            prev
        } else {
            prev.push(diag(Category::UnresolvedSymbol, r.span))
        }
    }
}

pub fn contains_name(v: &Vec<u64>, x: u64) -> (r: bool)
    ensures
        r == v@.contains(x),
{
    let mut i: usize = 0;
    while i < v.len()
        invariant
            i <= v.len(),
            forall|j: int| 0 <= j < i ==> v@[j] != x,
        decreases v.len() - i,
    {
        if v[i] == x {
            assert(v@[i as int] == x);
            return true;
        }
        i = i + 1;
    }
    false
}

fn is_imported(uses: &Vec<UsePath>, name: u64) -> (r: bool)
    ensures
        r == imported(uses@, name),
{
    let mut i: usize = 0;
    while i < uses.len()
        invariant
            i <= uses.len(),
            forall|j: int|
                0 <= j < i ==> !(#[trigger] uses@[j].segments@.len() > 0 && uses@[j].segments@.last() == name),
        decreases uses.len() - i,
    {
        let segs = &uses[i].segments;
        if segs.len() > 0 && segs[segs.len() - 1] == name {
            assert(uses@[i as int].segments@.len() > 0);
            return true;
        }
        i = i + 1;
    }
    false
}

/// Reports each `use` whose path does not resolve.
pub fn check_imports(uses: &Vec<UsePath>, modules: &Vec<u64>, crates: &Vec<u64>, decls: &Vec<u64>) -> (r: Vec<
    Diagnostic,
>)
    ensures
        r@ == import_findings(uses@, modules@, crates@, decls@, uses@.len()),
{
    let mut out: Vec<Diagnostic> = Vec::new();
    let mut i: usize = 0;
    while i < uses.len()
        invariant
            i <= uses.len(),
            out@ == import_findings(uses@, modules@, crates@, decls@, i as nat),
        decreases uses.len() - i,
    {
        let segs = &uses[i].segments;
        let ok = segs.len() > 0 && (segs[0] == STD_ROOT || contains_name(crates, segs[0]) || (contains_name(modules, segs[0]) && (
        segs.len() == 1 || contains_name(decls, segs[segs.len() - 1]))));
        if !ok {
            out.push(Diagnostic::new(Category::UnresolvedImport, uses[i].span));
        }
        i = i + 1;
    }
    out
}

/// Reports each reference to a name that is neither declared in the file, nor
/// a recognized crate root, nor brought in by a `use`.
pub fn check_symbols(
    uses: &Vec<UsePath>,
    decls: &Vec<u64>,
    modules: &Vec<u64>,
    crates: &Vec<u64>,
    refs: &Vec<SymbolRef>,
) -> (r: Vec<Diagnostic>)
    ensures
        r@ == symbol_findings(uses@, decls@, modules@, crates@, refs@, refs@.len()),
{
    let mut out: Vec<Diagnostic> = Vec::new();
    let mut i: usize = 0;
    while i < refs.len()
        invariant
            i <= refs.len(),
            out@ == symbol_findings(uses@, decls@, modules@, crates@, refs@, i as nat),
        decreases refs.len() - i,
    {
        let r = refs[i];
        let found = contains_name(decls, r.name) || contains_name(modules, r.name) || r.name == STD_ROOT
            || contains_name(crates, r.name)
            || is_imported(uses, r.name);
        if !found {
            out.push(Diagnostic::new(Category::UnresolvedSymbol, r.span));
        }
        i = i + 1;
    }
    out
}

} // verus!
