use vstd::prelude::*;

use crate::diagnostic::{confidence_of, rank_of, Diagnostic};

verus! {

/// The order of the merged list: by position, then by category.
pub open spec fn before(a: Diagnostic, b: Diagnostic) -> bool {
    a.span < b.span || (a.span == b.span && rank_of(a.category) < rank_of(b.category))
}

/// Two findings are duplicates when they share category and position.
pub open spec fn same_key(a: Diagnostic, b: Diagnostic) -> bool {
    a.span == b.span && a.category == b.category
}

/// Finding `j` is the first of its (category, position) pair among the first `n`.
pub open spec fn first_of_key(input: Seq<Diagnostic>, n: int, j: int) -> bool {
    0 <= j < n && forall|k: int| 0 <= k < j ==> !same_key(#[trigger] input[k], input[j])
}

pub open spec fn sorted_strict(s: Seq<Diagnostic>) -> bool {
    forall|i: int, j: int| 0 <= i < j < s.len() ==> before(#[trigger] s[i], #[trigger] s[j])
}

/// A finding with the confidence that its category carries.
pub open spec fn normalized(d: Diagnostic) -> Diagnostic {
    Diagnostic { confidence: confidence_of(d.category), ..d }
}

/// `d` is, with its category's confidence, the first finding of its
/// (category, position) pair among the first `n` of `input`.
pub open spec fn reported(input: Seq<Diagnostic>, n: int, d: Diagnostic) -> bool {
    exists|j: int| first_of_key(input, n, j) && #[trigger] normalized(input[j]) == d
}

proof fn lemma_first_exists(input: Seq<Diagnostic>, j: int)
    requires
        0 <= j < input.len(),
    ensures
        exists|j0: int| 0 <= j0 <= j && first_of_key(input, j + 1, j0) && same_key(#[trigger] input[j0], input[j]),
    decreases j,
{
    if exists|k: int| 0 <= k < j && same_key(#[trigger] input[k], input[j]) {
        let k = choose|k: int| 0 <= k < j && same_key(#[trigger] input[k], input[j]);
        lemma_first_exists(input, k);
        let j0 = choose|j0: int| 0 <= j0 <= k && first_of_key(input, k + 1, j0) && same_key(#[trigger] input[j0], input[k]);
        assert(first_of_key(input, j + 1, j0));
        assert(same_key(input[j0], input[j]));
        assert(0 <= j0 <= j && first_of_key(input, j + 1, j0) && same_key(input[j0], input[j]));
    } else {
        assert(first_of_key(input, j + 1, j));
        assert(same_key(input[j], input[j]));
        assert(0 <= j <= j && first_of_key(input, j + 1, j) && same_key(input[j], input[j]));
    }
}

/// `out` is the merge of `input`: for each (category, position) pair of the
/// input, the first finding with that pair, with its category's confidence,
/// ordered by position and category.
pub open spec fn merged(input: Seq<Diagnostic>, out: Seq<Diagnostic>) -> bool {
    &&& sorted_strict(out)
    &&& forall|d: Diagnostic| out.contains(d) <==> reported(input, input.len() as int, d)
}

proof fn lemma_insert_contains(s: Seq<Diagnostic>, idx: int, d: Diagnostic, e: Diagnostic)
    requires
        0 <= idx <= s.len(),
    ensures
        s.insert(idx, d).contains(e) <==> (s.contains(e) || e == d),
{
    let t = s.insert(idx, d);
    if t.contains(e) {
        let k = choose|k: int| 0 <= k < t.len() && t[k] == e;
        if k < idx {
            assert(s[k] == e);
        } else if k > idx {
            assert(s[k - 1] == e);
        }
    }
    if s.contains(e) {
        let k = choose|k: int| 0 <= k < s.len() && s[k] == e;
        if k < idx {
            assert(t[k] == e);
        } else {
            assert(t[k + 1] == e);
        }
    }
    if e == d {
        assert(t[idx] == e);
    }
}

/// Two merged lists of the same findings are the same list: merging leaves no
/// freedom in order or content.
pub proof fn lemma_merge_unique(a: Seq<Diagnostic>, b: Seq<Diagnostic>)
    requires
        sorted_strict(a),
        sorted_strict(b),
        forall|d: Diagnostic| a.contains(d) <==> b.contains(d),
    ensures
        a == b,
    decreases a.len(),
{
    if a.len() == 0 {
        if b.len() > 0 {
            assert(b.contains(b[0]));
        }
        assert(a =~= b);
    } else {
        assert(a.contains(a[0]));
        let k = choose|k: int| 0 <= k < b.len() && b[k] == a[0];
        assert(b.contains(b[0]));
        let m = choose|m: int| 0 <= m < a.len() && a[m] == b[0];
        if k > 0 {
            assert(before(b[0], b[k]));
            if m > 0 {
                assert(before(a[0], a[m]));
            }
        }
        assert(b[0] == a[0]);
        let a1 = a.drop_first();
        let b1 = b.drop_first();
        assert forall|d: Diagnostic| a1.contains(d) <==> b1.contains(d) by {
            if a1.contains(d) {
                let i = choose|i: int| 0 <= i < a1.len() && a1[i] == d;
                assert(a[i + 1] == d);
                assert(before(a[0], a[i + 1]));
                assert(b.contains(d));
                let j = choose|j: int| 0 <= j < b.len() && b[j] == d;
                assert(j != 0);
                assert(b1[j - 1] == d);
            }
            if b1.contains(d) {
                let i = choose|i: int| 0 <= i < b1.len() && b1[i] == d;
                assert(b[i + 1] == d);
                assert(before(b[0], b[i + 1]));
                assert(a.contains(d));
                let j = choose|j: int| 0 <= j < a.len() && a[j] == d;
                assert(j != 0);
                assert(a1[j - 1] == d);
            }
        }
        assert(sorted_strict(a1)) by {
            assert forall|i: int, j: int| 0 <= i < j < a1.len() implies before(#[trigger] a1[i], #[trigger] a1[j]) by {
                assert(before(a[i + 1], a[j + 1]));
            }
        }
        assert(sorted_strict(b1)) by {
            assert forall|i: int, j: int| 0 <= i < j < b1.len() implies before(#[trigger] b1[i], #[trigger] b1[j]) by {
                assert(before(b[i + 1], b[j + 1]));
            }
        }
        lemma_merge_unique(a1, b1);
        assert(a =~= b) by {
            assert forall|i: int| 0 <= i < a.len() implies a[i] == b[i] by {
                if i > 0 {
                    assert(a[i] == a1[i - 1]);
                    assert(b[i] == b1[i - 1]);
                }
            }
        }
    }
}

fn precedes(a: Diagnostic, b: Diagnostic) -> (r: bool)
    ensures
        r == before(a, b),
{
    a.span < b.span || (a.span == b.span && a.category.rank() < b.category.rank())
}

/// Merges the findings of all checkers into one list ordered by position,
/// keeping only the first finding of each (category, position) pair and
/// giving each finding the confidence of its category.
pub fn aggregate(input: &Vec<Diagnostic>) -> (r: Vec<Diagnostic>)
    ensures
        merged(input@, r@),
{
    let mut out: Vec<Diagnostic> = Vec::new();
    let mut i: usize = 0;
    while i < input.len()
        invariant
            i <= input.len(),
            sorted_strict(out@),
            forall|d: Diagnostic| out@.contains(d) <==> reported(input@, i as int, d),
        decreases input.len() - i,
    {
        let x = input[i];
        let d = Diagnostic { confidence: x.category.confidence(), ..x };
        assert(normalized(input@[i as int]) == d);
        let mut idx: usize = 0;
        while idx < out.len() && precedes(out[idx], d)
            invariant
                idx <= out.len(),
                forall|k: int| 0 <= k < idx ==> before(#[trigger] out@[k], d),
            decreases out.len() - idx,
        {
            idx = idx + 1;
        }
        let dup = idx < out.len() && out[idx].span == d.span && out[idx].category == d.category;
        let ghost prev = out@;
        if dup {
            proof {
                assert(prev.contains(prev[idx as int]));
                let j1 = choose|j1: int| first_of_key(input@, i as int, j1) && #[trigger] normalized(input@[j1])
                    == prev[idx as int];
                assert(same_key(input@[j1], input@[i as int]));
                assert(!first_of_key(input@, i + 1, i as int));
            }
        } else {
            assert forall|m: int| 0 <= m < prev.len() implies !same_key(#[trigger] prev[m], d) by {
                if same_key(prev[m], d) {
                    if m < idx {
                        assert(before(prev[m], d));
                    } else if m > idx {
                        assert(before(prev[idx as int], prev[m]));
                    }
                }
            }
            assert(first_of_key(input@, i + 1, i as int)) by {
                assert forall|k: int| 0 <= k < i implies !same_key(#[trigger] input@[k], input@[i as int]) by {
                    if same_key(input@[k], input@[i as int]) {
                        lemma_first_exists(input@, k);
                        let j0 = choose|j0: int|
                            0 <= j0 <= k && first_of_key(input@, k + 1, j0) && same_key(#[trigger] input@[j0], input@[k]);
                        assert(first_of_key(input@, i as int, j0));
                        assert(reported(input@, i as int, normalized(input@[j0])));
                        assert(prev.contains(normalized(input@[j0])));
                        let m = choose|m: int| 0 <= m < prev.len() && prev[m] == normalized(input@[j0]);
                        assert(same_key(prev[m], d));
                    }
                }
            }
            out.insert(idx, d);
            assert(sorted_strict(out@)) by {
                assert forall|a: int, b: int| 0 <= a < b < out@.len() implies before(#[trigger] out@[a], #[trigger] out@[b]) by {
                    if idx < prev.len() {
                        assert(!before(prev[idx as int], d));
                        assert(!same_key(prev[idx as int], d));
                        assert(before(d, prev[idx as int]));
                    }
                    if b < idx {
                    } else if b == idx {
                        assert(before(prev[a], d));
                    } else if a < idx {
                        assert(before(prev[a], d));
                        assert(before(d, prev[idx as int]));
                        assert(before(prev[a], prev[b - 1]));
                    } else if a == idx {
                        assert(before(d, prev[idx as int]));
                        if b - 1 > idx {
                            assert(before(prev[idx as int], prev[b - 1]));
                        }
                    } else {
                        assert(before(prev[a - 1], prev[b - 1]));
                    }
                }
            }
        }
        assert forall|e: Diagnostic| out@.contains(e) <==> reported(input@, i + 1, e) by {
            if !dup {
                lemma_insert_contains(prev, idx as int, d, e);
            }
            if reported(input@, i + 1, e) {
                let j = choose|j: int| first_of_key(input@, i + 1, j) && #[trigger] normalized(input@[j]) == e;
                if j < i {
                    assert(first_of_key(input@, i as int, j));
                    assert(reported(input@, i as int, e));
                }
            }
            if reported(input@, i as int, e) {
                let j = choose|j: int| first_of_key(input@, i as int, j) && #[trigger] normalized(input@[j]) == e;
                assert(first_of_key(input@, i + 1, j));
                assert(reported(input@, i + 1, e));
            }
            if e == d && !dup {
                assert(reported(input@, i + 1, e));
            }
        }
        i = i + 1;
    }
    out
}

} // verus!
