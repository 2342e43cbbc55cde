use vstd::prelude::*;

use crate::diagnostic::{category_at, rank_of, Category, CATEGORY_COUNT};

verus! {

/// Which of the three category lists of a grade is meant.
#[derive(Clone, Copy, Debug, PartialEq, Eq, Structural)]
pub enum Part {
    Matched,
    Missing,
    Extra,
}

/// Whether category `c` belongs in the given part of the grade.
pub open spec fn wanted(part: Part, produced: Seq<Category>, expected: Seq<Category>, c: Category) -> bool {
    match part {
        Part::Matched => expected.contains(c) && produced.contains(c),
        Part::Missing => expected.contains(c) && !produced.contains(c),
        Part::Extra => produced.contains(c) && !expected.contains(c),
    }
}

/// The categories of rank below `n` that belong in the given part, in canonical order.
pub open spec fn select(part: Part, produced: Seq<Category>, expected: Seq<Category>, n: nat) -> Seq<Category>
    decreases n,
{
    if n == 0 {
        Seq::empty()
    } else {
        let prev = select(part, produced, expected, (n - 1) as nat);
        let c = category_at((n - 1) as nat);
        if wanted(part, produced, expected, c) {
            prev.push(c)
        } else {
            prev
        }
    }
}

/// The mathematical content of a grade.
pub struct GradeView {
    pub matched: Seq<Category>,
    pub missing: Seq<Category>,
    pub extra: Seq<Category>,
    pub pass: bool,
}

/// Grade of a produced multiset of categories against an expected set: each list
/// holds its categories once, in canonical order; the verdict is a pass iff
/// nothing is missing and nothing is extra.
pub open spec fn grade_spec(produced: Seq<Category>, expected: Seq<Category>) -> GradeView {
    let missing = select(Part::Missing, produced, expected, CATEGORY_COUNT as nat);
    let extra = select(Part::Extra, produced, expected, CATEGORY_COUNT as nat);
    GradeView {
        matched: select(Part::Matched, produced, expected, CATEGORY_COUNT as nat),
        missing,
        extra,
        pass: missing.len() == 0 && extra.len() == 0,
    }
}

/// Result of comparing produced categories with expected ones.
pub struct GradeResult {
    pub matched: Vec<Category>,
    pub missing: Vec<Category>,
    pub extra: Vec<Category>,
    pub pass: bool,
}

impl View for GradeResult {
    type V = GradeView;

    open spec fn view(&self) -> GradeView {
        GradeView { matched: self.matched@, missing: self.missing@, extra: self.extra@, pass: self.pass }
    }
}

/// A selection up to rank `n` holds exactly the wanted categories of rank below `n`.
pub proof fn lemma_select_contains(part: Part, produced: Seq<Category>, expected: Seq<Category>, n: nat, c: Category)
    ensures
        select(part, produced, expected, n).contains(c) <==> (rank_of(c) < n && wanted(part, produced, expected, c)),
    decreases n,
{
    if n > 0 {
        lemma_select_contains(part, produced, expected, (n - 1) as nat, c);
        let prev = select(part, produced, expected, (n - 1) as nat);
        let d = category_at((n - 1) as nat);
        if wanted(part, produced, expected, d) {
            assert(prev.push(d).contains(c) <==> (prev.contains(c) || c == d)) by {
                if prev.push(d).contains(c) {
                    let i = choose|i: int| 0 <= i < prev.push(d).len() && prev.push(d)[i] == c;
                    if i < prev.len() {
                        assert(prev[i] == c);
                    }
                }
                if prev.contains(c) {
                    let i = choose|i: int| 0 <= i < prev.len() && prev[i] == c;
                    assert(prev.push(d)[i] == c);
                }
                if c == d {
                    assert(prev.push(d)[prev.len() as int] == c);
                }
            }
        }
        crate::diagnostic::lemma_rank_round_trip(c);
    }
}

/// Two selections agree when the wanted categories agree.
proof fn lemma_select_ext(
    part: Part,
    prod_a: Seq<Category>,
    exp_a: Seq<Category>,
    prod_b: Seq<Category>,
    exp_b: Seq<Category>,
    n: nat,
)
    requires
        forall|c: Category| wanted(part, prod_a, exp_a, c) == wanted(part, prod_b, exp_b, c),
    ensures
        select(part, prod_a, exp_a, n) == select(part, prod_b, exp_b, n),
    decreases n,
{
    if n > 0 {
        lemma_select_ext(part, prod_a, exp_a, prod_b, exp_b, (n - 1) as nat);
    }
}

/// Regrading is stable: grading the categories that a grade reports as produced
/// (its matched ones followed by its extra ones) against the same expected set
/// gives back the very same grade.
pub proof fn lemma_regrade_is_stable(produced: Seq<Category>, expected: Seq<Category>)
    ensures
        ({
            let g = grade_spec(produced, expected);
            grade_spec(g.matched + g.extra, expected) == g
        }),
{
    let g = grade_spec(produced, expected);
    let again = g.matched + g.extra;
    let n = CATEGORY_COUNT as nat;
    assert forall|c: Category| again.contains(c) <==> produced.contains(c) by {
        lemma_select_contains(Part::Matched, produced, expected, n, c);
        lemma_select_contains(Part::Extra, produced, expected, n, c);
        crate::diagnostic::lemma_rank_round_trip(c);
        if again.contains(c) {
            let i = choose|i: int| 0 <= i < again.len() && again[i] == c;
            if i < g.matched.len() {
                assert(g.matched[i] == c);
            } else {
                assert(g.extra[i - g.matched.len()] == c);
            }
        }
        if produced.contains(c) {
            if expected.contains(c) {
                let i = choose|i: int| 0 <= i < g.matched.len() && g.matched[i] == c;
                assert(again[i] == c);
            } else {
                let i = choose|i: int| 0 <= i < g.extra.len() && g.extra[i] == c;
                assert(again[i + g.matched.len()] == c);
            }
        }
    }
    lemma_select_ext(Part::Matched, again, expected, produced, expected, n);
    lemma_select_ext(Part::Missing, again, expected, produced, expected, n);
    lemma_select_ext(Part::Extra, again, expected, produced, expected, n);
}

/// Whether `c` occurs in `v`.
pub fn contains_category(v: &Vec<Category>, c: Category) -> (r: bool)
    ensures
        r == v@.contains(c),
{
    let mut i: usize = 0;
    while i < v.len()
        invariant
            0 <= i <= v.len(),
            forall|j: int| 0 <= j < i ==> v@[j] != c,
        decreases v.len() - i,
    {
        if v[i] == c {
            assert(v@[i as int] == c);
            return true;
        }
        i = i + 1;
    }
    false
}

fn select_exec(part: Part, produced: &Vec<Category>, expected: &Vec<Category>) -> (r: Vec<Category>)
    ensures
        r@ == select(part, produced@, expected@, CATEGORY_COUNT as nat),
{
    let mut out: Vec<Category> = Vec::new();
    let mut k: u8 = 0;
    while k < CATEGORY_COUNT
        invariant
            k <= CATEGORY_COUNT,
            out@ == select(part, produced@, expected@, k as nat),
        decreases CATEGORY_COUNT - k,
    {
        let c = Category::from_rank(k);
        let in_produced = contains_category(produced, c);
        let in_expected = contains_category(expected, c);
        let keep = match part {
            Part::Matched => in_expected && in_produced,
            Part::Missing => in_expected && !in_produced,
            Part::Extra => in_produced && !in_expected,
        };
        if keep {
            out.push(c);
        }
        k = k + 1;
    }
    out
}

/// Grades the categories an analysis produced (a multiset: repeats allowed)
/// against the categories a snippet is expected to exhibit.
pub fn grade(produced: &Vec<Category>, expected: &Vec<Category>) -> (r: GradeResult)
    ensures
        r@ == grade_spec(produced@, expected@),
{
    let matched = select_exec(Part::Matched, produced, expected);
    let missing = select_exec(Part::Missing, produced, expected);
    let extra = select_exec(Part::Extra, produced, expected);
    let pass = missing.len() == 0 && extra.len() == 0;
    GradeResult { matched, missing, extra, pass }
}

} // verus!
