//! Whether each class is a value type, an opaque handle, or not representable.

use vstd::prelude::*;
use crate::model::ClassKind;
use crate::text::{contains_seq, str_contains};

verus! {

/// What the classifier reads about a class.
pub struct ClassFacts {
    /// Fully qualified name; declarations of one name share one kind.
    pub name: String,
    /// Source text from the start of the declaration to its name, when it could be read.
    pub decl_text: Option<String>,
    pub has_virtual_methods: bool,
    /// Every field has a type that can be copied by value.
    pub fields_representable: bool,
    /// Numbers of its direct base classes.
    pub bases: Vec<usize>,
}

/// The decision an export macro in the declaration text makes, if any.
pub open spec fn text_decision(text: Option<String>) -> Option<ClassKind> {
    match text {
        Some(t) => if contains_seq(t@, "CV_EXPORTS_W_SIMPLE"@) || contains_seq(t@, "CV_EXPORTS_W_MAP"@)
            || contains_seq(t@, "GAPI_EXPORTS_W_SIMPLE"@) {
            Some(ClassKind::Simple)
        } else if contains_seq(t@, "CV_EXPORTS"@) || contains_seq(t@, "GAPI_EXPORTS"@) {
            Some(ClassKind::Boxed)
        } else {
            None
        },
        None => None,
    }
}

pub fn text_decision_exec(text: &Option<String>) -> (r: Option<ClassKind>)
    ensures
        r == text_decision(*text),
{
    match text {
        Some(t) => {
            let s = t.as_str();
            if str_contains(s, "CV_EXPORTS_W_SIMPLE") || str_contains(s, "CV_EXPORTS_W_MAP")
                || str_contains(s, "GAPI_EXPORTS_W_SIMPLE") {
                Some(ClassKind::Simple)
            } else if str_contains(s, "CV_EXPORTS") || str_contains(s, "GAPI_EXPORTS") {
                Some(ClassKind::Boxed)
            } else {
                None
            }
        },
        None => None,
    }
}

pub open spec fn facts_wf(facts: Seq<ClassFacts>) -> bool {
    forall|i: int, k: int| 0 <= i < facts.len() && 0 <= k < facts[i].bases@.len()
        ==> (#[trigger] facts[i].bases@[k]) < facts.len()
}

/// Class `i` is a value type given that the classes marked in `s` are: its declaration says so,
/// or says nothing and it has no virtual methods, representable fields, and only value type bases.
pub open spec fn simple_given(facts: Seq<ClassFacts>, s: Seq<bool>, i: int) -> bool {
    let d = text_decision(facts[i].decl_text);
    d == Some(ClassKind::Simple) || (d is None && !facts[i].has_virtual_methods && facts[i].fields_representable
        && forall|k: int| 0 <= k < facts[i].bases@.len() ==> s[#[trigger] facts[i].bases@[k] as int])
}

/// The value types known after `k` rounds of inference, starting from none.
pub open spec fn simple_after(facts: Seq<ClassFacts>, k: nat) -> Seq<bool>
    decreases k,
{
    if k == 0 {
        Seq::new(facts.len(), |i: int| false)
    } else {
        let s = simple_after(facts, (k - 1) as nat);
        Seq::new(facts.len(), |i: int| simple_given(facts, s, i))
    }
}

/// The kind of class `i`: a value type when inference reaches it within as many rounds as there
/// are classes, an opaque handle when its declaration says so, otherwise not representable.
/// A class that takes part in an inheritance cycle without a declaration of its own is never
/// reached, so it is not representable.
pub open spec fn class_kind_of(facts: Seq<ClassFacts>, i: int) -> Option<ClassKind> {
    if simple_after(facts, facts.len())[i] {
        Some(ClassKind::Simple)
    } else if text_decision(facts[i].decl_text) == Some(ClassKind::Boxed) {
        Some(ClassKind::Boxed)
    } else {
        None
    }
}

/// The first position from `j` on whose class is called `n`, or the number of classes.
pub open spec fn first_named(facts: Seq<ClassFacts>, n: Seq<char>, j: int) -> int
    decreases facts.len() - j,
{
    if j < 0 || j >= facts.len() {
        facts.len() as int
    } else if facts[j].name@ == n {
        j
    } else {
        first_named(facts, n, j + 1)
    }
}

/// The kind recorded for class `i`: that of the first declaration of its name, as a cache keyed
/// by qualified name would hold it.
pub open spec fn named_kind_of(facts: Seq<ClassFacts>, i: int) -> Option<ClassKind> {
    class_kind_of(facts, first_named(facts, facts[i].name@, 0))
}

/// Kinds of every class of a module, computed once.
pub struct ClassKindTable {
    kinds: Vec<Option<ClassKind>>,
}

impl ClassKindTable {
    pub closed spec fn kinds(&self) -> Seq<Option<ClassKind>> {
        self.kinds@
    }

    fn one_round(facts: &Vec<ClassFacts>, decisions: &Vec<Option<ClassKind>>, s: &Vec<bool>) -> (r: Vec<bool>)
        requires
            facts_wf(facts@),
            s@.len() == facts@.len(),
            decisions@.len() == facts@.len(),
            forall|i: int| 0 <= i < facts@.len() ==> decisions@[i] == text_decision(#[trigger] facts@[i].decl_text),
        ensures
            r@ == Seq::new(facts@.len(), |i: int| simple_given(facts@, s@, i)),
    {
        let mut r: Vec<bool> = Vec::new();
        let mut i: usize = 0;
        while i < facts.len()
            invariant
                facts_wf(facts@),
                s@.len() == facts@.len(),
                decisions@.len() == facts@.len(),
                forall|q: int| 0 <= q < facts@.len() ==> decisions@[q] == text_decision(#[trigger] facts@[q].decl_text),
                i <= facts.len(),
                r@ == Seq::new(i as nat, |q: int| simple_given(facts@, s@, q)),
            decreases facts.len() - i,
        {
            let f = &facts[i];
            let d = decisions[i];
            let mut v = false;
            if d == Some(ClassKind::Simple) {
                v = true;
            } else if d.is_none() && !f.has_virtual_methods && f.fields_representable {
                let mut all = true;
                let mut k: usize = 0;
                while k < f.bases.len()
                    invariant
                        facts_wf(facts@),
                        i < facts@.len(),
                        f == &facts@[i as int],
                        s@.len() == facts@.len(),
                        k <= f.bases.len(),
                        all == forall|q: int| 0 <= q < k ==> s@[#[trigger] f.bases@[q] as int],
                    decreases f.bases.len() - k,
                {
                    let b = f.bases[k];
                    assert(b < facts@.len()) by {
                        assert(facts@[i as int].bases@[k as int] == b);
                    }
                    if !s[b] {
                        all = false;
                    }
                    k = k + 1;
                }
                v = all;
            }
            r.push(v);
            assert(r@ =~= Seq::new((i + 1) as nat, |q: int| simple_given(facts@, s@, q)));
            i = i + 1;
        }
        r
    }

    /// Classifies every class of `facts`.
    pub fn compute(facts: &Vec<ClassFacts>) -> (r: ClassKindTable)
        requires
            facts_wf(facts@),
        ensures
            r.kinds().len() == facts@.len(),
            forall|i: int| 0 <= i < facts@.len() ==> #[trigger] r.kinds()[i] == named_kind_of(facts@, i),
            forall|i: int, j: int| 0 <= i < facts@.len() && 0 <= j < facts@.len() && facts@[i].name@ == facts@[j].name@
                ==> #[trigger] r.kinds()[i] == #[trigger] r.kinds()[j],
    {
        let n = facts.len();
        let mut decisions: Vec<Option<ClassKind>> = Vec::new();
        let mut s: Vec<bool> = Vec::new();
        let mut i: usize = 0;
        while i < n
            invariant
                n == facts@.len(),
                i <= n,
                decisions@.len() == i,
                s@ == Seq::new(i as nat, |q: int| false),
                forall|q: int| 0 <= q < i ==> decisions@[q] == text_decision(#[trigger] facts@[q].decl_text),
            decreases n - i,
        {
            decisions.push(text_decision_exec(&facts[i].decl_text));
            s.push(false);
            assert(s@ =~= Seq::new((i + 1) as nat, |q: int| false));
            i = i + 1;
        }
        assert(s@ =~= simple_after(facts@, 0));
        let mut round: usize = 0;
        while round < n
            invariant
                facts_wf(facts@),
                n == facts@.len(),
                round <= n,
                decisions@.len() == n,
                forall|q: int| 0 <= q < n ==> decisions@[q] == text_decision(#[trigger] facts@[q].decl_text),
                s@ == simple_after(facts@, round as nat),
            decreases n - round,
        {
            s = Self::one_round(facts, &decisions, &s);
            round = round + 1;
        }
        let mut kinds: Vec<Option<ClassKind>> = Vec::new();
        let mut j: usize = 0;
        while j < n
            invariant
                n == facts@.len(),
                j <= n,
                s@ == simple_after(facts@, n as nat),
                decisions@.len() == n,
                forall|q: int| 0 <= q < n ==> decisions@[q] == text_decision(#[trigger] facts@[q].decl_text),
                kinds@.len() == j,
                forall|q: int| 0 <= q < j ==> #[trigger] kinds@[q] == class_kind_of(facts@, q),
            decreases n - j,
        {
            let k = if s[j] {
                Some(ClassKind::Simple)
            } else if decisions[j] == Some(ClassKind::Boxed) {
                Some(ClassKind::Boxed)
            } else {
                None
            };
            kinds.push(k);
            j = j + 1;
        }
        let mut named: Vec<Option<ClassKind>> = Vec::new();
        let mut i: usize = 0;
        while i < n
            invariant
                n == facts@.len(),
                kinds@.len() == n,
                forall|q: int| 0 <= q < n ==> #[trigger] kinds@[q] == class_kind_of(facts@, q),
                i <= n,
                named@.len() == i,
                forall|q: int| 0 <= q < i ==> #[trigger] named@[q] == named_kind_of(facts@, q),
            decreases n - i,
        {
            let mut f: usize = 0;
            assert(first_named(facts@, facts@[i as int].name@, 0) == first_named(facts@, facts@[i as int].name@, f as int));
            while facts[f].name != facts[i].name
                invariant
                    n == facts@.len(),
                    i < n,
                    f <= i,
                    first_named(facts@, facts@[i as int].name@, 0) == first_named(facts@, facts@[i as int].name@, f as int),
                decreases i - f,
            {
                f = f + 1;
            }
            named.push(kinds[f]);
            i = i + 1;
        }
        proof {
            assert forall|a: int, b: int| 0 <= a < n && 0 <= b < n && facts@[a].name@ == facts@[b].name@
                implies #[trigger] named@[a] == #[trigger] named@[b] by {
                assert(named@[a] == named_kind_of(facts@, a));
                assert(named@[b] == named_kind_of(facts@, b));
            }
        }
        ClassKindTable { kinds: named }
    }

    /// The kind of class `i`.
    pub fn get_class_kind(&self, i: usize) -> (r: Option<ClassKind>)
        requires
            i < self.kinds().len(),
        ensures
            r == self.kinds()[i as int],
    {
        self.kinds[i]
    }
}

} // verus!

verus! {

/// Classes that inherit each other in a cycle, none of them declared a value type, are never
/// value types: inference does not reach them in any number of rounds, so such a cycle resolves
/// to "not representable" (or to an opaque handle where a declaration asks for one).
pub proof fn lemma_cycle_not_simple(facts: Seq<ClassFacts>, cycle: Seq<usize>, k: nat)
    requires
        facts_wf(facts),
        cycle.len() > 0,
        forall|m: int| 0 <= m < cycle.len() ==> (#[trigger] cycle[m]) < facts.len(),
        forall|m: int| 0 <= m < cycle.len() ==> text_decision(facts[#[trigger] cycle[m] as int].decl_text) != Some(ClassKind::Simple),
        forall|m: int| 0 <= m < cycle.len() ==> facts[#[trigger] cycle[m] as int].bases@.contains(cycle[(m + 1) % (cycle.len() as int)]),
    ensures
        forall|m: int| 0 <= m < cycle.len() ==> !simple_after(facts, k)[#[trigger] cycle[m] as int],
        k == facts.len() ==> forall|m: int| 0 <= m < cycle.len() ==> class_kind_of(facts, #[trigger] cycle[m] as int) != Some(ClassKind::Simple),
    decreases k,
{
    if k > 0 {
        lemma_cycle_not_simple(facts, cycle, (k - 1) as nat);
        let s = simple_after(facts, (k - 1) as nat);
        assert forall|m: int| 0 <= m < cycle.len() implies !simple_after(facts, k)[#[trigger] cycle[m] as int] by {
            let i = cycle[m] as int;
            let n = (m + 1) % (cycle.len() as int);
            let next = cycle[n];
            assert(!s[next as int]);
            let bs = facts[i].bases@;
            let q = choose|q: int| 0 <= q < bs.len() && bs[q] == next;
            assert(!s[bs[q] as int]);
            assert(!simple_given(facts, s, i));
        }
    }
}

} // verus!
