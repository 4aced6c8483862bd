//! Per-scope pools of identifiers that hand out unique names.

use vstd::prelude::*;
use crate::text::views;

verus! {

pub open spec fn digit_char(d: int) -> char {
    if d == 0 { '0' }
    else if d == 1 { '1' }
    else if d == 2 { '2' }
    else if d == 3 { '3' }
    else if d == 4 { '4' }
    else if d == 5 { '5' }
    else if d == 6 { '6' }
    else if d == 7 { '7' }
    else if d == 8 { '8' }
    else { '9' }
}

/// Decimal digits of `n`, most significant first.
pub open spec fn decimal(n: nat) -> Seq<char>
    decreases n,
{
    if n < 10 {
        seq![digit_char(n as int)]
    } else {
        decimal(n / 10).push(digit_char((n % 10) as int))
    }
}

/// The variant of `base` that carries the counter `k`: `base_k`.
pub open spec fn numbered(base: Seq<char>, k: nat) -> Seq<char> {
    base + seq!['_'] + decimal(k)
}

proof fn lemma_digit_injective(a: int, b: int)
    requires
        0 <= a < 10,
        0 <= b < 10,
        digit_char(a) == digit_char(b),
    ensures
        a == b,
{
}

proof fn lemma_decimal_len(n: nat)
    ensures
        decimal(n).len() >= 1,
        n >= 10 ==> decimal(n).len() >= 2,
    decreases n,
{
    if n >= 10 {
        lemma_decimal_len(n / 10);
    }
}

proof fn lemma_decimal_injective(a: nat, b: nat)
    requires
        decimal(a) == decimal(b),
    ensures
        a == b,
    decreases a,
{
    lemma_decimal_len(a);
    lemma_decimal_len(b);
    if a < 10 && b < 10 {
        assert(decimal(a)[0] == digit_char(a as int));
        lemma_digit_injective(a as int, b as int);
    } else if a >= 10 && b >= 10 {
        let da = decimal(a);
        assert(da.last() == digit_char((a % 10) as int));
        assert(decimal(b).last() == digit_char((b % 10) as int));
        lemma_digit_injective((a % 10) as int, (b % 10) as int);
        assert(decimal(a / 10) =~= da.drop_last());
        assert(decimal(b / 10) =~= decimal(b).drop_last());
        lemma_decimal_injective(a / 10, b / 10);
    }
}

proof fn lemma_numbered_injective(base: Seq<char>, a: nat, b: nat)
    requires
        numbered(base, a) == numbered(base, b),
    ensures
        a == b,
{
    let n: int = base.len() as int + 1;
    assert(decimal(a) =~= numbered(base, a).skip(n));
    assert(decimal(b) =~= numbered(base, b).skip(n));
    lemma_decimal_injective(a, b);
}

fn digit_str(d: u64) -> (r: &'static str)
    requires
        d < 10,
    ensures
        r@ == seq![digit_char(d as int)],
{
    proof {
        reveal_strlit("0");
        reveal_strlit("1");
        reveal_strlit("2");
        reveal_strlit("3");
        reveal_strlit("4");
        reveal_strlit("5");
        reveal_strlit("6");
        reveal_strlit("7");
        reveal_strlit("8");
        reveal_strlit("9");
    }
    let r = if d == 0 { "0" }
    else if d == 1 { "1" }
    else if d == 2 { "2" }
    else if d == 3 { "3" }
    else if d == 4 { "4" }
    else if d == 5 { "5" }
    else if d == 6 { "6" }
    else if d == 7 { "7" }
    else if d == 8 { "8" }
    else { "9" };
    assert(r@ =~= seq![digit_char(d as int)]);
    r
}

/// Appends the decimal digits of `n` to `out`.
pub fn push_decimal(out: &mut String, n: u64)
    ensures
        final(out)@ == old(out)@ + decimal(n as nat),
    decreases n,
{
    if n >= 10 {
        push_decimal(out, n / 10);
    }
    out.append(digit_str(n % 10));
    proof {
        if n >= 10 {
            assert(decimal(n as nat) == decimal((n / 10) as nat).push(digit_char((n % 10) as int)));
        }
    }
    assert(out@ =~= old(out)@ + decimal(n as nat));
}

/// A set of identifiers already taken in one scope.
pub struct NamePool {
    names: Vec<String>,
}

impl View for NamePool {
    type V = Set<Seq<char>>;

    closed spec fn view(&self) -> Set<Seq<char>> {
        views(self.names@).to_set()
    }
}

/// The smallest counter, from one up, whose numbered variant of `base` is free in `taken`.
pub open spec fn is_first_free_counter(taken: Set<Seq<char>>, base: Seq<char>, k: nat) -> bool {
    &&& k >= 1
    &&& !taken.contains(numbered(base, k))
    &&& forall|j: nat| 1 <= j < k ==> taken.contains(#[trigger] numbered(base, j))
}

/// What `reserve_unique` hands out for `candidate` when `taken` is in use.
pub open spec fn unique_name(taken: Set<Seq<char>>, candidate: Seq<char>, r: Seq<char>) -> bool {
    if taken.contains(candidate) {
        exists|k: nat| is_first_free_counter(taken, candidate, k) && r == numbered(candidate, k)
    } else {
        r == candidate
    }
}

impl NamePool {
    pub fn new() -> (r: Self)
        ensures
            r@ == Set::<Seq<char>>::empty(),
    {
        let r = NamePool { names: Vec::new() };
        assert(r@ =~= Set::<Seq<char>>::empty());
        r
    }

    /// Whether `name` is taken.
    pub fn contains(&self, name: &String) -> (r: bool)
        ensures
            r == self@.contains(name@),
    {
        let mut i: usize = 0;
        while i < self.names.len()
            invariant
                i <= self.names.len(),
                forall|k: int| 0 <= k < i ==> self.names@[k]@ != name@,
            decreases self.names.len() - i,
        {
            if self.names[i] == *name {
                assert(views(self.names@)[i as int] == name@);
                return true;
            }
            i = i + 1;
        }
        proof {
            if self@.contains(name@) {
                let k = choose|k: int| 0 <= k < self.names.len() && views(self.names@)[k] == name@;
                assert(self.names@[k]@ == name@);
            }
        }
        false
    }

    /// Marks `name` as taken.
    pub fn add_name(&mut self, name: String)
        ensures
            final(self)@ == old(self)@.insert(name@),
    {
        self.names.push(name);
        proof {
            let nv = views(self.names@);
            let ov = views(old(self).names@);
            assert(nv =~= ov.push(name@));
            assert forall|x: Seq<char>| nv.to_set().contains(x) <==> ov.to_set().insert(name@).contains(x) by {
                if nv.to_set().contains(x) {
                    let k = choose|k: int| 0 <= k < nv.len() && nv[k] == x;
                    if k < ov.len() {
                        assert(ov[k] == x);
                    }
                }
                if ov.to_set().contains(x) {
                    let k = choose|k: int| 0 <= k < ov.len() && ov[k] == x;
                    assert(nv[k] == x);
                }
                if x == name@ {
                    assert(nv[ov.len() as int] == x);
                }
            }
            assert(nv.to_set() =~= ov.to_set().insert(name@));
        }
    }

    /// Returns `candidate` if it is free, else its first free numbered variant, and takes it.
    pub fn reserve_unique(&mut self, candidate: String) -> (r: String)
        ensures
            !old(self)@.contains(r@),
            final(self)@ == old(self)@.insert(r@),
            unique_name(old(self)@, candidate@, r@),
    {
        proof {
            reveal_strlit("_");
        }
        if !self.contains(&candidate) {
            self.add_name(candidate.clone());
            return candidate;
        }
        let ghost taken = self@;
        let ghost mut tried: Set<Seq<char>> = Set::empty();
        proof {
            views(self.names@).lemma_cardinality_of_set();
        }
        let mut k: usize = 1;
        let mut name = candidate.clone();
        name.append("_");
        push_decimal(&mut name, 1);
        assert(name@ =~= numbered(candidate@, 1));
        while self.contains(&name)
            invariant
                self@ == taken,
                taken.finite(),
                taken.contains(candidate@),
                taken.len() <= self.names.len(),
                1 <= k <= self.names.len() + 1,
                name@ == numbered(candidate@, k as nat),
                tried.finite(),
                tried.len() == k - 1,
                tried.subset_of(taken),
                forall|j: nat| 1 <= j < k ==> taken.contains(#[trigger] numbered(candidate@, j)),
                forall|x: Seq<char>| #[trigger] tried.contains(x) ==> exists|j: nat|
                    1 <= j < k && x == numbered(candidate@, j),
            decreases self.names.len() + 1 - k,
        {
            proof {
                if tried.contains(name@) {
                    let j = choose|j: nat| 1 <= j < k && name@ == numbered(candidate@, j);
                    lemma_numbered_injective(candidate@, j, k as nat);
                }
                let old_tried = tried;
                tried = tried.insert(name@);
                assert forall|x: Seq<char>| #[trigger] tried.contains(x) implies exists|j: nat|
                    1 <= j < k + 1 && x == numbered(candidate@, j) by {
                    if x != name@ {
                        assert(old_tried.contains(x));
                    } else {
                        assert(x == numbered(candidate@, k as nat));
                    }
                }
                assert(!tried.contains(candidate@)) by {
                    if tried.contains(candidate@) {
                        let j = choose|j: nat| 1 <= j < k + 1 && candidate@ == numbered(candidate@, j);
                        assert(numbered(candidate@, j).len() > candidate@.len());
                    }
                }
                vstd::set_lib::lemma_len_subset(tried.insert(candidate@), taken);
            }
            k = k + 1;
            name = candidate.clone();
            name.append("_");
            proof {
                reveal_strlit("_");
            }
            assert(name@ =~= candidate@ + seq!['_']);
            push_decimal(&mut name, k as u64);
            assert(name@ == candidate@ + seq!['_'] + decimal(k as nat));
        }
        proof {
            assert(is_first_free_counter(taken, candidate@, k as nat));
        }
        self.add_name(name.clone());
        name
    }
}

} // verus!

verus! {

impl NamePool {
    /// Reserves each candidate in turn. The names handed out are pairwise distinct, none was
    /// taken before, and a candidate that is free when its turn comes is handed out unchanged.
    pub fn reserve_each(&mut self, candidates: &Vec<String>) -> (r: Vec<String>)
        ensures
            r@.len() == candidates@.len(),
            forall|i: int, j: int| 0 <= i < j < r@.len() ==> r@[i]@ != r@[j]@,
            forall|i: int| 0 <= i < r@.len() ==> !old(self)@.contains(#[trigger] r@[i]@),
            forall|i: int| 0 <= i < r@.len() ==> unique_name(
                old(self)@ + views(r@.subrange(0, i)).to_set(),
                candidates@[i]@,
                #[trigger] r@[i]@,
            ),
            final(self)@ == old(self)@ + views(r@).to_set(),
    {
        let ghost start = self@;
        let mut r: Vec<String> = Vec::new();
        let mut i: usize = 0;
        assert(views(r@).to_set() =~= Set::<Seq<char>>::empty());
        assert(start + Set::<Seq<char>>::empty() =~= start);
        while i < candidates.len()
            invariant
                i <= candidates.len(),
                r@.len() == i,
                self@ == start + views(r@).to_set(),
                forall|a: int, b: int| 0 <= a < b < r@.len() ==> r@[a]@ != r@[b]@,
                forall|a: int| 0 <= a < r@.len() ==> !start.contains(#[trigger] r@[a]@),
                forall|a: int| 0 <= a < r@.len() ==> unique_name(
                    start + views(r@.subrange(0, a)).to_set(),
                    candidates@[a]@,
                    #[trigger] r@[a]@,
                ),
            decreases candidates.len() - i,
        {
            let ghost prev = r@;
            let ghost before = self@;
            let name = self.reserve_unique(candidates[i].clone());
            r.push(name);
            proof {
                assert(r@.subrange(0, i as int) =~= prev);
                assert(views(r@) =~= views(prev).push(r@[i as int]@));
                views(prev).lemma_push_to_set_commute(r@[i as int]@);
                assert(self@ =~= start + views(r@).to_set());
                assert forall|a: int, b: int| 0 <= a < b < r@.len() implies r@[a]@ != r@[b]@ by {
                    if b == i {
                        assert(views(prev).to_set().contains(views(prev)[a]));
                    }
                }
                assert forall|a: int| 0 <= a < r@.len() implies unique_name(
                    start + views(r@.subrange(0, a)).to_set(),
                    candidates@[a]@,
                    #[trigger] r@[a]@,
                ) by {
                    if a < i {
                        assert(r@.subrange(0, a) =~= prev.subrange(0, a));
                        assert(r@[a] == prev[a]);
                    }
                }
            }
            i = i + 1;
        }
        r
    }
}

} // verus!
