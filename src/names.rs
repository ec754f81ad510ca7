use vstd::prelude::*;
use vstd::string::*;

verus! {

/// The character of a decimal digit.
pub open spec fn digit_char(d: nat) -> char {
    if d == 0 {
        '0'
    } else if d == 1 {
        '1'
    } else if d == 2 {
        '2'
    } else if d == 3 {
        '3'
    } else if d == 4 {
        '4'
    } else if d == 5 {
        '5'
    } else if d == 6 {
        '6'
    } else if d == 7 {
        '7'
    } else if d == 8 {
        '8'
    } else {
        '9'
    }
}

/// The base-ten digits of `n`, most significant first, with no leading zero.
pub open spec fn decimal(n: nat) -> Seq<char>
    decreases n,
{
    if n < 10 {
        seq![digit_char(n)]
    } else {
        decimal(n / 10).push(digit_char(n % 10))
    }
}

/// The `k`-th name tried when renaming a binder: `base`, then `base_1`, `base_2`, ...
pub open spec fn candidate(base: Seq<char>, k: nat) -> Seq<char> {
    if k == 0 {
        base
    } else {
        base + seq!['_'] + decimal(k)
    }
}

/// The index of the first candidate from `k` on that `avoid` does not hold, searching up to `bound`.
pub open spec fn first_free(base: Seq<char>, avoid: Set<Seq<char>>, k: nat, bound: nat) -> nat
    decreases bound - k,
{
    if k >= bound || !avoid.contains(candidate(base, k)) {
        k
    } else {
        first_free(base, avoid, k + 1, bound)
    }
}

/// The first of `base`, `base_1`, `base_2`, ... that is not in `avoid`.
pub open spec fn fresh_name_for(base: Seq<char>, avoid: Set<Seq<char>>) -> Seq<char> {
    candidate(base, first_free(base, avoid, 0, avoid.len()))
}

/// The names held by a vector of strings.
pub open spec fn name_set(v: Seq<String>) -> Set<Seq<char>> {
    v.map_values(|s: String| s@).to_set()
}

pub proof fn lemma_name_set_contains(v: Seq<String>, x: Seq<char>)
    ensures
        name_set(v).contains(x) <==> exists|i: int| 0 <= i < v.len() && #[trigger] v[i]@ == x,
{
    let m = v.map_values(|s: String| s@);
    if name_set(v).contains(x) {
        assert(m.contains(x));
        let i = choose|i: int| 0 <= i < m.len() && m[i] == x;
        assert(v[i]@ == x);
    }
    if exists|i: int| 0 <= i < v.len() && #[trigger] v[i]@ == x {
        let i = choose|i: int| 0 <= i < v.len() && #[trigger] v[i]@ == x;
        assert(m[i] == x);
        assert(m.contains(x));
    }
}

proof fn lemma_decimal_len(n: nat)
    ensures
        decimal(n).len() >= 1,
        n >= 10 ==> decimal(n).len() >= 2,
    decreases n,
{
    if n >= 10 {
        lemma_decimal_len(n / 10);
    }
}

proof fn lemma_digit_injective(a: nat, b: nat)
    requires
        a < 10,
        b < 10,
        digit_char(a) == digit_char(b),
    ensures
        a == b,
{
}

proof fn lemma_decimal_injective(j: nat, k: nat)
    requires
        decimal(j) == decimal(k),
    ensures
        j == k,
    decreases j,
{
    lemma_decimal_len(j);
    lemma_decimal_len(k);
    if j < 10 && k < 10 {
        assert(decimal(j)[0] == digit_char(j));
        assert(decimal(k)[0] == digit_char(k));
        lemma_digit_injective(j, k);
    } else if j >= 10 && k >= 10 {
        let dj = decimal(j);
        let dk = decimal(k);
        assert(dj[dj.len() - 1] == dk[dk.len() - 1]);
        lemma_digit_injective(j % 10, k % 10);
        assert(dj.drop_last() =~= decimal(j / 10));
        assert(dk.drop_last() =~= decimal(k / 10));
        lemma_decimal_injective(j / 10, k / 10);
        assert(j == 10 * (j / 10) + j % 10);
        assert(k == 10 * (k / 10) + k % 10);
    } else {
        assert(decimal(j).len() != decimal(k).len());
    }
}

proof fn lemma_candidate_injective(base: Seq<char>, j: nat, k: nat)
    requires
        j != k,
    ensures
        candidate(base, j) != candidate(base, k),
{
    lemma_decimal_len(j);
    lemma_decimal_len(k);
    if j > 0 && k > 0 && candidate(base, j) == candidate(base, k) {
        let cj = candidate(base, j);
        let ck = candidate(base, k);
        let start = (base.len() + 1) as int;
        assert(cj.subrange(start, cj.len() as int) =~= decimal(j));
        assert(ck.subrange(start, ck.len() as int) =~= decimal(k));
        lemma_decimal_injective(j, k);
    }
}

/// Among the first `avoid.len() + 1` candidates, one is missing from a finite `avoid`.
proof fn lemma_some_candidate_free(base: Seq<char>, avoid: Set<Seq<char>>)
    requires
        avoid.finite(),
    ensures
        exists|k: nat| k <= avoid.len() && !avoid.contains(#[trigger] candidate(base, k)),
{
    if forall|k: nat| k <= avoid.len() ==> avoid.contains(#[trigger] candidate(base, k)) {
        let s = Seq::new(avoid.len() + 1, |k: int| candidate(base, k as nat));
        assert forall|a: int, b: int| 0 <= a < s.len() && 0 <= b < s.len() && a != b implies s[a]
            != s[b] by {
            lemma_candidate_injective(base, a as nat, b as nat);
        }
        assert(s.no_duplicates());
        s.unique_seq_to_set();
        assert forall|x: Seq<char>| s.to_set().contains(x) implies avoid.contains(x) by {
            let k = choose|k: int| 0 <= k < s.len() && s[k] == x;
            assert(avoid.contains(candidate(base, k as nat)));
        }
        vstd::set_lib::lemma_len_subset(s.to_set(), avoid);
        assert(false);
    }
}

proof fn lemma_first_free_is(base: Seq<char>, avoid: Set<Seq<char>>, i: nat, k: nat, bound: nat)
    requires
        i <= k <= bound,
        forall|j: nat| i <= j < k ==> avoid.contains(#[trigger] candidate(base, j)),
        !avoid.contains(candidate(base, k)),
    ensures
        first_free(base, avoid, i, bound) == k,
    decreases k - i,
{
    if i < k {
        lemma_first_free_is(base, avoid, i + 1, k, bound);
    }
}

/// The fresh name is missing from `avoid`, and every earlier candidate is in it.
pub proof fn lemma_fresh_name_for(base: Seq<char>, avoid: Set<Seq<char>>)
    requires
        avoid.finite(),
    ensures
        !avoid.contains(fresh_name_for(base, avoid)),
        exists|k: nat|
            fresh_name_for(base, avoid) == candidate(base, k) && forall|j: nat|
                j < k ==> avoid.contains(#[trigger] candidate(base, j)),
{
    lemma_some_candidate_free(base, avoid);
    let k0 = choose|k: nat| k <= avoid.len() && !avoid.contains(#[trigger] candidate(base, k));
    lemma_first_free_search(base, avoid, 0, avoid.len(), k0);
}

proof fn lemma_first_free_search(
    base: Seq<char>,
    avoid: Set<Seq<char>>,
    i: nat,
    bound: nat,
    k0: nat,
)
    requires
        i <= k0 <= bound,
        !avoid.contains(candidate(base, k0)),
    ensures
        !avoid.contains(candidate(base, first_free(base, avoid, i, bound))),
        i <= first_free(base, avoid, i, bound),
        forall|j: nat|
            i <= j < first_free(base, avoid, i, bound) ==> avoid.contains(
                #[trigger] candidate(base, j),
            ),
    decreases bound - i,
{
    if i < bound && avoid.contains(candidate(base, i)) {
        lemma_first_free_search(base, avoid, i + 1, bound, k0);
    }
}

fn digit_str(d: u64) -> (s: &'static str)
    requires
        d < 10,
    ensures
        s@ == seq![digit_char(d as nat)],
{
    proof {
        reveal_strlit("0");
        reveal_strlit("1");
        reveal_strlit("2");
        reveal_strlit("3");
        reveal_strlit("4");
        reveal_strlit("5");
        reveal_strlit("6");
        reveal_strlit("7");
        reveal_strlit("8");
        reveal_strlit("9");
    }
    if d == 0 {
        "0"
    } else if d == 1 {
        "1"
    } else if d == 2 {
        "2"
    } else if d == 3 {
        "3"
    } else if d == 4 {
        "4"
    } else if d == 5 {
        "5"
    } else if d == 6 {
        "6"
    } else if d == 7 {
        "7"
    } else if d == 8 {
        "8"
    } else {
        "9"
    }
}

/// The decimal digits of `n`.
pub fn decimal_string(n: u64) -> (s: String)
    ensures
        s@ == decimal(n as nat),
    decreases n,
{
    if n < 10 {
        String::from_str(digit_str(n))
    } else {
        let mut s = decimal_string(n / 10);
        s.append(digit_str(n % 10));
        s
    }
}

/// The `k`-th candidate for a renamed binder.
fn candidate_string(base: &String, k: u64) -> (s: String)
    ensures
        s@ == candidate(base@, k as nat),
{
    if k == 0 {
        base.clone()
    } else {
        let mut s = base.clone();
        proof {
            reveal_strlit("_");
        }
        s.append("_");
        let d = decimal_string(k);
        s.append(d.as_str());
        proof {
            assert(s@ =~= base@ + seq!['_'] + decimal(k as nat));
        }
        s
    }
}

/// Whether `v` holds the name `x`.
pub fn contains_name(v: &Vec<String>, x: &String) -> (r: bool)
    ensures
        r == name_set(v@).contains(x@),
{
    proof {
        lemma_name_set_contains(v@, x@);
    }
    let mut idx: usize = 0;
    while idx < v.len()
        invariant
            idx <= v.len(),
            forall|j: int| 0 <= j < idx ==> v@[j]@ != x@,
        decreases v.len() - idx,
    {
        let same = v[idx] == *x;
        if same {
            proof {
                assert(v@[idx as int]@ == x@);
                lemma_name_set_contains(v@, x@);
            }
            return true;
        }
        idx += 1;
    }
    false
}

/// Adds `x` to `v` unless it is there already.
pub fn insert_name(v: &mut Vec<String>, x: String)
    ensures
        name_set(final(v)@) == name_set(old(v)@).insert(x@),
{
    if !contains_name(v, &x) {
        let ghost x_view = x@;
        v.push(x);
        proof {
            assert forall|y: Seq<char>|
                name_set(final(v)@).contains(y) == name_set(old(v)@).insert(x_view).contains(
                    y,
                ) by {
                lemma_name_set_contains(v@, y);
                lemma_name_set_contains(old(v)@, y);
                if name_set(old(v)@).contains(y) {
                    let i = choose|i: int| 0 <= i < old(v)@.len() && #[trigger] old(v)@[i]@ == y;
                    assert(v@[i]@ == y);
                }
                if y == x_view {
                    assert(v@[v@.len() - 1]@ == y);
                }
            }
            assert(name_set(v@) =~= name_set(old(v)@).insert(x_view));
        }
    } else {
        proof {
            assert(name_set(v@) =~= name_set(v@).insert(x@));
        }
    }
}

/// Adds every name of `w` to `v`.
pub fn insert_all_names(v: &mut Vec<String>, w: Vec<String>)
    ensures
        name_set(final(v)@) == name_set(old(v)@).union(name_set(w@)),
{
    let mut idx: usize = 0;
    while idx < w.len()
        invariant
            idx <= w.len(),
            name_set(v@) == name_set(old(v)@).union(name_set(w@.subrange(0, idx as int))),
        decreases w.len() - idx,
    {
        let ghost before = v@;
        insert_name(v, w[idx].clone());
        proof {
            assert forall|y: Seq<char>|
                name_set(w@.subrange(0, idx + 1)).contains(y) == name_set(
                    w@.subrange(0, idx as int),
                ).insert(w@[idx as int]@).contains(y) by {
                lemma_name_set_contains(w@.subrange(0, idx + 1), y);
                lemma_name_set_contains(w@.subrange(0, idx as int), y);
                if name_set(w@.subrange(0, idx + 1)).contains(y) {
                    let i = choose|i: int|
                        0 <= i < idx + 1 && #[trigger] w@.subrange(0, idx + 1)[i]@ == y;
                    if i < idx {
                        assert(w@.subrange(0, idx as int)[i]@ == y);
                    }
                }
                if name_set(w@.subrange(0, idx as int)).contains(y) {
                    let i = choose|i: int| 0 <= i < idx && #[trigger] w@.subrange(0, idx as int)[i]@ == y;
                    assert(w@.subrange(0, idx + 1)[i]@ == y);
                }
                if y == w@[idx as int]@ {
                    assert(w@.subrange(0, idx + 1)[idx as int]@ == y);
                }
            }
            assert(name_set(w@.subrange(0, idx + 1)) =~= name_set(w@.subrange(0, idx as int)).insert(
                w@[idx as int]@,
            ));
            assert(name_set(v@) =~= name_set(old(v)@).union(name_set(w@.subrange(0, idx + 1))));
        }
        idx += 1;
    }
    proof {
        assert(w@.subrange(0, w@.len() as int) =~= w@);
    }
}

/// Takes the name `x` out of `v`.
pub fn remove_name(v: Vec<String>, x: &String) -> (r: Vec<String>)
    ensures
        name_set(r@) == name_set(v@).remove(x@),
{
    let mut r: Vec<String> = Vec::new();
    let mut idx: usize = 0;
    while idx < v.len()
        invariant
            idx <= v.len(),
            name_set(r@) == name_set(v@.subrange(0, idx as int)).remove(x@),
        decreases v.len() - idx,
    {
        if v[idx] != *x {
            insert_name(&mut r, v[idx].clone());
        }
        proof {
            assert forall|y: Seq<char>|
                name_set(v@.subrange(0, idx + 1)).contains(y) == name_set(
                    v@.subrange(0, idx as int),
                ).insert(v@[idx as int]@).contains(y) by {
                lemma_name_set_contains(v@.subrange(0, idx + 1), y);
                lemma_name_set_contains(v@.subrange(0, idx as int), y);
                if name_set(v@.subrange(0, idx + 1)).contains(y) {
                    let i = choose|i: int|
                        0 <= i < idx + 1 && #[trigger] v@.subrange(0, idx + 1)[i]@ == y;
                    if i < idx {
                        assert(v@.subrange(0, idx as int)[i]@ == y);
                    }
                }
                if name_set(v@.subrange(0, idx as int)).contains(y) {
                    let i = choose|i: int| 0 <= i < idx && #[trigger] v@.subrange(0, idx as int)[i]@ == y;
                    assert(v@.subrange(0, idx + 1)[i]@ == y);
                }
                if y == v@[idx as int]@ {
                    assert(v@.subrange(0, idx + 1)[idx as int]@ == y);
                }
            }
            assert(name_set(v@.subrange(0, idx + 1)) =~= name_set(v@.subrange(0, idx as int)).insert(
                v@[idx as int]@,
            ));
            assert(name_set(r@) =~= name_set(v@.subrange(0, idx + 1)).remove(x@));
        }
        idx += 1;
    }
    proof {
        assert(v@.subrange(0, v@.len() as int) =~= v@);
    }
    r
}

/// The first of `base`, `base_1`, `base_2`, ... that `avoid` does not hold.
pub fn first_free_name(base: &String, avoid: &Vec<String>) -> (r: String)
    ensures
        r@ == fresh_name_for(base@, name_set(avoid@)),
{
    let ghost set = name_set(avoid@);
    proof {
        avoid@.map_values(|s: String| s@).lemma_cardinality_of_set();
        lemma_some_candidate_free(base@, set);
    }
    let n = avoid.len();
    let mut k: u64 = 0;
    loop
        invariant
            n == avoid@.len(),
            set == name_set(avoid@),
            set.finite(),
            set.len() <= avoid@.len(),
            k <= set.len(),
            forall|j: nat| j < k ==> set.contains(#[trigger] candidate(base@, j)),
            exists|k0: nat| k0 <= set.len() && !set.contains(#[trigger] candidate(base@, k0)),
        decreases set.len() - k,
    {
        let c = candidate_string(base, k);
        if !contains_name(avoid, &c) {
            proof {
                lemma_first_free_is(base@, set, 0, k as nat, set.len());
            }
            return c;
        }
        proof {
            if k as nat == set.len() {
                assert forall|j: nat| j <= set.len() implies set.contains(
                    #[trigger] candidate(base@, j),
                ) by {
                    if j == k as nat {
                    }
                }
                let k0 = choose|k0: nat| k0 <= set.len() && !set.contains(#[trigger] candidate(base@, k0));
                assert(set.contains(candidate(base@, k0)));
                assert(false);
            }
        }
        assert(k < n);
        k = k + 1;
    }
}

} // verus!
