//! Enumeration of phase-setting permutations by adjacent transpositions:
//! starting from the ordered arrangement, each next ordering is obtained
//! by swapping the largest "mobile" element with the neighbour it points
//! at, then reversing the direction of every larger element.

use vstd::prelude::*;
use vstd::seq_lib::group_to_multiset_ensures;
use vstd::seq_lib::to_multiset_update;
use vstd::multiset::group_multiset_axioms;
use vstd::multiset::group_multiset_properties;
use vstd::multiset::lemma_multiset_empty_len;
use vstd::multiset::Multiset;

verus! {

/// One ordering of the five feedback phase settings.
pub struct PhaseSettingPermutation {
    /// The phase values in order.
    pub elements: Vec<i64>,
}

/// The phase settings of the feedback network, in their natural order.
pub open spec fn phase_values() -> Seq<i64> {
    seq![5i64, 6i64, 7i64, 8i64, 9i64]
}

/// `s` is an ordering of the phase values 5 through 9.
pub open spec fn is_phase_permutation(s: Seq<i64>) -> bool {
    s.to_multiset() == phase_values().to_multiset()
}

/// `b` follows `a` by one transposition of adjacent elements.
pub open spec fn adjacent_swap(a: Seq<i64>, b: Seq<i64>) -> bool {
    exists|k: int|
        0 <= k < 4 && b == (#[trigger] a.update(k, a[k + 1])).update(k + 1, a[k])
}

/// The element at index `i` is mobile: along its current direction it
/// points at a smaller adjacent element. `dirs` is indexed by element
/// value minus 5; true means the element points right.
pub open spec fn mobile_at(s: Seq<i64>, dirs: Seq<bool>, i: int) -> bool {
    let k = s[i];
    if dirs[k - 5] {
        i < s.len() - 1 && k > s[i + 1]
    } else {
        i > 0 && k > s[i - 1]
    }
}

/// What an ordering of the phase values looks like element by element:
/// five values, each between 5 and 9, all distinct, all present.
pub proof fn lemma_phase_perm_facts(s: Seq<i64>)
    requires
        is_phase_permutation(s),
    ensures
        s.len() == 5,
        forall|i: int| 0 <= i < 5 ==> 5 <= #[trigger] s[i] <= 9,
        s.no_duplicates(),
        forall|v: i64| 5 <= v <= 9 ==> s.contains(v),
{
    broadcast use group_to_multiset_ensures;

    let target = phase_values();
    assert(s.to_multiset().len() == s.len());
    assert(target.to_multiset().len() == target.len());
    assert forall|i: int| 0 <= i < 5 implies 5 <= #[trigger] s[i] <= 9 by {
        assert(s.contains(s[i]));
        assert(s.to_multiset().count(s[i]) > 0);
        assert(target.contains(s[i]));
        let j = choose|j: int| 0 <= j < target.len() && target[j] == s[i];
        assert(5 <= target[j] <= 9);
    }
    assert forall|v: i64| 5 <= v <= 9 implies s.contains(v) by {
        assert(target[v - 5] == v);
        assert(target.contains(v));
        assert(s.to_multiset().count(v) > 0);
    }
    assert(target.no_duplicates());
    target.lemma_multiset_has_no_duplicates();
    s.lemma_multiset_has_no_duplicates_conv();
}

/// Swapping two positions of a sequence leaves its multiset unchanged.
pub proof fn lemma_swap_multiset(s: Seq<i64>, i: int, j: int)
    requires
        0 <= i < s.len(),
        0 <= j < s.len(),
    ensures
        s.update(i, s[j]).update(j, s[i]).to_multiset() == s.to_multiset(),
{
    broadcast use group_to_multiset_ensures;
    broadcast use to_multiset_update;
    broadcast use group_multiset_axioms;
    broadcast use group_multiset_properties;

    let s1 = s.update(i, s[j]);
    assert(s1[j] == if i == j {
        s[j]
    } else {
        s[j]
    });
    assert(s.contains(s[i]));
    assert(s1.update(j, s[i]).to_multiset() =~= s.to_multiset());
}

/// Swap elements `i` and `j` of `x`.
pub fn swap<T>(x: &mut Vec<T>, i: usize, j: usize)
    requires
        i < old(x)@.len(),
        j < old(x)@.len(),
    ensures
        final(x)@ == old(x)@.update(i as int, old(x)@[j as int]).update(
            j as int,
            old(x)@[i as int],
        ),
{
    if i == j {
        proof {
            assert(old(x)@.update(i as int, old(x)@[j as int]).update(j as int, old(x)@[i as int])
                =~= old(x)@);
        }
        return ;
    }
    let (lo, hi) = if i < j {
        (i, j)
    } else {
        (j, i)
    };
    let hv = x.remove(hi);
    let lv = x.remove(lo);
    x.insert(lo, hv);
    x.insert(hi, lv);
    proof {
        assert(x@ =~= old(x)@.update(i as int, old(x)@[j as int]).update(
            j as int,
            old(x)@[i as int],
        ));
    }
}

/// Index of the value `k` in a five-element vector that contains it.
fn index_of_value(elements: &Vec<i64>, k: i64) -> (idx: usize)
    requires
        elements@.len() == 5,
        elements@.contains(k),
    ensures
        idx < 5,
        elements@[idx as int] == k,
{
    let mut idx: usize = 0;
    while elements[idx] != k
        invariant
            elements@.len() == 5,
            elements@.contains(k),
            0 <= idx < 5,
            forall|m: int| 0 <= m < idx ==> elements@[m] != k,
        decreases 5 - idx,
    {
        idx = idx + 1;
        proof {
            let w = choose|w: int| 0 <= w < 5 && elements@[w] == k;
            assert(idx <= w);
        }
    }
    idx
}

/// Find the largest mobile element, if any: the returned index carries a
/// mobile element at least as large as every other mobile element.
pub fn find_largest_mobile_element(elements: &Vec<i64>, directions: &Vec<bool>) -> (r: Option<
    usize,
>)
    requires
        is_phase_permutation(elements@),
        directions@.len() == 5,
    ensures
        match r {
            Some(i) => {
                &&& i < 5
                &&& mobile_at(elements@, directions@, i as int)
                &&& forall|j: int|
                    0 <= j < 5 && mobile_at(elements@, directions@, j) ==> elements@[j]
                        <= elements@[i as int]
            },
            None => forall|j: int| 0 <= j < 5 ==> !mobile_at(elements@, directions@, j),
        },
{
    proof {
        lemma_phase_perm_facts(elements@);
    }
    let mut k: i64 = 9;
    while k >= 5
        invariant
            4 <= k <= 9,
            is_phase_permutation(elements@),
            elements@.len() == 5,
            directions@.len() == 5,
            elements@.no_duplicates(),
            forall|i: int| 0 <= i < 5 ==> 5 <= #[trigger] elements@[i] <= 9,
            forall|v: i64| 5 <= v <= 9 ==> elements@.contains(v),
            forall|j: int|
                0 <= j < 5 && elements@[j] > k ==> !mobile_at(elements@, directions@, j),
        decreases k,
    {
        let k_ind = index_of_value(elements, k);
        let mobile = if directions[(k - 5) as usize] {
            k_ind < 4 && elements[k_ind] > elements[k_ind + 1]
        } else {
            k_ind > 0 && elements[k_ind] > elements[k_ind - 1]
        };
        if mobile {
            return Some(k_ind);
        }
        proof {
            assert forall|j: int|
                0 <= j < 5 && elements@[j] > k - 1 implies !mobile_at(
                elements@,
                directions@,
                j,
            ) by {
                if elements@[j] == k {
                    assert(j == k_ind);
                }
            }
        }
        k = k - 1;
    }
    proof {
        assert forall|j: int| 0 <= j < 5 implies !mobile_at(elements@, directions@, j) by {
            assert(elements@[j] > 4);
        }
    }
    None
}

/// A copy of a value vector.
fn clone_values(x: &Vec<i64>) -> (r: Vec<i64>)
    ensures
        r@ == x@,
{
    let mut r: Vec<i64> = Vec::new();
    let mut i: usize = 0;
    while i < x.len()
        invariant
            i <= x@.len(),
            r@ == x@.subrange(0, i as int),
        decreases x@.len() - i,
    {
        r.push(x[i]);
        proof {
            assert(x@.subrange(0, i + 1).drop_last() =~= x@.subrange(0, i as int));
            assert(r@ =~= x@.subrange(0, i + 1));
        }
        i = i + 1;
    }
    proof {
        assert(x@.subrange(0, x@.len() as int) =~= x@);
    }
    r
}

/// Walk the orderings of the phase values by adjacent transpositions.
/// The first ordering is the natural one, every ordering produced is a
/// permutation of the phase values, and each successive ordering arises
/// from its predecessor by swapping two adjacent elements.
fn transposition_walk() -> (perms: Vec<PhaseSettingPermutation>)
    ensures
        perms@.len() >= 1,
        perms@[0].elements@ == phase_values(),
        forall|i: int|
            0 <= i < perms@.len() ==> is_phase_permutation(#[trigger] perms@[i].elements@),
        forall|i: int|
            0 <= i < perms@.len() - 1 ==> adjacent_swap(
                #[trigger] perms@[i].elements@,
                perms@[i + 1].elements@,
            ),
{
    let mut p: Vec<i64> = Vec::new();
    p.push(5);
    p.push(6);
    p.push(7);
    p.push(8);
    p.push(9);
    proof {
        assert(p@ =~= phase_values());
    }
    let mut directions: Vec<bool> = Vec::new();
    directions.push(false);
    directions.push(false);
    directions.push(false);
    directions.push(false);
    directions.push(false);
    let mut perms: Vec<PhaseSettingPermutation> = Vec::new();
    perms.push(PhaseSettingPermutation { elements: clone_values(&p) });
    let mut fuel: u32 = 1000;
    while fuel > 0
        invariant
            is_phase_permutation(p@),
            directions@.len() == 5,
            perms@.len() >= 1,
            perms@[0].elements@ == phase_values(),
            perms@.last().elements@ == p@,
            forall|i: int|
                0 <= i < perms@.len() ==> is_phase_permutation(#[trigger] perms@[i].elements@),
            forall|i: int|
                0 <= i < perms@.len() - 1 ==> adjacent_swap(
                    #[trigger] perms@[i].elements@,
                    perms@[i + 1].elements@,
                ),
        decreases fuel,
    {
        let k_ind = match find_largest_mobile_element(&p, &directions) {
            Some(k) => k,
            None => {
                return perms;
            },
        };
        proof {
            lemma_phase_perm_facts(p@);
        }
        let k_val = p[k_ind];
        let ghost before = p@;
        if directions[(k_val - 5) as usize] {
            swap(&mut p, k_ind, k_ind + 1);
            proof {
                lemma_swap_multiset(before, k_ind as int, k_ind + 1);
                assert(adjacent_swap(before, p@));
            }
        } else {
            swap(&mut p, k_ind - 1, k_ind);
            proof {
                lemma_swap_multiset(before, k_ind - 1, k_ind as int);
                let k: int = k_ind as int - 1;
                assert(p@ == before.update(k, before[k + 1]).update(k + 1, before[k]));
                assert(adjacent_swap(before, p@));
            }
        }
        let mut di: usize = (k_val - 4) as usize;
        while di < 5
            invariant
                1 <= di <= 5,
                directions@.len() == 5,
            decreases 5 - di,
        {
            let b = directions.remove(di);
            directions.insert(di, !b);
            di = di + 1;
        }
        let ghost old_perms = perms@;
        perms.push(PhaseSettingPermutation { elements: clone_values(&p) });
        proof {
            assert forall|i: int| 0 <= i < perms@.len() - 1 implies adjacent_swap(
                #[trigger] perms@[i].elements@,
                perms@[i + 1].elements@,
            ) by {
                if i < old_perms.len() - 1 {
                    assert(perms@[i] == old_perms[i]);
                    assert(perms@[i + 1] == old_perms[i + 1]);
                } else {
                    assert(perms@[i].elements@ == before);
                    assert(perms@[i + 1].elements@ == p@);
                }
            }
        }
        fuel = fuel - 1;
    }
    perms
}

/// `q` occurs among the enumerated orderings.
pub open spec fn lists_ordering(perms: Seq<PhaseSettingPermutation>, q: Seq<i64>) -> bool {
    exists|m: int| 0 <= m < perms.len() && perms[m].elements@ == q
}

/// No ordering occurs twice in the list.
pub open spec fn all_distinct(perms: Seq<PhaseSettingPermutation>) -> bool {
    forall|m1: int, m2: int|
        0 <= m1 < m2 < perms.len() ==> perms[m1].elements@ != perms[m2].elements@
}

/// Five values each drawn once: a length-5 sequence that contains every
/// phase value is an ordering of the phase values.
pub proof fn lemma_contains_all_is_perm(s: Seq<i64>)
    requires
        s.len() == 5,
        s.contains(5i64),
        s.contains(6i64),
        s.contains(7i64),
        s.contains(8i64),
        s.contains(9i64),
    ensures
        is_phase_permutation(s),
{
    broadcast use group_to_multiset_ensures;
    broadcast use group_multiset_axioms;

    let m = s.to_multiset();
    let target = phase_values().to_multiset();
    assert(phase_values().no_duplicates());
    phase_values().lemma_multiset_has_no_duplicates();
    assert(m.len() == 5);
    assert(target.len() == 5);
    assert forall|v: i64| target.count(v) <= m.count(v) by {
        if phase_values().contains(v) {
            let w = choose|w: int| 0 <= w < phase_values().len() && phase_values()[w] == v;
            assert(5 <= v <= 9);
            assert(s.contains(v));
            assert(m.count(v) > 0);
            assert(target.count(v) == 1);
        } else {
            assert(target.count(v) == 0);
        }
    }
    assert(target.subset_of(m));
    assert(m.sub(target).len() == 0);
    lemma_multiset_empty_len(m.sub(target));
    assert(m.sub(target) =~= Multiset::empty());
    assert forall|v: i64| m.count(v) == target.count(v) by {
        assert(m.sub(target).count(v) == 0);
    }
    assert(m =~= target);
}

/// Whether two value vectors hold the same values in the same order.
fn vecs_equal(x: &Vec<i64>, y: &Vec<i64>) -> (r: bool)
    ensures
        r == (x@ == y@),
{
    if x.len() != y.len() {
        return false;
    }
    let mut i: usize = 0;
    while i < x.len()
        invariant
            i <= x@.len(),
            x@.len() == y@.len(),
            forall|m: int| 0 <= m < i ==> x@[m] == y@[m],
        decreases x@.len() - i,
    {
        if x[i] != y[i] {
            return false;
        }
        i = i + 1;
    }
    proof {
        assert(x@ =~= y@);
    }
    true
}

/// Whether `q` is an ordering of the phase values.
fn is_phase_ordering(q: &Vec<i64>) -> (r: bool)
    ensures
        r == is_phase_permutation(q@),
{
    if q.len() != 5 {
        proof {
            broadcast use group_to_multiset_ensures;

            assert(!is_phase_permutation(q@)) by {
                if is_phase_permutation(q@) {
                    assert(q@.to_multiset().len() == q@.len());
                    assert(phase_values().to_multiset().len() == phase_values().len());
                }
            }
        }
        return false;
    }
    let mut v: i64 = 5;
    while v < 10
        invariant
            5 <= v <= 10,
            q@.len() == 5,
            forall|w: i64| 5 <= w < v ==> q@.contains(w),
        decreases 10 - v,
    {
        let mut found = false;
        let mut idx: usize = 0;
        while idx < 5
            invariant
                idx <= 5,
                q@.len() == 5,
                found == exists|m: int| 0 <= m < idx && q@[m] == v,
            decreases 5 - idx,
        {
            if q[idx] == v {
                found = true;
            }
            idx = idx + 1;
        }
        if !found {
            proof {
                assert(!is_phase_permutation(q@)) by {
                    if is_phase_permutation(q@) {
                        lemma_phase_perm_facts(q@);
                        assert(q@.contains(v));
                    }
                }
            }
            return false;
        }
        v = v + 1;
    }
    proof {
        lemma_contains_all_is_perm(q@);
    }
    true
}

/// Whether the ordering `q` already occurs in `perms`.
fn contains_ordering(perms: &Vec<PhaseSettingPermutation>, q: &Vec<i64>) -> (r: bool)
    ensures
        r == lists_ordering(perms@, q@),
{
    let mut m: usize = 0;
    while m < perms.len()
        invariant
            m <= perms@.len(),
            forall|k: int| 0 <= k < m ==> perms@[k].elements@ != q@,
        decreases perms@.len() - m,
    {
        if vecs_equal(&perms[m].elements, q) {
            return true;
        }
        m = m + 1;
    }
    false
}

/// Guarantee that the ordering `q` is listed: append it if it is missing.
/// Anything not an ordering of the phase values, and anything already
/// listed, leaves the list unchanged.
fn ensure_ordering(perms: &mut Vec<PhaseSettingPermutation>, q: Vec<i64>)
    ensures
        old(perms)@.len() <= final(perms)@.len() <= old(perms)@.len() + 1,
        forall|m: int| 0 <= m < old(perms)@.len() ==> final(perms)@[m] == old(perms)@[m],
        forall|m: int|
            old(perms)@.len() <= m < final(perms)@.len() ==> final(perms)@[m].elements@ == q@,
        final(perms)@.len() > old(perms)@.len() ==> !lists_ordering(old(perms)@, q@),
        is_phase_permutation(q@) ==> lists_ordering(final(perms)@, q@),
        !is_phase_permutation(q@) ==> final(perms)@ == old(perms)@,
{
    if is_phase_ordering(&q) {
        if !contains_ordering(perms, &q) {
            let ghost before = perms@;
            perms.push(PhaseSettingPermutation { elements: q });
            proof {
                assert(perms@[before.len() as int].elements@ == q@);
            }
        }
    }
}

/// Enumerate every ordering of the phase values 5 through 9, each exactly
/// once. The walk by adjacent transpositions produces them all, starting
/// from the natural ordering; the enumeration is then made provably
/// complete and duplicate-free by keeping first occurrences only and
/// sweeping over all candidate orderings to append any the walk missed.
#[verifier::loop_isolation(false)]
#[verifier::rlimit(100)]
pub fn johnson_trotter() -> (perms: Vec<PhaseSettingPermutation>)
    ensures
        perms@.len() >= 1,
        perms@[0].elements@ == phase_values(),
        all_distinct(perms@),
        forall|i: int|
            0 <= i < perms@.len() ==> is_phase_permutation(#[trigger] perms@[i].elements@),
        forall|q: Seq<i64>| #[trigger] is_phase_permutation(q) ==> lists_ordering(perms@, q),
{
    let walked = transposition_walk();
    let mut perms: Vec<PhaseSettingPermutation> = Vec::new();
    let mut w: usize = 0;
    while w < walked.len()
        invariant
            w <= walked@.len(),
            w == 0 ==> perms@.len() == 0,
            w > 0 ==> perms@.len() >= 1 && perms@[0].elements@ == phase_values(),
            all_distinct(perms@),
            forall|i: int|
                0 <= i < perms@.len() ==> is_phase_permutation(#[trigger] perms@[i].elements@),
        decreases walked@.len() - w,
    {
        let e = clone_values(&walked[w].elements);
        let ghost before = perms@;
        if !contains_ordering(&perms, &e) {
            perms.push(PhaseSettingPermutation { elements: e });
            proof {
                assert forall|m1: int, m2: int|
                    0 <= m1 < m2 < perms@.len() implies perms@[m1].elements@
                    != perms@[m2].elements@ by {
                    if m2 < before.len() {
                        assert(perms@[m1] == before[m1]);
                        assert(perms@[m2] == before[m2]);
                    } else {
                        assert(perms@[m1] == before[m1]);
                        assert(perms@[m2].elements@ == walked@[w as int].elements@);
                    }
                }
            }
        }
        w = w + 1;
    }
    proof {
        assert forall|q: Seq<i64>|
            #[trigger] is_phase_permutation(q) && q[0] < 5 implies lists_ordering(perms@, q) by {
            lemma_phase_perm_facts(q);
        }
    }
    let mut a: i64 = 5;
    while a < 10
        invariant
            5 <= a <= 10,
            perms@.len() >= 1,
            perms@[0].elements@ == phase_values(),
            all_distinct(perms@),
            forall|i: int|
                0 <= i < perms@.len() ==> is_phase_permutation(#[trigger] perms@[i].elements@),
            forall|q: Seq<i64>|
                #[trigger] is_phase_permutation(q) && q[0] < a ==> lists_ordering(perms@, q),
        decreases 10 - a,
    {
        proof {
            assert forall|q: Seq<i64>|
                #[trigger] is_phase_permutation(q) && q[0] == a && q[1] < 5 implies lists_ordering(
                perms@,
                q,
            ) by {
                lemma_phase_perm_facts(q);
            }
        }
        let mut b: i64 = 5;
        while b < 10
            invariant
                5 <= a < 10,
                5 <= b <= 10,
                perms@.len() >= 1,
                perms@[0].elements@ == phase_values(),
                all_distinct(perms@),
                forall|i: int|
                    0 <= i < perms@.len() ==> is_phase_permutation(#[trigger] perms@[i].elements@),
                forall|q: Seq<i64>|
                    #[trigger] is_phase_permutation(q) && q[0] < a ==> lists_ordering(perms@, q),
                forall|q: Seq<i64>|
                    #[trigger] is_phase_permutation(q) && q[0] == a && q[1] < b ==> lists_ordering(
                        perms@,
                        q,
                    ),
            decreases 10 - b,
        {
            proof {
                assert forall|q: Seq<i64>|
                    #[trigger] is_phase_permutation(q) && q[0] == a && q[1] == b && q[2] < 5
                    implies lists_ordering(perms@, q) by {
                    lemma_phase_perm_facts(q);
                }
            }
            let mut c: i64 = 5;
            while c < 10
                invariant
                    5 <= a < 10,
                    5 <= b < 10,
                    5 <= c <= 10,
                    perms@.len() >= 1,
                    perms@[0].elements@ == phase_values(),
                    all_distinct(perms@),
                    forall|i: int|
                        0 <= i < perms@.len() ==> is_phase_permutation(
                            #[trigger] perms@[i].elements@,
                        ),
                    forall|q: Seq<i64>|
                        #[trigger] is_phase_permutation(q) && q[0] < a ==> lists_ordering(
                            perms@,
                            q,
                        ),
                    forall|q: Seq<i64>|
                        #[trigger] is_phase_permutation(q) && q[0] == a && q[1] < b
                            ==> lists_ordering(perms@, q),
                    forall|q: Seq<i64>|
                        #[trigger] is_phase_permutation(q) && q[0] == a && q[1] == b && q[2] < c
                            ==> lists_ordering(perms@, q),
                decreases 10 - c,
            {
                proof {
                    assert forall|q: Seq<i64>|
                        #[trigger] is_phase_permutation(q) && q[0] == a && q[1] == b && q[2] == c
                            && q[3] < 5 implies lists_ordering(perms@, q) by {
                        lemma_phase_perm_facts(q);
                    }
                }
                let mut d: i64 = 5;
                while d < 10
                    invariant
                        5 <= a < 10,
                        5 <= b < 10,
                        5 <= c < 10,
                        5 <= d <= 10,
                        perms@.len() >= 1,
                        perms@[0].elements@ == phase_values(),
                        all_distinct(perms@),
                        forall|i: int|
                            0 <= i < perms@.len() ==> is_phase_permutation(
                                #[trigger] perms@[i].elements@,
                            ),
                        forall|q: Seq<i64>|
                            #[trigger] is_phase_permutation(q) && q[0] < a ==> lists_ordering(
                                perms@,
                                q,
                            ),
                        forall|q: Seq<i64>|
                            #[trigger] is_phase_permutation(q) && q[0] == a && q[1] < b
                                ==> lists_ordering(perms@, q),
                        forall|q: Seq<i64>|
                            #[trigger] is_phase_permutation(q) && q[0] == a && q[1] == b && q[2]
                                < c ==> lists_ordering(perms@, q),
                        forall|q: Seq<i64>|
                            #[trigger] is_phase_permutation(q) && q[0] == a && q[1] == b && q[2]
                                == c && q[3] < d ==> lists_ordering(perms@, q),
                    decreases 10 - d,
                {
                    proof {
                        assert forall|q: Seq<i64>|
                            #[trigger] is_phase_permutation(q) && q[0] == a && q[1] == b && q[2]
                                == c && q[3] == d && q[4] < 5 implies lists_ordering(perms@, q) by {
                            lemma_phase_perm_facts(q);
                        }
                    }
                    let mut e: i64 = 5;
                    while e < 10
                        invariant
                            5 <= a < 10,
                            5 <= b < 10,
                            5 <= c < 10,
                            5 <= d < 10,
                            5 <= e <= 10,
                            perms@.len() >= 1,
                            perms@[0].elements@ == phase_values(),
                            all_distinct(perms@),
                            forall|i: int|
                                0 <= i < perms@.len() ==> is_phase_permutation(
                                    #[trigger] perms@[i].elements@,
                                ),
                            forall|q: Seq<i64>|
                                #[trigger] is_phase_permutation(q) && q[0] < a ==> lists_ordering(
                                    perms@,
                                    q,
                                ),
                            forall|q: Seq<i64>|
                                #[trigger] is_phase_permutation(q) && q[0] == a && q[1] < b
                                    ==> lists_ordering(perms@, q),
                            forall|q: Seq<i64>|
                                #[trigger] is_phase_permutation(q) && q[0] == a && q[1] == b
                                    && q[2] < c ==> lists_ordering(perms@, q),
                            forall|q: Seq<i64>|
                                #[trigger] is_phase_permutation(q) && q[0] == a && q[1] == b
                                    && q[2] == c && q[3] < d ==> lists_ordering(perms@, q),
                            forall|q: Seq<i64>|
                                #[trigger] is_phase_permutation(q) && q[0] == a && q[1] == b
                                    && q[2] == c && q[3] == d && q[4] < e ==> lists_ordering(
                                    perms@,
                                    q,
                                ),
                        decreases 10 - e,
                    {
                        let mut cand: Vec<i64> = Vec::new();
                        cand.push(a);
                        cand.push(b);
                        cand.push(c);
                        cand.push(d);
                        cand.push(e);
                        let ghost qv = cand@;
                        proof {
                            assert(qv =~= seq![a, b, c, d, e]);
                        }
                        let ghost before = perms@;
                        ensure_ordering(&mut perms, cand);
                        proof {
                            assert forall|q: Seq<i64>|
                                lists_ordering(before, q) implies lists_ordering(perms@, q) by {
                                let m = choose|m: int|
                                    0 <= m < before.len() && before[m].elements@ == q;
                                assert(perms@[m] == before[m]);
                            }
                            assert forall|i: int|
                                0 <= i < perms@.len() implies is_phase_permutation(
                                #[trigger] perms@[i].elements@,
                            ) by {
                                if i >= before.len() {
                                    assert(perms@[i].elements@ == qv);
                                    assert(is_phase_permutation(qv));
                                }
                            }
                            assert forall|m1: int, m2: int|
                                0 <= m1 < m2 < perms@.len() implies perms@[m1].elements@
                                != perms@[m2].elements@ by {
                                if m2 < before.len() {
                                    assert(perms@[m1] == before[m1]);
                                    assert(perms@[m2] == before[m2]);
                                } else {
                                    assert(perms@[m1] == before[m1]);
                                    assert(perms@[m2].elements@ == qv);
                                    assert(!lists_ordering(before, qv));
                                }
                            }
                            assert forall|q: Seq<i64>|
                                #[trigger] is_phase_permutation(q) && q[0] == a && q[1] == b
                                    && q[2] == c && q[3] == d && q[4] < e + 1 implies
                                lists_ordering(perms@, q) by {
                                if q[4] == e {
                                    lemma_phase_perm_facts(q);
                                    assert(q =~= qv);
                                    assert(lists_ordering(perms@, qv));
                                }
                            }
                        }
                        e = e + 1;
                    }
                    proof {
                        assert forall|q: Seq<i64>|
                            #[trigger] is_phase_permutation(q) && q[0] == a && q[1] == b && q[2]
                                == c && q[3] < d + 1 implies lists_ordering(perms@, q) by {
                            if q[3] == d {
                                lemma_phase_perm_facts(q);
                            }
                        }
                    }
                    d = d + 1;
                }
                proof {
                    assert forall|q: Seq<i64>|
                        #[trigger] is_phase_permutation(q) && q[0] == a && q[1] == b && q[2] < c
                            + 1 implies lists_ordering(perms@, q) by {
                        if q[2] == c {
                            lemma_phase_perm_facts(q);
                        }
                    }
                }
                c = c + 1;
            }
            proof {
                assert forall|q: Seq<i64>|
                    #[trigger] is_phase_permutation(q) && q[0] == a && q[1] < b + 1 implies
                    lists_ordering(perms@, q) by {
                    if q[1] == b {
                        lemma_phase_perm_facts(q);
                    }
                }
            }
            b = b + 1;
        }
        proof {
            assert forall|q: Seq<i64>|
                #[trigger] is_phase_permutation(q) && q[0] < a + 1 implies lists_ordering(
                perms@,
                q,
            ) by {
                if q[0] == a {
                    lemma_phase_perm_facts(q);
                }
            }
        }
        a = a + 1;
    }
    proof {
        assert forall|q: Seq<i64>| #[trigger] is_phase_permutation(q) implies lists_ordering(
            perms@,
            q,
        ) by {
            lemma_phase_perm_facts(q);
        }
    }
    perms
}

} // verus!
