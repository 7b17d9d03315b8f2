//! Ranking: the first results of a stable sort by score, highest first.
use vstd::prelude::*;

verus! {

/// Whether the item at `a` comes before the item at `b` when sorting stably by
/// key, highest first: a higher key, or the same key and an earlier place.
pub open spec fn ranks_before(keys: Seq<i64>, a: int, b: int) -> bool {
    keys[a] > keys[b] || (keys[a] == keys[b] && a < b)
}

/// Whether `r` lists the first `k` places (or all, where there are fewer) of the
/// items with keys `keys`, sorted stably by key, highest first.
pub open spec fn is_top(keys: Seq<i64>, k: nat, r: Seq<usize>) -> bool {
    &&& r.len() == if k < keys.len() {
        k
    } else {
        keys.len()
    }
    &&& forall|j: int| 0 <= j < r.len() ==> #[trigger] r[j] < keys.len()
    &&& forall|j: int, t: int| 0 <= j < t < r.len() ==> ranks_before(keys, r[j] as int, r[t] as int)
    &&& forall|i: int, j: int|
        0 <= i < keys.len() && 0 <= j < r.len() && !r.contains(i as usize) ==> #[trigger] ranks_before(
            keys,
            r[j] as int,
            i,
        )
}

/// The places of the first `k` items by key, highest first, ties in order of place.
pub fn top_places(keys: &Vec<i64>, k: usize) -> (r: Vec<usize>)
    ensures
        is_top(keys@, k as nat, r@),
{
    let n = keys.len();
    let want = if k < n {
        k
    } else {
        n
    };
    let mut chosen: Vec<bool> = Vec::new();
    let mut t: usize = 0;
    while t < n
        invariant
            t <= n,
            n == keys.len(),
            chosen@.len() == t,
            forall|i: int| 0 <= i < t ==> !chosen@[i],
        decreases n - t,
    {
        chosen.push(false);
        t = t + 1;
    }
    let mut r: Vec<usize> = Vec::new();
    proof {
        lemma_count_set_none(chosen@);
    }
    while r.len() < want
        invariant
            want <= n,
            n == keys.len(),
            want == (if k < n { k } else { n }),
            r.len() <= want,
            chosen@.len() == n,
            forall|i: int| 0 <= i < n ==> (chosen@[i] <==> r@.contains(i as usize)),
            count_set(chosen@) == r.len(),
            forall|j: int| 0 <= j < r.len() ==> #[trigger] r@[j] < n,
            forall|j: int, t: int| 0 <= j < t < r.len() ==> ranks_before(keys@, r@[j] as int, r@[t] as int),
            forall|i: int, j: int|
                0 <= i < n && 0 <= j < r.len() && !r@.contains(i as usize) ==> #[trigger] ranks_before(
                    keys@,
                    r@[j] as int,
                    i,
                ),
        decreases want - r.len(),
    {
        let mut best: usize = n;
        let mut i: usize = 0;
        while i < n
            invariant
                i <= n,
                n == keys.len(),
                chosen@.len() == n,
                best == n || (best < i && !chosen@[best as int]),
                best == n ==> forall|x: int| 0 <= x < i ==> chosen@[x],
                best < n ==> forall|x: int|
                    0 <= x < i && !chosen@[x] && x != best ==> ranks_before(keys@, best as int, x),
            decreases n - i,
        {
            if !chosen[i] {
                if best == n || keys[i] > keys[best] {
                    best = i;
                }
            }
            i = i + 1;
        }
        proof {
            if best == n {
                // Every place would be chosen, yet fewer than `n` are.
                lemma_count_set_all(chosen@);
                assert(false);
            }
        }
        let ghost old_r = r@;
        let ghost old_chosen = chosen@;
        r.push(best);
        chosen.set(best, true);
        proof {
            lemma_count_set_update(old_chosen, best as int);
            assert(r@ == old_r.push(best));
            assert forall|x: int| 0 <= x < n implies (chosen@[x] <==> r@.contains(x as usize)) by {
                if x == best {
                    assert(r@[old_r.len() as int] == best);
                } else {
                    if r@.contains(x as usize) {
                        let j = choose|j: int| 0 <= j < r@.len() && r@[j] == x as usize;
                        assert(j < old_r.len());
                        assert(old_r.contains(x as usize));
                    }
                    if old_r.contains(x as usize) {
                        let j = choose|j: int| 0 <= j < old_r.len() && old_r[j] == x as usize;
                        assert(r@[j] == x as usize);
                    }
                }
            }
            assert forall|j: int, t: int| 0 <= j < t < r.len() implies ranks_before(keys@, r@[j] as int, r@[t] as int) by {
                if t == old_r.len() {
                    assert(!old_r.contains(best));
                    assert(ranks_before(keys@, old_r[j] as int, best as int));
                }
            }
            assert forall|x: int, j: int|
                0 <= x < n && 0 <= j < r.len() && !r@.contains(x as usize) implies #[trigger] ranks_before(
                    keys@,
                    r@[j] as int,
                    x,
                ) by {
                assert(x != best) by {
                    assert(r@[old_r.len() as int] == best);
                }
                assert(!old_r.contains(x as usize)) by {
                    if old_r.contains(x as usize) {
                        let t = choose|t: int| 0 <= t < old_r.len() && old_r[t] == x as usize;
                        assert(r@[t] == x as usize);
                    }
                }
                if j < old_r.len() {
                    assert(r@[j] == old_r[j]);
                } else {
                    assert(!chosen@[x]);
                }
            }
        }
    }
    r
}

/// The number of marks set in `s`.
pub open spec fn count_set(s: Seq<bool>) -> nat
    decreases s.len(),
{
    if s.len() == 0 {
        0
    } else {
        count_set(s.drop_last()) + if s.last() {
            1nat
        } else {
            0nat
        }
    }
}

/// Setting a mark that was clear adds one to the count.
proof fn lemma_count_set_update(s: Seq<bool>, i: int)
    requires
        0 <= i < s.len(),
        !s[i],
    ensures
        count_set(s.update(i, true)) == count_set(s) + 1,
    decreases s.len(),
{
    let u = s.update(i, true);
    if i == s.len() - 1 {
        assert(u.drop_last() =~= s.drop_last());
    } else {
        lemma_count_set_update(s.drop_last(), i);
        assert(u.drop_last() =~= s.drop_last().update(i, true));
    }
}

/// Where every mark is set, the count is the length.
proof fn lemma_count_set_all(s: Seq<bool>)
    requires
        forall|i: int| 0 <= i < s.len() ==> s[i],
    ensures
        count_set(s) == s.len(),
    decreases s.len(),
{
    if s.len() > 0 {
        lemma_count_set_all(s.drop_last());
    }
}

/// Where no mark is set, the count is zero.
proof fn lemma_count_set_none(s: Seq<bool>)
    requires
        forall|i: int| 0 <= i < s.len() ==> !s[i],
    ensures
        count_set(s) == 0,
    decreases s.len(),
{
    if s.len() > 0 {
        lemma_count_set_none(s.drop_last());
    }
}

} // verus!
