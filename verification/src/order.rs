//! Ordering the catalog for the star lists: by the key the color mode
//! gives each star, then by name.

use vstd::prelude::*;

use crate::csv::views;
use crate::text::chars_of;

verus! {

/// Text order, character by character: how `str`'s `Ord` compares names
/// (UTF-8 keeps the order of the characters).
pub open spec fn name_less(a: Seq<char>, b: Seq<char>) -> bool
    decreases a.len(),
{
    if a.len() == 0 {
        b.len() > 0
    } else if b.len() == 0 {
        false
    } else if a[0] != b[0] {
        a[0] < b[0]
    } else {
        name_less(a.drop_first(), b.drop_first())
    }
}

proof fn lemma_name_less_irreflexive(a: Seq<char>)
    ensures
        !name_less(a, a),
    decreases a.len(),
{
    if a.len() > 0 {
        lemma_name_less_irreflexive(a.drop_first());
    }
}

proof fn lemma_name_less_transitive(a: Seq<char>, b: Seq<char>, c: Seq<char>)
    requires
        name_less(a, b),
        name_less(b, c),
    ensures
        name_less(a, c),
    decreases a.len(),
{
    if a.len() > 0 && b.len() > 0 && c.len() > 0 && a[0] == b[0] && b[0] == c[0] {
        lemma_name_less_transitive(a.drop_first(), b.drop_first(), c.drop_first());
    }
}

proof fn lemma_name_less_total(a: Seq<char>, b: Seq<char>)
    ensures
        a == b || name_less(a, b) || name_less(b, a),
    decreases a.len(),
{
    if a.len() > 0 && b.len() > 0 {
        if a[0] == b[0] {
            lemma_name_less_total(a.drop_first(), b.drop_first());
            if a.drop_first() == b.drop_first() {
                assert(a =~= seq![a[0]] + a.drop_first());
                assert(b =~= seq![b[0]] + b.drop_first());
            }
        } else {
        }
    } else if a.len() == 0 && b.len() == 0 {
        assert(a =~= b);
    }
}

/// Star `i` comes before star `j`: by the mode's key, then by name, then
/// by catalog position (the sort keeps equal stars in catalog order).
pub open spec fn before(keys: Seq<(i64, i64)>, names: Seq<Seq<char>>, i: int, j: int) -> bool {
    if keys[i].0 != keys[j].0 {
        keys[i].0 < keys[j].0
    } else if keys[i].1 != keys[j].1 {
        keys[i].1 < keys[j].1
    } else if names[i] != names[j] {
        name_less(names[i], names[j])
    } else {
        i < j
    }
}

proof fn lemma_before_total(keys: Seq<(i64, i64)>, names: Seq<Seq<char>>, i: int, j: int)
    requires
        i != j,
    ensures
        before(keys, names, i, j) || before(keys, names, j, i),
        !(before(keys, names, i, j) && before(keys, names, j, i)),
{
    lemma_name_less_total(names[i], names[j]);
    if name_less(names[i], names[j]) && name_less(names[j], names[i]) {
        lemma_name_less_transitive(names[i], names[j], names[i]);
        lemma_name_less_irreflexive(names[i]);
    }
}

proof fn lemma_before_transitive(keys: Seq<(i64, i64)>, names: Seq<Seq<char>>, i: int, j: int, k: int)
    requires
        before(keys, names, i, j),
        before(keys, names, j, k),
    ensures
        before(keys, names, i, k),
{
    if name_less(names[i], names[j]) && name_less(names[j], names[k]) {
        lemma_name_less_transitive(names[i], names[j], names[k]);
    }
    if names[i] == names[k] && name_less(names[i], names[j]) && name_less(names[j], names[k]) {
        lemma_name_less_irreflexive(names[i]);
    }
}

fn name_less_exec(a: &[char], b: &[char]) -> (r: bool)
    ensures
        r == name_less(a@, b@),
{
    let n = a.len();
    let m = b.len();
    let mut k: usize = 0;
    assert(a@.skip(0) =~= a@);
    assert(b@.skip(0) =~= b@);
    while k < n && k < m && a[k] == b[k]
        invariant
            k <= n,
            k <= m,
            n == a@.len(),
            m == b@.len(),
            name_less(a@, b@) == name_less(a@.skip(k as int), b@.skip(k as int)),
        decreases n - k,
    {
        assert(a@.skip(k as int).drop_first() =~= a@.skip(k + 1));
        assert(b@.skip(k as int).drop_first() =~= b@.skip(k + 1));
        k = k + 1;
    }
    if k == n {
        k < m
    } else if k == m {
        false
    } else {
        assert(a@.skip(k as int)[0] == a@[k as int]);
        assert(b@.skip(k as int)[0] == b@[k as int]);
        a[k] < b[k]
    }
}

/// The indices `0..n` in the order `before` sets.
pub open spec fn is_ordering(keys: Seq<(i64, i64)>, names: Seq<Seq<char>>, r: Seq<usize>) -> bool {
    &&& r.len() == keys.len()
    &&& forall|a: int| 0 <= a < r.len() ==> (#[trigger] r[a]) < keys.len()
    &&& forall|a: int, b: int| 0 <= a < b < r.len() ==> before(keys, names, #[trigger] r[a] as int, #[trigger] r[b] as int)
}

/// The whole catalog in the order the color mode implies: each star's
/// key (`keys[i]` for star `i`), ascending, then its name; stars equal in
/// both stay in catalog order. Every star appears exactly once.
pub fn order_by_key(keys: &Vec<(i64, i64)>, names: &Vec<String>) -> (order: Vec<usize>)
    requires
        keys@.len() == names@.len(),
    ensures
        is_ordering(keys@, views(names@), order@),
        forall|i: int| 0 <= i < keys@.len() ==> #[trigger] order@.contains(i as usize),
{
    let n = keys.len();
    let ghost nv = views(names@);
    let mut chars: Vec<Vec<char>> = Vec::new();
    let mut c: usize = 0;
    while c < n
        invariant
            c <= n,
            n == keys@.len(),
            n == names@.len(),
            nv == views(names@),
            chars@.len() == c,
            forall|k: int| 0 <= k < c ==> (#[trigger] chars@[k])@ == nv[k],
        decreases n - c,
    {
        chars.push(chars_of(names[c].as_str()));
        c = c + 1;
    }
    let mut r: Vec<usize> = Vec::new();
    let mut i: usize = 0;
    while i < n
        invariant
            i <= n,
            n == keys@.len(),
            nv.len() == n,
            chars@.len() == n,
            forall|k: int| 0 <= k < n ==> (#[trigger] chars@[k])@ == nv[k],
            r@.len() == i,
            forall|a: int| 0 <= a < r@.len() ==> (#[trigger] r@[a]) < i,
            forall|a: int, b: int| 0 <= a < b < r@.len() ==> before(keys@, nv, #[trigger] r@[a] as int, #[trigger] r@[b] as int),
            forall|x: int| 0 <= x < i ==> #[trigger] r@.contains(x as usize),
        decreases n - i,
    {
        let mut p: usize = 0;
        while p < r.len() && comes_before(keys, &chars, r[p], i, Ghost(nv))
            invariant
                p <= r@.len(),
                i < n,
                n == keys@.len(),
                nv.len() == n,
                chars@.len() == n,
                forall|k: int| 0 <= k < n ==> (#[trigger] chars@[k])@ == nv[k],
                forall|a: int| 0 <= a < r@.len() ==> (#[trigger] r@[a]) < i,
                forall|a: int| 0 <= a < p ==> before(keys@, nv, #[trigger] r@[a] as int, i as int),
            decreases r@.len() - p,
        {
            p = p + 1;
        }
        let ghost old_r = r@;
        proof {
            if p < old_r.len() {
                lemma_before_total(keys@, nv, old_r[p as int] as int, i as int);
                assert(before(keys@, nv, i as int, old_r[p as int] as int));
                assert forall|b: int| p < b < old_r.len() implies before(keys@, nv, i as int, #[trigger] old_r[b] as int) by {
                    lemma_before_transitive(keys@, nv, i as int, old_r[p as int] as int, old_r[b] as int);
                }
            }
        }
        r.insert(p, i);
        proof {
            assert(r@ == old_r.insert(p as int, i));
            assert forall|a: int, b: int| 0 <= a < b < r@.len() implies before(keys@, nv, #[trigger] r@[a] as int, #[trigger] r@[b] as int) by {
                if a < p && b < p {
                    assert(r@[a] == old_r[a] && r@[b] == old_r[b]);
                } else if a < p && b == p {
                } else if a < p {
                    assert(r@[a] == old_r[a] && r@[b] == old_r[b - 1]);
                } else if a == p {
                    assert(r@[b] == old_r[b - 1]);
                } else {
                    assert(r@[a] == old_r[a - 1] && r@[b] == old_r[b - 1]);
                }
            }
            assert forall|x: int| 0 <= x < i + 1 implies #[trigger] r@.contains(x as usize) by {
                if x < i {
                    assert(old_r.contains(x as usize));
                    let k = choose|k: int| 0 <= k < old_r.len() && old_r[k] == x as usize;
                    if k < p {
                        assert(r@[k] == x as usize);
                    } else {
                        assert(r@[k + 1] == x as usize);
                    }
                } else {
                    assert(r@[p as int] == i);
                }
            }
            assert forall|a: int| 0 <= a < r@.len() implies (#[trigger] r@[a]) < i + 1 by {
                if a < p {
                    assert(r@[a] == old_r[a]);
                } else if a > p {
                    assert(r@[a] == old_r[a - 1]);
                }
            }
        }
        i = i + 1;
    }
    r
}

/// Whether star `a` comes before star `b`.
fn comes_before(keys: &Vec<(i64, i64)>, chars: &Vec<Vec<char>>, a: usize, b: usize, Ghost(nv): Ghost<Seq<Seq<char>>>) -> (r: bool)
    requires
        a < keys@.len(),
        b < keys@.len(),
        chars@.len() == keys@.len(),
        nv.len() == keys@.len(),
        forall|k: int| 0 <= k < keys@.len() ==> (#[trigger] chars@[k])@ == nv[k],
    ensures
        r == before(keys@, nv, a as int, b as int),
{
    let ka = keys[a];
    let kb = keys[b];
    if ka.0 != kb.0 {
        return ka.0 < kb.0;
    }
    if ka.1 != kb.1 {
        return ka.1 < kb.1;
    }
    let na = chars[a].as_slice();
    let nb = chars[b].as_slice();
    assert(na@ == nv[a as int]);
    assert(nb@ == nv[b as int]);
    if crate::text::same_chars(na, nb) {
        a < b
    } else {
        name_less_exec(na, nb)
    }
}

} // verus!
