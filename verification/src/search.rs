//! Finding a star by name.

use vstd::prelude::*;

use crate::text::{
    chars_of, contains_chars, contains_seq, first_satisfying, lemma_first_satisfying_absent,
    lemma_first_satisfying_found, lowercase, matches_at, occurs_at, same_chars, starts_with_seq, to_lowercase,
    trim, trimmed,
};

verus! {

/// The names a star is found by.
pub struct StarName {
    pub name: String,
    /// Bayer / Flamsteed designation, e.g. "Alp CMa".
    pub designation: String,
}

pub open spec fn names_view(stars: Seq<StarName>) -> Seq<(Seq<char>, Seq<char>)> {
    stars.map_values(|s: StarName| (s.name@, s.designation@))
}

/// How a star's name answers a lowercased query: 0 exactly, 1 by its
/// beginning, 2 anywhere in it, 3 anywhere in its designation.
pub open spec fn answers(star: (Seq<char>, Seq<char>), q: Seq<char>, how: int) -> bool {
    if how == 0 {
        lowercase(star.0) == q
    } else if how == 1 {
        starts_with_seq(lowercase(star.0), q)
    } else if how == 2 {
        contains_seq(lowercase(star.0), q)
    } else {
        contains_seq(lowercase(star.1), q)
    }
}

/// The first star answering the query in the `how`-th way, else in a
/// later way.
pub open spec fn find_from(stars: Seq<(Seq<char>, Seq<char>)>, q: Seq<char>, how: int) -> Option<int>
    decreases 4 - how,
{
    if how < 0 || how >= 4 {
        None
    } else {
        match first_satisfying(stars.len() as int, |i: int| answers(stars[i], q, how)) {
            Some(i) => Some(i),
            None => find_from(stars, q, how + 1),
        }
    }
}

/// The star a query names: the first whose name equals it, ignoring case
/// and surrounding white space; else the first whose name begins with it;
/// else the first whose name holds it; else the first whose designation
/// holds it. An empty query names none.
pub open spec fn find_spec(stars: Seq<(Seq<char>, Seq<char>)>, q: Seq<char>) -> Option<int> {
    let ql = lowercase(trimmed(q));
    if ql.len() == 0 {
        None
    } else {
        find_from(stars, ql, 0)
    }
}

proof fn lemma_least_answer(v: Seq<(Seq<char>, Seq<char>)>, q: Seq<char>, how: int, w: int)
    requires
        0 <= w < v.len(),
        answers(v[w], q, how),
    ensures
        exists|i: int|
            0 <= i < v.len() && answers(#[trigger] v[i], q, how) && forall|j: int| 0 <= j < i ==> !answers(v[j], q, how),
    decreases w,
{
    if exists|j: int| 0 <= j < w && answers(#[trigger] v[j], q, how) {
        let j = choose|j: int| 0 <= j < w && answers(#[trigger] v[j], q, how);
        lemma_least_answer(v, q, how, j);
    } else {
        assert(answers(v[w], q, how) && forall|j: int| 0 <= j < w ==> !answers(v[j], q, how));
    }
}

/// One way of answering: the first star answering the query that way, or,
/// when none does, the later ways.
proof fn lemma_tier(v: Seq<(Seq<char>, Seq<char>)>, q: Seq<char>, how: int)
    requires
        0 <= how < 4,
    ensures
        (exists|i: int| 0 <= i < v.len() && answers(#[trigger] v[i], q, how)) ==> match find_from(v, q, how) {
            Some(i) => 0 <= i < v.len() && answers(v[i], q, how) && forall|j: int|
                0 <= j < i ==> !answers(#[trigger] v[j], q, how),
            None => false,
        },
        (forall|i: int| 0 <= i < v.len() ==> !answers(#[trigger] v[i], q, how)) ==> find_from(v, q, how)
            == find_from(v, q, how + 1),
{
    let p = |i: int| answers(v[i], q, how);
    if exists|i: int| 0 <= i < v.len() && answers(#[trigger] v[i], q, how) {
        let w = choose|i: int| 0 <= i < v.len() && answers(#[trigger] v[i], q, how);
        lemma_least_answer(v, q, how, w);
        let i = choose|i: int|
            0 <= i < v.len() && answers(#[trigger] v[i], q, how) && forall|j: int| 0 <= j < i ==> !answers(v[j], q, how);
        assert forall|j: int| 0 <= j < i implies !#[trigger] p(j) by {}
        lemma_first_satisfying_found(v.len() as int, p, i);
    }
    if forall|i: int| 0 <= i < v.len() ==> !answers(#[trigger] v[i], q, how) {
        assert forall|j: int| 0 <= j < v.len() implies !#[trigger] p(j) by {}
        lemma_first_satisfying_absent(v.len() as int, p);
    }
}

/// What a search finds, tier by tier, with the query trimmed and both sides
/// compared in lower case: nothing for an empty query; else the first star
/// whose name is the query; else, when none is, the first whose name begins
/// with it; else the first whose name holds it anywhere; else the first
/// whose designation holds it; else nothing.
pub proof fn law_find_tiers(stars: Seq<(Seq<char>, Seq<char>)>, q: Seq<char>)
    ensures
        lowercase(trimmed(q)).len() == 0 ==> find_spec(stars, q) is None,
        lowercase(trimmed(q)).len() > 0 && (exists|i: int|
            0 <= i < stars.len() && lowercase((#[trigger] stars[i]).0) == lowercase(trimmed(q))) ==> match find_spec(
            stars,
            q,
        ) {
            Some(i) => 0 <= i < stars.len() && lowercase(stars[i].0) == lowercase(trimmed(q)) && forall|j: int|
                0 <= j < i ==> lowercase((#[trigger] stars[j]).0) != lowercase(trimmed(q)),
            None => false,
        },
        lowercase(trimmed(q)).len() > 0 && (forall|i: int|
            0 <= i < stars.len() ==> lowercase((#[trigger] stars[i]).0) != lowercase(trimmed(q))) && (exists|i: int|
            0 <= i < stars.len() && lowercase(trimmed(q)).len() <= lowercase((#[trigger] stars[i]).0).len()
                && lowercase(stars[i].0).take(lowercase(trimmed(q)).len() as int) == lowercase(trimmed(q)))
            ==> match find_spec(stars, q) {
            Some(i) => 0 <= i < stars.len() && lowercase(trimmed(q)).len() <= lowercase(stars[i].0).len()
                && lowercase(stars[i].0).take(lowercase(trimmed(q)).len() as int) == lowercase(trimmed(q))
                && forall|j: int|
                0 <= j < i ==> !(lowercase(trimmed(q)).len() <= lowercase((#[trigger] stars[j]).0).len() && lowercase(
                    stars[j].0,
                ).take(lowercase(trimmed(q)).len() as int) == lowercase(trimmed(q))),
            None => false,
        },
        lowercase(trimmed(q)).len() > 0 && (forall|i: int|
            0 <= i < stars.len() ==> !(lowercase(trimmed(q)).len() <= lowercase((#[trigger] stars[i]).0).len()
                && lowercase(stars[i].0).take(lowercase(trimmed(q)).len() as int) == lowercase(trimmed(q)))) && (
        exists|i: int, k: int|
            #![trigger lowercase(stars[i].0).skip(k)]
            0 <= i < stars.len() && 0 <= k && k + lowercase(trimmed(q)).len() <= lowercase(stars[i].0).len()
                && lowercase(stars[i].0).skip(k).take(lowercase(trimmed(q)).len() as int) == lowercase(trimmed(q)))
            ==> match find_spec(stars, q) {
            Some(i) => 0 <= i < stars.len() && (exists|k: int|
                0 <= k && k + lowercase(trimmed(q)).len() <= lowercase(stars[i].0).len() && lowercase(
                    stars[i].0,
                ).skip(k).take(lowercase(trimmed(q)).len() as int) == lowercase(trimmed(q))) && forall|j: int, k: int|
                #![trigger lowercase(stars[j].0).skip(k)]
                0 <= j < i && 0 <= k && k + lowercase(trimmed(q)).len() <= lowercase(stars[j].0).len()
                    ==> lowercase(stars[j].0).skip(k).take(lowercase(trimmed(q)).len() as int) != lowercase(trimmed(q)),
            None => false,
        },
        lowercase(trimmed(q)).len() > 0 && (forall|i: int, k: int|
            #![trigger lowercase(stars[i].0).skip(k)]
            0 <= i < stars.len() && 0 <= k && k + lowercase(trimmed(q)).len() <= lowercase(stars[i].0).len()
                ==> lowercase(stars[i].0).skip(k).take(lowercase(trimmed(q)).len() as int) != lowercase(trimmed(q))) && (
        exists|i: int, k: int|
            #![trigger lowercase(stars[i].1).skip(k)]
            0 <= i < stars.len() && 0 <= k && k + lowercase(trimmed(q)).len() <= lowercase(stars[i].1).len()
                && lowercase(stars[i].1).skip(k).take(lowercase(trimmed(q)).len() as int) == lowercase(trimmed(q)))
            ==> match find_spec(stars, q) {
            Some(i) => 0 <= i < stars.len() && (exists|k: int|
                0 <= k && k + lowercase(trimmed(q)).len() <= lowercase(stars[i].1).len() && lowercase(
                    stars[i].1,
                ).skip(k).take(lowercase(trimmed(q)).len() as int) == lowercase(trimmed(q))) && forall|j: int, k: int|
                #![trigger lowercase(stars[j].1).skip(k)]
                0 <= j < i && 0 <= k && k + lowercase(trimmed(q)).len() <= lowercase(stars[j].1).len()
                    ==> lowercase(stars[j].1).skip(k).take(lowercase(trimmed(q)).len() as int) != lowercase(trimmed(q)),
            None => false,
        },
        (forall|i: int, k: int|
            #![trigger lowercase(stars[i].0).skip(k)]
            0 <= i < stars.len() && 0 <= k && k + lowercase(trimmed(q)).len() <= lowercase(stars[i].0).len()
                ==> lowercase(stars[i].0).skip(k).take(lowercase(trimmed(q)).len() as int) != lowercase(trimmed(q))) && (
        forall|i: int, k: int|
            #![trigger lowercase(stars[i].1).skip(k)]
            0 <= i < stars.len() && 0 <= k && k + lowercase(trimmed(q)).len() <= lowercase(stars[i].1).len()
                ==> lowercase(stars[i].1).skip(k).take(lowercase(trimmed(q)).len() as int) != lowercase(trimmed(q)))
            ==> find_spec(stars, q) is None,
{
    let ql = lowercase(trimmed(q));
    let v = stars;
    if ql.len() > 0 {
        lemma_tier(v, ql, 0);
        lemma_tier(v, ql, 1);
        lemma_tier(v, ql, 2);
        lemma_tier(v, ql, 3);
        assert(find_from(v, ql, 4) is None);
        assert forall|i: int| 0 <= i < v.len() implies (answers(#[trigger] v[i], ql, 1) <==> (ql.len() <= lowercase(
            v[i].0,
        ).len() && lowercase(v[i].0).take(ql.len() as int) == ql)) by {
            if ql.len() <= lowercase(v[i].0).len() {
                assert(lowercase(v[i].0).take(ql.len() as int) =~= lowercase(v[i].0).subrange(0, ql.len() as int));
            }
        }
        assert forall|i: int| 0 <= i < v.len() implies (answers(#[trigger] v[i], ql, 2) <==> exists|k: int|
            0 <= k && k + ql.len() <= lowercase(v[i].0).len() && lowercase(v[i].0).skip(k).take(ql.len() as int) == ql) by {
            if answers(v[i], ql, 2) {
                let k = choose|k: int| occurs_at(lowercase(v[i].0), ql, k);
                assert(lowercase(v[i].0).skip(k).take(ql.len() as int) =~= lowercase(v[i].0).subrange(k, k + ql.len()));
                assert(0 <= k && k + ql.len() <= lowercase(v[i].0).len() && lowercase(v[i].0).skip(k).take(ql.len() as int)
                    == ql);
            }
            if exists|k: int|
                0 <= k && k + ql.len() <= lowercase(v[i].0).len() && lowercase(v[i].0).skip(k).take(ql.len() as int) == ql {
                let k = choose|k: int|
                    0 <= k && k + ql.len() <= lowercase(v[i].0).len() && lowercase(v[i].0).skip(k).take(ql.len() as int)
                        == ql;
                assert(lowercase(v[i].0).skip(k).take(ql.len() as int) =~= lowercase(v[i].0).subrange(k, k + ql.len()));
                assert(occurs_at(lowercase(v[i].0), ql, k));
            }
        }
        assert forall|i: int| 0 <= i < v.len() implies (answers(#[trigger] v[i], ql, 3) <==> exists|k: int|
            0 <= k && k + ql.len() <= lowercase(v[i].1).len() && lowercase(v[i].1).skip(k).take(ql.len() as int) == ql) by {
            if answers(v[i], ql, 3) {
                let k = choose|k: int| occurs_at(lowercase(v[i].1), ql, k);
                assert(lowercase(v[i].1).skip(k).take(ql.len() as int) =~= lowercase(v[i].1).subrange(k, k + ql.len()));
                assert(0 <= k && k + ql.len() <= lowercase(v[i].1).len() && lowercase(v[i].1).skip(k).take(ql.len() as int)
                    == ql);
            }
            if exists|k: int|
                0 <= k && k + ql.len() <= lowercase(v[i].1).len() && lowercase(v[i].1).skip(k).take(ql.len() as int) == ql {
                let k = choose|k: int|
                    0 <= k && k + ql.len() <= lowercase(v[i].1).len() && lowercase(v[i].1).skip(k).take(ql.len() as int)
                        == ql;
                assert(lowercase(v[i].1).skip(k).take(ql.len() as int) =~= lowercase(v[i].1).subrange(k, k + ql.len()));
                assert(occurs_at(lowercase(v[i].1), ql, k));
            }
        }
        assert forall|i: int| 0 <= i < v.len() && answers(#[trigger] v[i], ql, 0) implies answers(v[i], ql, 1) by {
            assert(lowercase(v[i].0).subrange(0, ql.len() as int) =~= ql);
        }
        assert forall|i: int| 0 <= i < v.len() && answers(#[trigger] v[i], ql, 1) implies answers(v[i], ql, 2) by {
            assert(occurs_at(lowercase(v[i].0), ql, 0));
        }
        if (forall|i: int, k: int|
            #![trigger lowercase(v[i].0).skip(k)]
            0 <= i < v.len() && 0 <= k && k + ql.len() <= lowercase(v[i].0).len() ==> lowercase(v[i].0).skip(k).take(
                ql.len() as int,
            ) != ql) {
            assert forall|i: int| 0 <= i < v.len() implies !answers(#[trigger] v[i], ql, 2) by {
                if answers(v[i], ql, 2) {
                    let k = choose|k: int|
                        0 <= k && k + ql.len() <= lowercase(v[i].0).len() && lowercase(v[i].0).skip(k).take(
                            ql.len() as int,
                        ) == ql;
                    assert(lowercase(v[i].0).skip(k).take(ql.len() as int) != ql);
                }
            }
        }
        if (forall|i: int, k: int|
            #![trigger lowercase(v[i].1).skip(k)]
            0 <= i < v.len() && 0 <= k && k + ql.len() <= lowercase(v[i].1).len() ==> lowercase(v[i].1).skip(k).take(
                ql.len() as int,
            ) != ql) {
            assert forall|i: int| 0 <= i < v.len() implies !answers(#[trigger] v[i], ql, 3) by {
                if answers(v[i], ql, 3) {
                    let k = choose|k: int|
                        0 <= k && k + ql.len() <= lowercase(v[i].1).len() && lowercase(v[i].1).skip(k).take(
                            ql.len() as int,
                        ) == ql;
                    assert(lowercase(v[i].1).skip(k).take(ql.len() as int) != ql);
                }
            }
        }
        if exists|i: int, k: int|
            #![trigger lowercase(v[i].0).skip(k)]
            0 <= i < v.len() && 0 <= k && k + ql.len() <= lowercase(v[i].0).len() && lowercase(v[i].0).skip(k).take(
                ql.len() as int,
            ) == ql {
            let (i, k) = choose|i: int, k: int|
                #![trigger lowercase(v[i].0).skip(k)]
                0 <= i < v.len() && 0 <= k && k + ql.len() <= lowercase(v[i].0).len() && lowercase(v[i].0).skip(
                    k,
                ).take(ql.len() as int) == ql;
            assert(answers(v[i], ql, 2));
        }
        if exists|i: int, k: int|
            #![trigger lowercase(v[i].1).skip(k)]
            0 <= i < v.len() && 0 <= k && k + ql.len() <= lowercase(v[i].1).len() && lowercase(v[i].1).skip(k).take(
                ql.len() as int,
            ) == ql {
            let (i, k) = choose|i: int, k: int|
                #![trigger lowercase(v[i].1).skip(k)]
                0 <= i < v.len() && 0 <= k && k + ql.len() <= lowercase(v[i].1).len() && lowercase(v[i].1).skip(
                    k,
                ).take(ql.len() as int) == ql;
            assert(answers(v[i], ql, 3));
        }
        match find_spec(v, q) {
            Some(r) => {
                if 0 <= r < v.len() && answers(v[r], ql, 2) && forall|j: int| 0 <= j < r ==> !answers(#[trigger] v[j], ql, 2) {
                    assert forall|j: int, k: int|
                        #![trigger lowercase(v[j].0).skip(k)]
                        0 <= j < r && 0 <= k && k + ql.len() <= lowercase(v[j].0).len() implies lowercase(v[j].0).skip(
                            k,
                        ).take(ql.len() as int) != ql by {
                        assert(!answers(v[j], ql, 2));
                    }
                }
                if 0 <= r < v.len() && answers(v[r], ql, 3) && forall|j: int| 0 <= j < r ==> !answers(#[trigger] v[j], ql, 3) {
                    assert forall|j: int, k: int|
                        #![trigger lowercase(v[j].1).skip(k)]
                        0 <= j < r && 0 <= k && k + ql.len() <= lowercase(v[j].1).len() implies lowercase(v[j].1).skip(
                            k,
                        ).take(ql.len() as int) != ql by {
                        assert(!answers(v[j], ql, 3));
                    }
                }
            },
            None => {},
        }
    }
}

fn answers_exec(star: &StarName, q: &[char], how: usize) -> (b: bool)
    requires
        how < 4,
    ensures
        b == answers((star.name@, star.designation@), q@, how as int),
{
    if how == 3 {
        let d = to_lowercase(star.designation.as_str());
        let dc = chars_of(d.as_str());
        return contains_chars(dc.as_slice(), q);
    }
    let l = to_lowercase(star.name.as_str());
    let lc = chars_of(l.as_str());
    if how == 0 {
        same_chars(lc.as_slice(), q)
    } else if how == 1 {
        matches_at(lc.as_slice(), q, 0)
    } else {
        contains_chars(lc.as_slice(), q)
    }
}

/// Find a star by name, or part of one; see `find_spec`.
pub fn find(stars: &Vec<StarName>, q: &str) -> (r: Option<usize>)
    ensures
        match find_spec(names_view(stars@), q@) {
            Some(i) => r == Some(i as usize),
            None => r is None,
        },
{
    let t = trim(q);
    let ql = to_lowercase(t.as_str());
    let qc = chars_of(ql.as_str());
    if qc.len() == 0 {
        return None;
    }
    let ghost v = names_view(stars@);
    let n = stars.len();
    let mut how: usize = 0;
    while how < 4
        invariant
            how <= 4,
            n == stars@.len(),
            v == names_view(stars@),
            v.len() == n,
            qc@ == lowercase(trimmed(q@)),
            qc@.len() > 0,
            find_spec(v, q@) == find_from(v, qc@, how as int),
        decreases 4 - how,
    {
        let ghost p = |i: int| answers(v[i], qc@, how as int);
        let mut i: usize = 0;
        while i < n
            invariant
                i <= n,
                how < 4,
                n == stars@.len(),
                v == names_view(stars@),
                v.len() == n,
                p == (|i: int| answers(v[i], qc@, how as int)),
                find_spec(v, q@) == find_from(v, qc@, how as int),
                forall|j: int| 0 <= j < i ==> !#[trigger] p(j),
            decreases n - i,
        {
            let star = &stars[i];
            assert(v[i as int] == (star.name@, star.designation@));
            if answers_exec(star, qc.as_slice(), how) {
                proof {
                    lemma_first_satisfying_found(n as int, p, i as int);
                }
                assert(find_from(v, qc@, how as int) == Some(i as int));
                return Some(i);
            }
            i = i + 1;
        }
        proof {
            lemma_first_satisfying_absent(n as int, p);
        }
        how = how + 1;
    }
    None
}

/// Where a star named exactly `name` stands in the catalog.
pub open spec fn named_spec(stars: Seq<(Seq<char>, Seq<char>)>, name: Seq<char>) -> Option<int> {
    first_satisfying(stars.len() as int, |i: int| stars[i].0 == name)
}

/// The position of the star named exactly `name`.
pub fn position_named(stars: &Vec<StarName>, name: &str) -> (r: Option<usize>)
    ensures
        match named_spec(names_view(stars@), name@) {
            Some(i) => r == Some(i as usize),
            None => r is None,
        },
{
    let target = chars_of(name);
    let ghost v = names_view(stars@);
    let ghost p = |i: int| v[i].0 == name@;
    let n = stars.len();
    let mut i: usize = 0;
    while i < n
        invariant
            i <= n,
            n == stars@.len(),
            v == names_view(stars@),
            target@ == name@,
            p == (|i: int| v[i].0 == name@),
            forall|j: int| 0 <= j < i ==> !#[trigger] p(j),
        decreases n - i,
    {
        let nc = chars_of(stars[i].name.as_str());
        assert(v[i as int].0 == stars@[i as int].name@);
        if same_chars(nc.as_slice(), target.as_slice()) {
            proof {
                lemma_first_satisfying_found(n as int, p, i as int);
            }
            return Some(i);
        }
        i = i + 1;
    }
    proof {
        lemma_first_satisfying_absent(n as int, p);
    }
    None
}

/// The star the explorer opens on: the one the query names, or, with no
/// query, the Sun, else the first star. `None` when the query names none.
pub fn starting_star(stars: &Vec<StarName>, query: Option<&str>) -> (r: Option<usize>)
    ensures
        match query {
            Some(q) => match find_spec(names_view(stars@), q@) {
                Some(i) => r == Some(i as usize),
                None => r is None,
            },
            None => r == Some(
                match named_spec(names_view(stars@), "Sun"@) {
                    Some(i) => i as usize,
                    None => 0usize,
                },
            ),
        },
{
    match query {
        Some(q) => find(stars, q),
        None => match position_named(stars, "Sun") {
            Some(i) => Some(i),
            None => Some(0),
        },
    }
}

} // verus!
