use vstd::prelude::*;

use crate::fuzzy::{
    chars_match, score_order_exec, FuzzyMatch, fuzzy_outcome, greedy, has_upper, int_order, lex_order, run_stats, score_order, FuzzyScore,
};

verus! {

/// The fields by which a fuzzy score ranks, as plain values:
/// `(prefix, max_run, runs, start, label_len, label)`.
pub open spec fn score_key(s: FuzzyScore) -> (bool, int, int, int, int, Seq<char>) {
    (s.prefix, s.max_run as int, s.runs as int, s.start as int, s.label_len as int, s.label@)
}

/// How key `a` ranks against key `b`: 1 when `a` is the better match, -1 when
/// worse, 0 when equal (the order of `score_order`, on keys).
pub open spec fn key_order(
    a: (bool, int, int, int, int, Seq<char>),
    b: (bool, int, int, int, int, Seq<char>),
) -> int {
    if a.0 != b.0 {
        if a.0 {
            1
        } else {
            -1
        }
    } else if a.1 != b.1 {
        int_order(a.1, b.1)
    } else if a.2 != b.2 {
        int_order(b.2, a.2)
    } else if a.3 != b.3 {
        int_order(b.3, a.3)
    } else if a.4 != b.4 {
        int_order(b.4, a.4)
    } else {
        lex_order(b.5, a.5)
    }
}

/// The ranking key of the fuzzy match of `q` against `l`, if there is a match.
pub open spec fn match_key(q: Seq<char>, l: Seq<char>) -> Option<
    (bool, int, int, int, int, Seq<char>),
> {
    if q.len() == 0 {
        Some((true, 0, 0, 0, l.len() as int, l))
    } else {
        match greedy(q, l, 0, 0, has_upper(q)) {
            None => None,
            Some(h) => Some(
                (
                    h[0] == 0,
                    run_stats(h, h.len() as int).1,
                    run_stats(h, h.len() as int).2,
                    h[0] as int,
                    l.len() as int,
                    l,
                ),
            ),
        }
    }
}

/// The label positions that the fuzzy match of `q` against `l` hits.
pub open spec fn match_hits(q: Seq<char>, l: Seq<char>) -> Seq<usize> {
    if q.len() == 0 {
        Seq::empty()
    } else {
        match greedy(q, l, 0, 0, has_upper(q)) {
            None => Seq::empty(),
            Some(h) => h,
        }
    }
}

pub proof fn lemma_score_key(a: FuzzyScore, b: FuzzyScore)
    ensures
        score_order(a, b) == key_order(score_key(a), score_key(b)),
{
}

pub proof fn lemma_outcome_key(q: Seq<char>, l: Seq<char>, r: Option<crate::fuzzy::FuzzyMatch>)
    requires
        fuzzy_outcome(q, l, r),
    ensures
        r is Some <==> match_key(q, l) is Some,
        r is Some ==> score_key(r->0.score) == match_key(q, l)->0,
        r is Some ==> r->0.hits@ == match_hits(q, l),
{
}

/// The hits of a match lie inside the label.
pub proof fn lemma_match_hits_bounds(q: Seq<char>, l: Seq<char>)
    requires
        l.len() <= usize::MAX,
    ensures
        forall|t: int| 0 <= t < match_hits(q, l).len() ==> #[trigger] match_hits(q, l)[t] < l.len(),
{
    if q.len() > 0 {
        crate::fuzzy::lemma_greedy_shape(q, l, 0, 0, has_upper(q));
    }
}

// ---------------------------------------------------------------------------
// The ranking order is a total order
// ---------------------------------------------------------------------------

pub proof fn lemma_lex_antisym(a: Seq<char>, b: Seq<char>)
    ensures
        lex_order(a, b) == -lex_order(b, a),
        -1 <= lex_order(a, b) <= 1,
    decreases a.len(),
{
    if a.len() > 0 && b.len() > 0 && a[0] == b[0] {
        lemma_lex_antisym(a.drop_first(), b.drop_first());
    }
}

pub proof fn lemma_lex_zero(a: Seq<char>, b: Seq<char>)
    requires
        lex_order(a, b) == 0,
    ensures
        a == b,
    decreases a.len(),
{
    if a.len() > 0 && b.len() > 0 {
        lemma_lex_zero(a.drop_first(), b.drop_first());
        assert(a =~= seq![a[0]] + a.drop_first());
        assert(b =~= seq![b[0]] + b.drop_first());
    } else {
        assert(a.len() == 0 && b.len() == 0);
        assert(a =~= b);
    }
}

pub proof fn lemma_lex_trans(a: Seq<char>, b: Seq<char>, c: Seq<char>)
    requires
        lex_order(a, b) > 0,
        lex_order(b, c) > 0,
    ensures
        lex_order(a, c) > 0,
    decreases a.len(),
{
    if a.len() > 0 && b.len() > 0 && c.len() > 0 && a[0] == b[0] && b[0] == c[0] {
        lemma_lex_trans(a.drop_first(), b.drop_first(), c.drop_first());
    }
}

/// Ranking keys compare antisymmetrically.
pub proof fn lemma_key_antisym(
    a: (bool, int, int, int, int, Seq<char>),
    b: (bool, int, int, int, int, Seq<char>),
)
    ensures
        key_order(a, b) == -key_order(b, a),
        -1 <= key_order(a, b) <= 1,
{
    lemma_lex_antisym(b.5, a.5);
}

/// Keys that compare equal are equal.
pub proof fn lemma_key_zero(
    a: (bool, int, int, int, int, Seq<char>),
    b: (bool, int, int, int, int, Seq<char>),
)
    requires
        key_order(a, b) == 0,
    ensures
        a == b,
{
    if a.0 == b.0 && a.1 == b.1 && a.2 == b.2 && a.3 == b.3 && a.4 == b.4 {
        lemma_lex_zero(b.5, a.5);
    }
}

/// The ranking order on keys is transitive.
pub proof fn lemma_key_trans(
    a: (bool, int, int, int, int, Seq<char>),
    b: (bool, int, int, int, int, Seq<char>),
    c: (bool, int, int, int, int, Seq<char>),
)
    requires
        key_order(a, b) > 0,
        key_order(b, c) > 0,
    ensures
        key_order(a, c) > 0,
{
    if a.0 == b.0 && b.0 == c.0 && a.1 == b.1 && b.1 == c.1 && a.2 == b.2 && b.2 == c.2 && a.3
        == b.3 && b.3 == c.3 && a.4 == b.4 && b.4 == c.4 {
        lemma_lex_trans(c.5, b.5, a.5);
    }
}

// ---------------------------------------------------------------------------
// Selecting the best matches
// ---------------------------------------------------------------------------

/// Entry `i` ranks before entry `j`: its key is better, or the keys are equal
/// and `i` comes first (the order of a stable sort, best first).
pub open spec fn ranks_before(
    keys: Seq<Option<(bool, int, int, int, int, Seq<char>)>>,
    i: int,
    j: int,
) -> bool {
    let o = key_order(keys[i]->0, keys[j]->0);
    o > 0 || (o == 0 && i < j)
}

/// Entry `j` has a key (its label matched).
pub open spec fn is_ranked(keys: Seq<Option<(bool, int, int, int, int, Seq<char>)>>, j: int) -> bool {
    0 <= j < keys.len() && keys[j] is Some
}

/// `r` lists the best `k` ranked entries (fewer if fewer are ranked), best
/// first: what sorting the ranked entries best first, stably, and keeping
/// the first `k` gives.
pub open spec fn top_ranked(
    keys: Seq<Option<(bool, int, int, int, int, Seq<char>)>>,
    r: Seq<int>,
    k: int,
) -> bool {
    &&& r.len() <= k
    &&& forall|a: int| 0 <= a < r.len() ==> is_ranked(keys, #[trigger] r[a])
    &&& forall|a: int, b: int| 0 <= a < b < r.len() ==> ranks_before(keys, r[a], r[b])
    &&& forall|j: int, a: int|
        is_ranked(keys, j) && (forall|c: int| 0 <= c < r.len() ==> r[c] != j) && 0 <= a < r.len()
            ==> #[trigger] ranks_before(keys, r[a], j)
    &&& r.len() < k ==> forall|j: int|
        is_ranked(keys, j) ==> exists|c: int| 0 <= c < r.len() && #[trigger] r[c] == j
}

pub proof fn lemma_ranks_before_trans(
    keys: Seq<Option<(bool, int, int, int, int, Seq<char>)>>,
    i: int,
    j: int,
    l: int,
)
    requires
        ranks_before(keys, i, j),
        ranks_before(keys, j, l),
    ensures
        ranks_before(keys, i, l),
{
    let (a, b, c) = (keys[i]->0, keys[j]->0, keys[l]->0);
    lemma_key_antisym(a, b);
    lemma_key_antisym(b, c);
    lemma_key_antisym(a, c);
    if key_order(a, b) == 0 {
        lemma_key_zero(a, b);
    } else if key_order(b, c) == 0 {
        lemma_key_zero(b, c);
    } else {
        lemma_key_trans(a, b, c);
    }
}

pub proof fn lemma_ranks_before_total(
    keys: Seq<Option<(bool, int, int, int, int, Seq<char>)>>,
    i: int,
    j: int,
)
    requires
        i != j,
    ensures
        ranks_before(keys, i, j) || ranks_before(keys, j, i),
        !(ranks_before(keys, i, j) && ranks_before(keys, j, i)),
{
    lemma_key_antisym(keys[i]->0, keys[j]->0);
}

/// Sorting by a ranking that is unique gives one result: two lists that both
/// hold the best `k` are the same.
pub proof fn lemma_top_ranked_unique(
    keys: Seq<Option<(bool, int, int, int, int, Seq<char>)>>,
    r1: Seq<int>,
    r2: Seq<int>,
    k: int,
)
    requires
        top_ranked(keys, r1, k),
        top_ranked(keys, r2, k),
    ensures
        r1 == r2,
    decreases r1.len() + r2.len(),
{
    if r1.len() > 0 && r2.len() > 0 {
        let (x, y) = (r1[0], r2[0]);
        if x != y {
            // Each head ranks before everything the other list leaves out or holds later.
            lemma_ranks_before_total(keys, x, y);
            if exists|c: int| 0 <= c < r2.len() && r2[c] == x {
                let c = choose|c: int| 0 <= c < r2.len() && r2[c] == x;
                assert(c > 0);
                assert(ranks_before(keys, r2[0], r2[c]));
            } else {
                assert(ranks_before(keys, r2[0], x));
            }
            if exists|c: int| 0 <= c < r1.len() && r1[c] == y {
                let c = choose|c: int| 0 <= c < r1.len() && r1[c] == y;
                assert(c > 0);
                assert(ranks_before(keys, r1[0], r1[c]));
            } else {
                assert(ranks_before(keys, r1[0], y));
            }
            assert(false);
        }
        let t1 = r1.drop_first();
        let t2 = r2.drop_first();
        let keys2 = keys.update(x, None);
        lemma_key_antisym(keys[x]->0, keys[x]->0);
        assert forall|a: int| 0 <= a < t1.len() implies is_ranked(keys2, #[trigger] t1[a]) by {
            assert(ranks_before(keys, r1[0], r1[a + 1]));
        }
        assert forall|a: int| 0 <= a < t2.len() implies is_ranked(keys2, #[trigger] t2[a]) by {
            assert(ranks_before(keys, r2[0], r2[a + 1]));
        }
        assert forall|a: int, b: int| 0 <= a < b < t1.len() implies ranks_before(
            keys2,
            t1[a],
            t1[b],
        ) by {
            assert(ranks_before(keys, r1[a + 1], r1[b + 1]));
            assert(ranks_before(keys, r1[0], r1[a + 1]));
            assert(ranks_before(keys, r1[0], r1[b + 1]));
        }
        assert forall|a: int, b: int| 0 <= a < b < t2.len() implies ranks_before(
            keys2,
            t2[a],
            t2[b],
        ) by {
            assert(ranks_before(keys, r2[a + 1], r2[b + 1]));
            assert(ranks_before(keys, r2[0], r2[a + 1]));
            assert(ranks_before(keys, r2[0], r2[b + 1]));
        }
        assert forall|j: int, a: int|
            is_ranked(keys2, j) && (forall|c: int| 0 <= c < t1.len() ==> t1[c] != j) && 0 <= a
                < t1.len() implies #[trigger] ranks_before(keys2, t1[a], j) by {
            assert(j != x);
            assert forall|c: int| 0 <= c < r1.len() implies r1[c] != j by {
                if c > 0 {
                    assert(t1[c - 1] != j);
                }
            }
            assert(ranks_before(keys, r1[a + 1], j));
            assert(ranks_before(keys, r1[0], r1[a + 1]));
        }
        assert forall|j: int, a: int|
            is_ranked(keys2, j) && (forall|c: int| 0 <= c < t2.len() ==> t2[c] != j) && 0 <= a
                < t2.len() implies #[trigger] ranks_before(keys2, t2[a], j) by {
            assert(j != x);
            assert forall|c: int| 0 <= c < r2.len() implies r2[c] != j by {
                if c > 0 {
                    assert(t2[c - 1] != j);
                }
            }
            assert(ranks_before(keys, r2[a + 1], j));
            assert(ranks_before(keys, r2[0], r2[a + 1]));
        }
        if t1.len() < k - 1 {
            assert forall|j: int| is_ranked(keys2, j) implies exists|c: int|
                0 <= c < t1.len() && #[trigger] t1[c] == j by {
                assert(is_ranked(keys, j));
                let c = choose|c: int| 0 <= c < r1.len() && #[trigger] r1[c] == j;
                assert(c > 0);
                assert(t1[c - 1] == j);
            }
        }
        if t2.len() < k - 1 {
            assert forall|j: int| is_ranked(keys2, j) implies exists|c: int|
                0 <= c < t2.len() && #[trigger] t2[c] == j by {
                assert(is_ranked(keys, j));
                let c = choose|c: int| 0 <= c < r2.len() && #[trigger] r2[c] == j;
                assert(c > 0);
                assert(t2[c - 1] == j);
            }
        }
        lemma_top_ranked_unique(keys2, t1, t2, k - 1);
        assert(r1 =~= seq![x] + t1);
        assert(r2 =~= seq![y] + t2);
    } else if r1.len() > 0 {
        // `r2` is empty, so it holds fewer than `k` and every ranked entry: none.
        assert(r1.len() <= k);
        assert(r2.len() < k);
        assert(is_ranked(keys, r1[0]));
        assert(false);
    } else if r2.len() > 0 {
        assert(r1.len() < k);
        assert(is_ranked(keys, r2[0]));
        assert(false);
    } else {
        assert(r1 =~= r2);
    }
}

/// The ranking keys of a list of match results (`None` where nothing matched).
pub open spec fn match_keys(ms: Seq<Option<FuzzyMatch>>) -> Seq<
    Option<(bool, int, int, int, int, Seq<char>)>,
> {
    Seq::new(
        ms.len(),
        |j: int|
            match ms[j] {
                Some(m) => Some(score_key(m.score)),
                None => None,
            },
    )
}

/// The indices of the best `k` matches, best first; among equal scores the
/// earlier entry first (a stable sort, best first, cut to `k`).
pub fn select_top(ms: &Vec<Option<FuzzyMatch>>, k: usize) -> (r: Vec<usize>)
    ensures
        top_ranked(match_keys(ms@), r@.map_values(|x: usize| x as int), k as int),
{
    let ghost keys = match_keys(ms@);
    let n = ms.len();
    let mut taken: Vec<bool> = Vec::new();
    while taken.len() < n
        invariant
            taken.len() <= n,
            forall|j: int| 0 <= j < taken.len() ==> !#[trigger] taken@[j],
        decreases n - taken.len(),
    {
        taken.push(false);
    }
    let mut r: Vec<usize> = Vec::new();
    let ghost mut rs: Seq<int> = Seq::empty();
    let mut done = false;
    while r.len() < k && !done
        invariant
            n == ms.len(),
            keys == match_keys(ms@),
            taken.len() == n,
            r.len() <= k,
            rs.len() == r.len(),
            forall|a: int| 0 <= a < r.len() ==> #[trigger] rs[a] == r@[a] as int,
            forall|a: int| 0 <= a < rs.len() ==> is_ranked(keys, #[trigger] rs[a]),
            forall|a: int, b: int| 0 <= a < b < rs.len() ==> ranks_before(keys, rs[a], rs[b]),
            forall|j: int|
                0 <= j < n ==> (#[trigger] taken@[j] <==> exists|c: int|
                    0 <= c < rs.len() && rs[c] == j),
            forall|j: int, a: int|
                is_ranked(keys, j) && !taken@[j] && 0 <= a < rs.len() ==> #[trigger] ranks_before(
                    keys,
                    rs[a],
                    j,
                ),
            done ==> forall|j: int| is_ranked(keys, j) ==> #[trigger] taken@[j],
        decreases k - r.len() + (if done {
            0int
        } else {
            1int
        }),
    {
        let mut best: Option<usize> = None;
        let mut j: usize = 0;
        while j < n
            invariant
                n == ms.len(),
                keys == match_keys(ms@),
                taken.len() == n,
                j <= n,
                best matches Some(b) ==> b < j && is_ranked(keys, b as int) && !taken@[b as int],
                best matches Some(b) ==> forall|i: int|
                    0 <= i < j && is_ranked(keys, i) && !taken@[i] && i != b ==> #[trigger] ranks_before(
                        keys,
                        b as int,
                        i,
                    ),
                best is None ==> forall|i: int|
                    0 <= i < j && is_ranked(keys, i) ==> #[trigger] taken@[i],
            decreases n - j,
        {
            if !taken[j] {
                match &ms[j] {
                    Some(mj) => {
                        match best {
                            None => {
                                best = Some(j);
                            },
                            Some(b) => {
                                let mb = ms[b].as_ref().unwrap();
                                let o = score_order_exec(&mj.score, &mb.score);
                                proof {
                                    lemma_score_key(mj.score, mb.score);
                                    lemma_ranks_before_total(keys, j as int, b as int);
                                }
                                if o > 0 {
                                    proof {
                                        assert forall|i: int|
                                            0 <= i < j + 1 && is_ranked(keys, i) && !taken@[i] && i
                                                != j implies #[trigger] ranks_before(
                                            keys,
                                            j as int,
                                            i,
                                        ) by {
                                            if i != b {
                                                lemma_ranks_before_trans(keys, j as int, b as int, i);
                                            }
                                        }
                                    }
                                    best = Some(j);
                                }
                            },
                        }
                    },
                    None => {},
                }
            }
            j = j + 1;
        }
        match best {
            None => {
                done = true;
            },
            Some(b) => {
                proof {
                    assert forall|a: int| 0 <= a < rs.len() implies ranks_before(
                        keys,
                        rs[a],
                        b as int,
                    ) by {}
                }
                let ghost old_rs = rs;
                let ghost old_taken = taken@;
                r.push(b);
                taken.set(b, true);
                proof {
                    rs = rs.push(b as int);
                    assert forall|i: int| 0 <= i < n implies (#[trigger] taken@[i] <==> exists|c: int|
                        0 <= c < rs.len() && rs[c] == i) by {
                        if i == b {
                            assert(rs[rs.len() - 1] == i);
                        } else {
                            if old_taken[i] {
                                let c = choose|c: int| 0 <= c < old_rs.len() && old_rs[c] == i;
                                assert(rs[c] == i);
                            }
                            if exists|c: int| 0 <= c < rs.len() && rs[c] == i {
                                let c = choose|c: int| 0 <= c < rs.len() && rs[c] == i;
                                assert(c < old_rs.len());
                                assert(old_rs[c] == i);
                            }
                        }
                    }
                }
            },
        }
    }
    proof {
        assert(rs =~= r@.map_values(|x: usize| x as int));
        if r.len() < k {
            assert forall|j: int| is_ranked(keys, j) implies exists|c: int|
                0 <= c < rs.len() && #[trigger] rs[c] == j by {
                assert(taken@[j]);
            }
        }
        assert forall|j: int, a: int|
            is_ranked(keys, j) && (forall|c: int| 0 <= c < rs.len() ==> rs[c] != j) && 0 <= a
                < rs.len() implies #[trigger] ranks_before(keys, rs[a], j) by {
            assert(!taken@[j]);
        }
    }
    r
}

// ---------------------------------------------------------------------------
// Laws of fuzzy matching and ranking
// ---------------------------------------------------------------------------

/// `h` places each query character on a matching label character, in
/// increasing label order.
pub open spec fn is_embedding(q: Seq<char>, l: Seq<char>, h: Seq<int>, cs: bool) -> bool {
    &&& h.len() == q.len()
    &&& forall|j: int| 0 <= j < h.len() ==> 0 <= #[trigger] h[j] < l.len()
    &&& forall|j: int| 0 <= j < h.len() ==> chars_match(cs, q[j], l[#[trigger] h[j]])
    &&& forall|j: int| 0 < j < h.len() ==> h[j - 1] < #[trigger] h[j]
}

proof fn lemma_greedy_sound(q: Seq<char>, l: Seq<char>, qi: int, li: int, cs: bool)
    requires
        0 <= qi <= q.len(),
        0 <= li,
        l.len() <= usize::MAX,
    ensures
        greedy(q, l, qi, li, cs) matches Some(h) ==> h.len() == q.len() - qi && forall|j: int|
            0 <= j < h.len() ==> li <= #[trigger] h[j] < l.len() && chars_match(
                cs,
                q[qi + j],
                l[h[j] as int],
            ) && (j > 0 ==> h[j - 1] < h[j]),
    decreases q.len() - qi + l.len() - li,
{
    if qi < q.len() && li < l.len() {
        if chars_match(cs, q[qi], l[li]) {
            lemma_greedy_sound(q, l, qi + 1, li + 1, cs);
            match greedy(q, l, qi + 1, li + 1, cs) {
                Some(t) => {
                    let h = seq![li as usize] + t;
                    assert forall|j: int| 0 <= j < h.len() implies li <= #[trigger] h[j] < l.len()
                        && chars_match(cs, q[qi + j], l[h[j] as int]) && (j > 0 ==> h[j - 1]
                        < h[j]) by {
                        if j > 0 {
                            assert(h[j] == t[j - 1]);
                            if j > 1 {
                                assert(h[j - 1] == t[j - 2]);
                            }
                        }
                    }
                },
                None => {},
            }
        } else {
            lemma_greedy_sound(q, l, qi, li + 1, cs);
        }
    }
}

proof fn lemma_greedy_complete(q: Seq<char>, l: Seq<char>, qi: int, li: int, cs: bool, h: Seq<int>)
    requires
        is_embedding(q, l, h, cs),
        0 <= qi <= q.len(),
        0 <= li,
        forall|j: int| qi <= j < q.len() ==> li <= #[trigger] h[j],
    ensures
        greedy(q, l, qi, li, cs) is Some,
    decreases l.len() - li,
{
    if qi < q.len() {
        assert(li <= h[qi] < l.len());
        if chars_match(cs, q[qi], l[li]) {
            assert forall|j: int| qi + 1 <= j < q.len() implies li + 1 <= #[trigger] h[j] by {
                lemma_increasing(h, qi, j);
            }
            lemma_greedy_complete(q, l, qi + 1, li + 1, cs, h);
        } else {
            assert(h[qi] != li);
            assert forall|j: int| qi <= j < q.len() implies li + 1 <= #[trigger] h[j] by {
                lemma_increasing(h, qi, j);
            }
            lemma_greedy_complete(q, l, qi, li + 1, cs, h);
        }
    }
}

proof fn lemma_increasing(h: Seq<int>, a: int, b: int)
    requires
        0 <= a <= b < h.len(),
        forall|j: int| 0 < j < h.len() ==> h[j - 1] < #[trigger] h[j],
    ensures
        h[a] + (b - a) <= h[b],
    decreases b - a,
{
    if a < b {
        lemma_increasing(h, a, b - 1);
        assert(h[b - 1] < h[b]);
    }
}

/// `fuzzy_match` finds a match exactly when the query is a subsequence of
/// the label (comparing case-insensitively unless the query holds an upper
/// case letter), and its hits place the query on such a subsequence.
pub proof fn law_fuzzy_match_iff_subsequence(q: Seq<char>, l: Seq<char>, r: Option<FuzzyMatch>)
    requires
        fuzzy_outcome(q, l, r),
        l.len() <= usize::MAX,
    ensures
        r is Some <==> exists|h: Seq<int>| #[trigger] is_embedding(q, l, h, has_upper(q)),
        r matches Some(m) ==> is_embedding(
            q,
            l,
            m.hits@.map_values(|x: usize| x as int),
            has_upper(q),
        ),
{
    let cs = has_upper(q);
    lemma_greedy_sound(q, l, 0, 0, cs);
    if let Some(m) = r {
        let h = m.hits@.map_values(|x: usize| x as int);
        if q.len() > 0 {
            assert(is_embedding(q, l, h, cs));
        } else {
            assert(is_embedding(q, l, h, cs));
        }
    } else {
        if exists|h: Seq<int>| #[trigger] is_embedding(q, l, h, cs) {
            let h = choose|h: Seq<int>| #[trigger] is_embedding(q, l, h, cs);
            lemma_greedy_complete(q, l, 0, 0, cs, h);
        }
    }
}

/// The ranking of fuzzy scores is a total order: antisymmetric, transitive,
/// and two scores rank equal only when every ranking field is equal.
pub proof fn law_score_order_total(a: FuzzyScore, b: FuzzyScore, c: FuzzyScore)
    ensures
        score_order(a, b) == -score_order(b, a),
        -1 <= score_order(a, b) <= 1,
        score_order(a, b) > 0 && score_order(b, c) > 0 ==> score_order(a, c) > 0,
        score_order(a, b) == 0 ==> score_key(a) == score_key(b),
{
    lemma_score_key(a, b);
    lemma_score_key(b, a);
    lemma_score_key(b, c);
    lemma_score_key(a, c);
    lemma_key_antisym(score_key(a), score_key(b));
    if score_order(a, b) > 0 && score_order(b, c) > 0 {
        lemma_key_trans(score_key(a), score_key(b), score_key(c));
    }
    if score_order(a, b) == 0 {
        lemma_key_zero(score_key(a), score_key(b));
    }
}

} // verus!
