use std::cmp::Ordering;

use vstd::prelude::*;

use crate::text::{all_ascii, chars_of, eq_ignore_ascii_case, string_from, to_ascii_lower};

verus! {

/// Whether `c` has the Unicode `Uppercase` property (`char::is_uppercase`).
pub uninterp spec fn unicode_is_uppercase(c: char) -> bool;

/// `char::is_uppercase`, which consults the Unicode `Uppercase` property
/// tables; what it returns is named `unicode_is_uppercase`. Among the ASCII
/// characters exactly `A`-`Z` have that property.
#[verifier::external_body]
fn is_uppercase(c: char) -> (b: bool)
    ensures
        b == unicode_is_uppercase(c),
        (c as u32) < 128 ==> (b <==> ('A' <= c && c <= 'Z')),
{
    c.is_uppercase()
}

/// Whether the query holds an uppercase character (which makes matching case-sensitive).
pub open spec fn has_upper(q: Seq<char>) -> bool {
    exists|i: int| 0 <= i < q.len() && unicode_is_uppercase(#[trigger] q[i])
}

/// Whether the query holds one of the ASCII capitals `A`-`Z`.
pub open spec fn has_ascii_upper(q: Seq<char>) -> bool {
    exists|i: int| 0 <= i < q.len() && 'A' <= #[trigger] q[i] <= 'Z'
}

/// Whether a query character matches a label character.
pub open spec fn chars_match(case_sensitive: bool, qc: char, lc: char) -> bool {
    if case_sensitive {
        qc == lc
    } else {
        eq_ignore_ascii_case(qc, lc)
    }
}

/// The greedy left-to-right subsequence match of `q[qi..]` in `l[li..]`:
/// each query character takes the first matching label character after the
/// previous hit.
pub open spec fn greedy(q: Seq<char>, l: Seq<char>, qi: int, li: int, cs: bool) -> Option<Seq<usize>>
    decreases q.len() - qi + l.len() - li,
{
    if qi < 0 || li < 0 || qi >= q.len() {
        Some(seq![])
    } else if li >= l.len() {
        None
    } else if chars_match(cs, q[qi], l[li]) {
        match greedy(q, l, qi + 1, li + 1, cs) {
            Some(h) => Some(seq![li as usize] + h),
            None => None,
        }
    } else {
        greedy(q, l, qi, li + 1, cs)
    }
}

/// `(current run, longest run, number of runs)` over the first `n` hits.
pub open spec fn run_stats(h: Seq<usize>, n: int) -> (int, int, int)
    decreases n,
{
    if n <= 1 {
        (1, 1, 1)
    } else {
        let (run, max_run, runs) = run_stats(h, n - 1);
        if h[n - 1] == h[n - 2] + 1 {
            (run + 1, if run + 1 > max_run {
                run + 1
            } else {
                max_run
            }, runs)
        } else {
            (1, max_run, runs + 1)
        }
    }
}

/// The positions among the first `n` hits where a new run starts: a hit
/// that does not directly follow the one before it.
pub open spec fn run_breaks(h: Seq<usize>, n: int) -> Set<int> {
    Set::new(|w: int| 1 <= w < n && h[w] != h[w - 1] + 1)
}

proof fn lemma_run_stats(h: Seq<usize>, n: int)
    requires
        1 <= n <= h.len(),
    ensures
        run_breaks(h, n).finite(),
        run_stats(h, n).2 == 1 + run_breaks(h, n).len(),
        1 <= run_stats(h, n).0 <= run_stats(h, n).1 <= n,
        run_breaks(h, n) == Set::<int>::empty() ==> run_stats(h, n).1 == n && run_stats(h, n).0 == n,
    decreases n,
{
    if n == 1 {
        assert(run_breaks(h, 1) =~= Set::<int>::empty());
    } else {
        lemma_run_stats(h, n - 1);
        if h[n - 1] != h[n - 2] + 1 {
            assert(run_breaks(h, n) =~= run_breaks(h, n - 1).insert(n - 1));
            assert(!run_breaks(h, n - 1).contains(n - 1));
            assert(run_breaks(h, n).contains(n - 1));
        } else {
            assert(run_breaks(h, n) =~= run_breaks(h, n - 1));
        }
        if run_breaks(h, n) == Set::<int>::empty() {
            assert(run_breaks(h, n - 1) =~= Set::<int>::empty());
            assert(!run_breaks(h, n).contains(n - 1));
        }
    }
}

/// The hits of a match fall into maximal blocks of consecutive label
/// positions: the number of runs is one more than the number of hits that
/// do not directly follow the previous hit (so hits `[0, 2]` make two
/// runs), the longest run lies between one and the number of hits, and
/// hits without a gap form a single run as long as the query.
pub proof fn law_runs_count_blocks(h: Seq<usize>)
    requires
        h.len() >= 1,
    ensures
        run_breaks(h, h.len() as int).finite(),
        run_stats(h, h.len() as int).2 == 1 + run_breaks(h, h.len() as int).len(),
        1 <= run_stats(h, h.len() as int).1 <= h.len(),
        (forall|w: int| 1 <= w < h.len() ==> #[trigger] h[w] == h[w - 1] + 1) ==> run_stats(h, h.len() as int).2 == 1
            && run_stats(h, h.len() as int).1 == h.len(),
{
    lemma_run_stats(h, h.len() as int);
    if forall|w: int| 1 <= w < h.len() ==> #[trigger] h[w] == h[w - 1] + 1 {
        assert(run_breaks(h, h.len() as int) =~= Set::<int>::empty());
    }
}

/// The `k` hits from position `i` on fall on consecutive label positions.
pub open spec fn consecutive_hits(h: Seq<usize>, i: int, k: int) -> bool {
    forall|j: int| i < j < i + k ==> #[trigger] h[j] == h[j - 1] + 1
}

proof fn lemma_longest_run(h: Seq<usize>, m: int)
    requires
        1 <= m <= h.len(),
    ensures
        1 <= run_stats(h, m).0 <= m,
        consecutive_hits(h, m - run_stats(h, m).0, run_stats(h, m).0),
        m - run_stats(h, m).0 == 0 || h[m - run_stats(h, m).0] != h[m - run_stats(h, m).0 - 1] + 1,
        forall|i: int, k: int|
            0 <= i && 1 <= k && i + k <= m && #[trigger] consecutive_hits(h, i, k) ==> k <= run_stats(h, m).1,
        exists|i: int| 0 <= i && i + run_stats(h, m).1 <= m && #[trigger] consecutive_hits(h, i, run_stats(h, m).1),
    decreases m,
{
    if m == 1 {
        assert(run_stats(h, m).1 == 1);
        assert(consecutive_hits(h, 0, run_stats(h, m).1));
    } else {
        lemma_longest_run(h, m - 1);
        let (run, mx, runs) = run_stats(h, m - 1);
        let (run2, mx2, runs2) = run_stats(h, m);
        let wi = choose|i: int| 0 <= i && i + mx <= m - 1 && #[trigger] consecutive_hits(h, i, mx);
        if h[m - 1] == h[m - 2] + 1 {
            assert(run2 == run + 1);
            assert(consecutive_hits(h, m - run2, run2)) by {
                assert forall|j: int| m - run2 < j < m implies #[trigger] h[j] == h[j - 1] + 1 by {
                    if j < m - 1 {
                        assert(consecutive_hits(h, m - 1 - run, run));
                    }
                }
            }
            assert forall|i: int, k: int|
                0 <= i && 1 <= k && i + k <= m && #[trigger] consecutive_hits(h, i, k) implies k <= mx2 by {
                if i + k <= m - 1 {
                    assert(k <= mx);
                } else if k > run + 1 {
                    let j = m - 1 - run;
                    assert(i < j);
                    assert(h[j] == h[j - 1] + 1);
                }
            }
            if run + 1 > mx {
                assert(mx2 == run2);
                assert(consecutive_hits(h, m - run2, mx2));
                assert(0 <= m - run2 && m - run2 + mx2 <= m);
            } else {
                assert(mx2 == mx);
                assert(consecutive_hits(h, wi, mx2));
                assert(0 <= wi && wi + mx2 <= m);
            }
        } else {
            assert(run2 == 1);
            assert(consecutive_hits(h, m - 1, 1));
            assert forall|i: int, k: int|
                0 <= i && 1 <= k && i + k <= m && #[trigger] consecutive_hits(h, i, k) implies k <= mx2 by {
                if i + k <= m - 1 {
                    assert(k <= mx);
                } else if k >= 2 {
                    assert(h[m - 1] == h[m - 2] + 1);
                }
            }
            assert(mx2 == mx);
            assert(consecutive_hits(h, wi, mx2));
            assert(0 <= wi && wi + mx2 <= m);
        }
    }
}

/// The longest run of a match is the length of its longest block of hits
/// on consecutive label positions: no such block is longer, and one block
/// is that long.
pub proof fn law_longest_run_is_longest_block(h: Seq<usize>)
    requires
        h.len() >= 1,
    ensures
        forall|i: int, k: int|
            0 <= i && 1 <= k && i + k <= h.len() && #[trigger] consecutive_hits(h, i, k) ==> k <= run_stats(
                h,
                h.len() as int,
            ).1,
        exists|i: int|
            0 <= i && i + run_stats(h, h.len() as int).1 <= h.len() && #[trigger] consecutive_hits(
                h,
                i,
                run_stats(h, h.len() as int).1,
            ),
{
    lemma_longest_run(h, h.len() as int);
}

/// Ranking score for a fuzzy match. Best wins; the order compares fields in
/// the order listed below (tie-breakers applied left to right).
#[derive(Clone, Debug, PartialEq, Eq)]
pub struct FuzzyScore {
    /// Pure prefix match (the query starts at `label[0]`).
    pub prefix: bool,
    /// Length of the longest consecutive run of hit chars.
    pub max_run: usize,
    /// Number of separate (non-adjacent) hit runs.
    pub runs: usize,
    /// Index of the first hit char (smaller = earlier = better).
    pub start: usize,
    /// Length of the label (shorter = better tie-breaker).
    pub label_len: usize,
    /// Label text, for stable alphabetical tie-breaking.
    pub label: String,
}

/// Result of a successful fzf-style fuzzy subsequence match of `query`
/// against `label`.
pub struct FuzzyMatch {
    /// Char indices (into `label`) that the query chars hit, in query order.
    pub hits: Vec<usize>,
    /// Ranking score; a greater value means a better match.
    pub score: FuzzyScore,
}

/// What `fuzzy_match(q, l)` returns.
pub open spec fn fuzzy_outcome(q: Seq<char>, l: Seq<char>, r: Option<FuzzyMatch>) -> bool {
    if q.len() == 0 {
        &&& r is Some
        &&& r->0.hits@ == Seq::<usize>::empty()
        &&& r->0.score.prefix
        &&& r->0.score.max_run == 0
        &&& r->0.score.runs == 0
        &&& r->0.score.start == 0
        &&& r->0.score.label_len == l.len()
        &&& r->0.score.label@ == l
    } else {
        match greedy(q, l, 0, 0, has_upper(q)) {
            None => r is None,
            Some(h) => {
                &&& r is Some
                &&& h.len() == q.len()
                &&& r->0.hits@ == h
                &&& r->0.score.prefix == (h[0] == 0)
                &&& r->0.score.max_run == run_stats(h, h.len() as int).1
                &&& r->0.score.runs == run_stats(h, h.len() as int).2
                &&& r->0.score.start == h[0]
                &&& r->0.score.label_len == l.len()
                &&& r->0.score.label@ == l
            },
        }
    }
}

pub proof fn lemma_greedy_shape(q: Seq<char>, l: Seq<char>, qi: int, li: int, cs: bool)
    requires
        0 <= qi <= q.len(),
        0 <= li,
        l.len() <= usize::MAX,
    ensures
        greedy(q, l, qi, li, cs) matches Some(h) ==> h.len() == q.len() - qi && forall|j: int|
            0 <= j < h.len() ==> li <= #[trigger] h[j] < l.len() && (j > 0 ==> h[j - 1] < h[j]),
    decreases q.len() - qi + l.len() - li,
{
    if qi >= q.len() || li >= l.len() {
    } else if chars_match(cs, q[qi], l[li]) {
        lemma_greedy_shape(q, l, qi + 1, li + 1, cs);
        if let Some(h) = greedy(q, l, qi + 1, li + 1, cs) {
            let hh = seq![li as usize] + h;
            assert(hh[0] == li as usize);
            assert forall|j: int| 0 <= j < hh.len() implies li <= #[trigger] hh[j] < l.len() && (j
                > 0 ==> hh[j - 1] < hh[j]) by {
                if j > 0 {
                    assert(li + 1 <= h[j - 1]);
                    assert(hh[j] == h[j - 1]);
                    if j > 1 {
                        assert(hh[j - 1] == h[j - 2]);
                    }
                }
            }
        }
    } else {
        lemma_greedy_shape(q, l, qi, li + 1, cs);
    }
}

/// Whether the query holds an uppercase character.
fn query_has_upper(q: &Vec<char>) -> (b: bool)
    ensures
        b == has_upper(q@),
        all_ascii(q@) ==> (b == has_ascii_upper(q@)),
{
    let mut has_up = false;
    let mut k: usize = 0;
    while k < q.len()
        invariant
            k <= q.len(),
            has_up == exists|i: int| 0 <= i < k && unicode_is_uppercase(#[trigger] q@[i]),
            all_ascii(q@) ==> (has_up == exists|i: int| 0 <= i < k && 'A' <= #[trigger] q@[i] <= 'Z'),
        decreases q.len() - k,
    {
        let up = is_uppercase(q[k]);
        proof {
            if all_ascii(q@) {
                assert((q@[k as int] as u32) < 128);
            }
        }
        if up {
            has_up = true;
        }
        k = k + 1;
    }
    has_up
}

/// Whether `qc` matches `lc` under the given case sensitivity.
fn chars_match_exec(cs: bool, qc: char, lc: char) -> (b: bool)
    ensures
        b == chars_match(cs, qc, lc),
{
    if cs {
        qc == lc
    } else {
        to_ascii_lower(qc) == to_ascii_lower(lc)
    }
}

/// Prepends `h` to a possible rest of hits.
pub open spec fn prepend_hits(h: Seq<usize>, rest: Option<Seq<usize>>) -> Option<Seq<usize>> {
    match rest {
        Some(t) => Some(h + t),
        None => None,
    }
}

/// The greedy hits of `q` in `l`.
fn greedy_hits(q: &Vec<char>, l: &Vec<char>, cs: bool) -> (r: Option<Vec<usize>>)
    ensures
        match r {
            Some(h) => greedy(q@, l@, 0, 0, cs) == Some(h@),
            None => greedy(q@, l@, 0, 0, cs) is None,
        },
{
    let mut hits: Vec<usize> = Vec::new();
    let mut li: usize = 0;
    let mut qi: usize = 0;
    assert(Seq::<usize>::empty() + greedy(q@, l@, 0, 0, cs)->0 =~= greedy(q@, l@, 0, 0, cs)->0);
    while qi < q.len()
        invariant
            qi <= q.len(),
            li <= l.len(),
            greedy(q@, l@, 0, 0, cs) == prepend_hits(hits@, greedy(q@, l@, qi as int, li as int, cs)),
        decreases q.len() - qi + l.len() - li,
    {
        if li == l.len() {
            return None;
        }
        if chars_match_exec(cs, q[qi], l[li]) {
            let ghost old_hits = hits@;
            hits.push(li);
            proof {
                let rest = greedy(q@, l@, qi + 1, li + 1, cs);
                match rest {
                    Some(t) => {
                        assert(old_hits + (seq![li as usize] + t) =~= hits@ + t);
                    },
                    None => {},
                }
            }
            qi = qi + 1;
        }
        li = li + 1;
    }
    assert(hits@ + Seq::<usize>::empty() =~= hits@);
    Some(hits)
}

/// `(longest run, number of runs)` of a non-empty list of increasing hits.
fn run_stats_exec(hits: &Vec<usize>) -> (r: (usize, usize))
    requires
        hits.len() >= 1,
        forall|j: int| 0 < j < hits.len() ==> hits@[j - 1] < #[trigger] hits@[j],
    ensures
        r.0 as int == run_stats(hits@, hits.len() as int).1,
        r.1 as int == run_stats(hits@, hits.len() as int).2,
{
    let mut max_run: usize = 1;
    let mut runs: usize = 1;
    let mut run: usize = 1;
    let mut w: usize = 1;
    while w < hits.len()
        invariant
            1 <= w <= hits.len(),
            forall|j: int| 0 < j < hits.len() ==> hits@[j - 1] < #[trigger] hits@[j],
            (run as int, max_run as int, runs as int) == run_stats(hits@, w as int),
            run <= w,
            max_run <= w,
            runs <= w,
        decreases hits.len() - w,
    {
        assert(hits@[w - 1] < hits@[w as int]);
        let ghost prev = run_stats(hits@, w as int);
        assert(run_stats(hits@, w + 1) == (if hits@[w as int] == hits@[w - 1] + 1 {
            (prev.0 + 1, if prev.0 + 1 > prev.1 { prev.0 + 1 } else { prev.1 }, prev.2)
        } else {
            (1, prev.1, prev.2 + 1)
        }));
        if hits[w] == hits[w - 1] + 1 {
            run = run + 1;
            if run > max_run {
                max_run = run;
            }
        } else {
            runs = runs + 1;
            run = 1;
        }
        w = w + 1;
    }
    (max_run, runs)
}

/// fzf-style subsequence match with smart-case and scoring. Returns `Some`
/// iff `query` is a subsequence of `label`. Case sensitivity is "smart":
/// the match is case-sensitive when the query contains any uppercase letter,
/// and case-insensitive (over ASCII letters) otherwise. An empty query
/// matches everything (no highlighting). The greedy match consumes label
/// chars left-to-right.
pub fn fuzzy_match(query: &str, label: &str) -> (r: Option<FuzzyMatch>)
    ensures
        fuzzy_outcome(query@, label@, r),
        all_ascii(query@) ==> (has_upper(query@) <==> has_ascii_upper(query@)),
{
    let q_chars = chars_of(query);
    let l_chars = chars_of(label);
    let label_string = string_from(&l_chars);
    let _ = query_has_upper(&q_chars);

    if q_chars.len() == 0 {
        return Some(
            FuzzyMatch {
                hits: Vec::new(),
                score: FuzzyScore {
                    prefix: true,
                    max_run: 0,
                    runs: 0,
                    start: 0,
                    label_len: l_chars.len(),
                    label: label_string,
                },
            },
        );
    }
    let cs = query_has_upper(&q_chars);
    let hits = match greedy_hits(&q_chars, &l_chars, cs) {
        None => {
            return None;
        },
        Some(h) => h,
    };
    proof {
        assert(l_chars@.len() == l_chars.len());
        lemma_greedy_shape(q_chars@, l_chars@, 0, 0, cs);
    }
    let prefix = hits[0] == 0;
    let (max_run, runs) = run_stats_exec(&hits);
    let start = hits[0];
    Some(
        FuzzyMatch {
            hits,
            score: FuzzyScore {
                prefix,
                max_run,
                runs,
                start,
                label_len: l_chars.len(),
                label: label_string,
            },
        },
    )
}

// ---------------------------------------------------------------------------
// Ranking
// ---------------------------------------------------------------------------

/// Three-way comparison of integers: -1, 0 or 1.
pub open spec fn int_order(a: int, b: int) -> int {
    if a < b {
        -1
    } else if a > b {
        1
    } else {
        0
    }
}

/// Lexicographic three-way comparison of character sequences (the order of `String`).
pub open spec fn lex_order(a: Seq<char>, b: Seq<char>) -> int
    decreases a.len(),
{
    if a.len() == 0 && b.len() == 0 {
        0
    } else if a.len() == 0 {
        -1
    } else if b.len() == 0 {
        1
    } else if a[0] != b[0] {
        int_order(a[0] as int, b[0] as int)
    } else {
        lex_order(a.drop_first(), b.drop_first())
    }
}

/// How `a` ranks against `b`: 1 when `a` is the better match, -1 when worse, 0 when equal.
pub open spec fn score_order(a: FuzzyScore, b: FuzzyScore) -> int {
    if a.prefix != b.prefix {
        if a.prefix {
            1
        } else {
            -1
        }
    } else if a.max_run != b.max_run {
        int_order(a.max_run as int, b.max_run as int)
    } else if a.runs != b.runs {
        int_order(b.runs as int, a.runs as int)
    } else if a.start != b.start {
        int_order(b.start as int, a.start as int)
    } else if a.label_len != b.label_len {
        int_order(b.label_len as int, a.label_len as int)
    } else {
        lex_order(b.label@, a.label@)
    }
}

/// How completions rank: a prefix match beats any other; then the longer
/// longest run wins; then fewer runs; then the earlier start; then the
/// shorter label.
pub proof fn law_ranking_preferences(a: FuzzyScore, b: FuzzyScore)
    ensures
        a.prefix && !b.prefix ==> score_order(a, b) > 0,
        a.prefix == b.prefix && a.max_run > b.max_run ==> score_order(a, b) > 0,
        a.prefix == b.prefix && a.max_run == b.max_run && a.runs < b.runs ==> score_order(a, b) > 0,
        a.prefix == b.prefix && a.max_run == b.max_run && a.runs == b.runs && a.start < b.start ==> score_order(a, b)
            > 0,
        a.prefix == b.prefix && a.max_run == b.max_run && a.runs == b.runs && a.start == b.start && a.label_len
            < b.label_len ==> score_order(a, b) > 0,
{
}

/// `lex_order` on character vectors, from index `i` on.
fn lex_order_exec(a: &Vec<char>, b: &Vec<char>) -> (r: i8)
    ensures
        r as int == lex_order(a@, b@),
{
    let mut i: usize = 0;
    assert(a@.skip(0) =~= a@);
    assert(b@.skip(0) =~= b@);
    while i < a.len() && i < b.len() && a[i] == b[i]
        invariant
            i <= a.len(),
            i <= b.len(),
            lex_order(a@, b@) == lex_order(a@.skip(i as int), b@.skip(i as int)),
        decreases a.len() - i,
    {
        assert(a@.skip(i as int).drop_first() =~= a@.skip(i + 1));
        assert(b@.skip(i as int).drop_first() =~= b@.skip(i + 1));
        i = i + 1;
    }
    let ghost sa = a@.skip(i as int);
    let ghost sb = b@.skip(i as int);
    assert(sa.len() == a.len() - i);
    assert(sb.len() == b.len() - i);
    if i == a.len() && i == b.len() {
        assert(sa.len() == 0 && sb.len() == 0);
        0
    } else if i == a.len() {
        -1
    } else if i == b.len() {
        1
    } else if a[i] < b[i] {
        assert(sa[0] == a@[i as int]);
        assert(sb[0] == b@[i as int]);
        -1
    } else {
        assert(sa[0] == a@[i as int]);
        assert(sb[0] == b@[i as int]);
        assert(sa[0] != sb[0]);
        1
    }
}

/// `score_order` computed on values.
pub fn score_order_exec(a: &FuzzyScore, b: &FuzzyScore) -> (r: i8)
    ensures
        r as int == score_order(*a, *b),
{
    if a.prefix != b.prefix {
        if a.prefix {
            1
        } else {
            -1
        }
    } else if a.max_run != b.max_run {
        if a.max_run < b.max_run {
            -1
        } else {
            1
        }
    } else if a.runs != b.runs {
        if b.runs < a.runs {
            -1
        } else {
            1
        }
    } else if a.start != b.start {
        if b.start < a.start {
            -1
        } else {
            1
        }
    } else if a.label_len != b.label_len {
        if b.label_len < a.label_len {
            -1
        } else {
            1
        }
    } else {
        let la = chars_of(a.label.as_str());
        let lb = chars_of(b.label.as_str());
        lex_order_exec(&lb, &la)
    }
}


/// The `Ordering` that a three-way comparison result stands for.
pub open spec fn ordering_of(o: int) -> Ordering {
    if o < 0 {
        Ordering::Less
    } else if o > 0 {
        Ordering::Greater
    } else {
        Ordering::Equal
    }
}

impl FuzzyScore {
    /// Compares two scores: the better match is the greater. `prefix` and
    /// `max_run`: larger is better; `runs`, `start`, `label_len`, `label`:
    /// smaller is better.
    pub fn compare(&self, other: &FuzzyScore) -> (r: Ordering)
        ensures
            r == ordering_of(score_order(*self, *other)),
    {
        let o = score_order_exec(self, other);
        if o < 0 {
            Ordering::Less
        } else if o > 0 {
            Ordering::Greater
        } else {
            Ordering::Equal
        }
    }
}

impl PartialOrd for FuzzyScore {
    fn partial_cmp(&self, other: &Self) -> (r: Option<Ordering>) {
        Some(self.compare(other))
    }
}

impl vstd::std_specs::cmp::PartialOrdSpecImpl for FuzzyScore {
    open spec fn obeys_partial_cmp_spec() -> bool {
        true
    }

    open spec fn partial_cmp_spec(&self, other: &Self) -> Option<Ordering> {
        Some(ordering_of(score_order(*self, *other)))
    }
}

} // verus!
