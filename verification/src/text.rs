use vstd::prelude::*;

verus! {

// ---------------------------------------------------------------------------
// Character classes
// ---------------------------------------------------------------------------

/// Unicode `White_Space`: the characters that `char::is_whitespace` accepts.
pub open spec fn is_ws(c: char) -> bool {
    let u = c as u32;
    ||| 9 <= u <= 13
    ||| u == 32
    ||| u == 0x85
    ||| u == 0xA0
    ||| u == 0x1680
    ||| 0x2000 <= u <= 0x200A
    ||| u == 0x2028
    ||| u == 0x2029
    ||| u == 0x202F
    ||| u == 0x205F
    ||| u == 0x3000
}

/// Whether `c` is Unicode white space.
pub fn is_whitespace(c: char) -> (b: bool)
    ensures
        b == is_ws(c),
{
    let u = c as u32;
    (9 <= u && u <= 13) || u == 32 || u == 0x85 || u == 0xA0 || u == 0x1680 || (0x2000 <= u
        && u <= 0x200A) || u == 0x2028 || u == 0x2029 || u == 0x202F || u == 0x205F || u == 0x3000
}

pub open spec fn is_ascii_digit(c: char) -> bool {
    '0' <= c <= '9'
}

pub open spec fn is_ascii_alpha(c: char) -> bool {
    ('a' <= c <= 'z') || ('A' <= c <= 'Z')
}

/// Whether `c` is an ASCII letter (`char::is_ascii_alphabetic`).
pub fn ascii_alpha(c: char) -> (b: bool)
    ensures
        b == is_ascii_alpha(c),
{
    ('a' <= c && c <= 'z') || ('A' <= c && c <= 'Z')
}

/// ASCII lower-casing of one character; other characters are unchanged.
pub open spec fn ascii_lower(c: char) -> char {
    if 'A' <= c <= 'Z' {
        ((c as u32) + 32) as char
    } else {
        c
    }
}

pub fn to_ascii_lower(c: char) -> (r: char)
    ensures
        r == ascii_lower(c),
{
    if 'A' <= c && c <= 'Z' {
        ((c as u8) + 32) as char
    } else {
        c
    }
}

/// Case-insensitive comparison of two characters over ASCII letters only
/// (`char::eq_ignore_ascii_case`).
pub open spec fn eq_ignore_ascii_case(a: char, b: char) -> bool {
    ascii_lower(a) == ascii_lower(b)
}

// ---------------------------------------------------------------------------
// Conversions between `str`/`String` and character vectors
// ---------------------------------------------------------------------------

/// Appends one character to a string.
#[verifier::external_body]
pub(crate) fn push_char(s: &mut String, c: char)
    ensures
        final(s)@ == old(s)@.push(c),
{
    s.push(c);
}

/// Appends a string slice to a string.
#[verifier::external_body]
pub(crate) fn push_str(s: &mut String, t: &str)
    ensures
        final(s)@ == old(s)@ + t@,
{
    s.push_str(t);
}

/// The characters of a string slice, in order.
pub fn chars_of(s: &str) -> (v: Vec<char>)
    ensures
        v@ == s@,
{
    let mut v: Vec<char> = Vec::new();
    for c in it: s.chars()
        invariant
            v@ == it.seq().take(it.index() as int),
    {
        v.push(c);
    }
    v
}

/// A string made of `v[lo..hi]`.
pub fn string_from_range(v: &Vec<char>, lo: usize, hi: usize) -> (s: String)
    requires
        lo <= hi <= v.len(),
    ensures
        s@ == v@.subrange(lo as int, hi as int),
{
    let mut s = String::new();
    let mut i = lo;
    while i < hi
        invariant
            lo <= i <= hi <= v.len(),
            s@ == v@.subrange(lo as int, i as int),
        decreases hi - i,
    {
        push_char(&mut s, v[i]);
        i = i + 1;
        assert(s@ =~= v@.subrange(lo as int, i as int));
    }
    s
}

/// A string made of all of `v`.
pub fn string_from(v: &Vec<char>) -> (s: String)
    ensures
        s@ == v@,
{
    let s = string_from_range(v, 0, v.len());
    assert(v@.subrange(0, v@.len() as int) =~= v@);
    s
}

/// Appends `v[lo..hi]` to `s`.
pub fn push_range(s: &mut String, v: &Vec<char>, lo: usize, hi: usize)
    requires
        lo <= hi <= v.len(),
    ensures
        final(s)@ == old(s)@ + v@.subrange(lo as int, hi as int),
{
    let mut i = lo;
    while i < hi
        invariant
            lo <= i <= hi <= v.len(),
            s@ == old(s)@ + v@.subrange(lo as int, i as int),
        decreases hi - i,
    {
        push_char(s, v[i]);
        i = i + 1;
        assert(s@ =~= old(s)@ + v@.subrange(lo as int, i as int));
    }
}

// ---------------------------------------------------------------------------
// Prefixes, suffixes and search
// ---------------------------------------------------------------------------

pub open spec fn starts_with(s: Seq<char>, p: Seq<char>) -> bool {
    p.len() <= s.len() && s.subrange(0, p.len() as int) == p
}

pub open spec fn ends_with(s: Seq<char>, p: Seq<char>) -> bool {
    p.len() <= s.len() && s.subrange(s.len() - p.len(), s.len() as int) == p
}

/// `p` occurs in `s` starting at index `i`.
pub open spec fn occurs_at(s: Seq<char>, p: Seq<char>, i: int) -> bool {
    0 <= i && i + p.len() <= s.len() && s.subrange(i, i + p.len()) == p
}

/// The first index at or after `i` where `p` occurs in `s`.
pub open spec fn find_from(s: Seq<char>, p: Seq<char>, i: int) -> Option<int>
    decreases s.len() + 1 - i,
{
    if i < 0 || i + p.len() > s.len() {
        None
    } else if occurs_at(s, p, i) {
        Some(i)
    } else {
        find_from(s, p, i + 1)
    }
}

/// The first index where `p` occurs in `s` (`str::find`, counted in characters).
pub open spec fn find(s: Seq<char>, p: Seq<char>) -> Option<int> {
    find_from(s, p, 0)
}

pub open spec fn contains(s: Seq<char>, p: Seq<char>) -> bool {
    find(s, p) is Some
}

/// What `find_from` returns is the first occurrence at or after `i`.
pub proof fn lemma_find_from(s: Seq<char>, p: Seq<char>, i: int)
    requires
        0 <= i,
    ensures
        match find_from(s, p, i) {
            Some(k) => i <= k && occurs_at(s, p, k) && forall|j: int|
                i <= j < k ==> !occurs_at(s, p, j),
            None => forall|j: int| i <= j ==> !occurs_at(s, p, j),
        },
    decreases s.len() + 1 - i,
{
    if i + p.len() > s.len() {
    } else if occurs_at(s, p, i) {
    } else {
        lemma_find_from(s, p, i + 1);
    }
}

/// Whether `p` occurs in `v` at index `i`.
pub fn occurs_at_exec(v: &Vec<char>, p: &Vec<char>, i: usize) -> (b: bool)
    ensures
        b == occurs_at(v@, p@, i as int),
{
    if p.len() > v.len() || i > v.len() - p.len() {
        return false;
    }
    let mut k: usize = 0;
    while k < p.len()
        invariant
            i + p.len() <= v.len(),
            k <= p.len(),
            forall|j: int| 0 <= j < k ==> v@[i + j] == p@[j],
        decreases p.len() - k,
    {
        if v[i + k] != p[k] {
            assert(v@.subrange(i as int, i + p.len())[k as int] != p@[k as int]);
            return false;
        }
        k = k + 1;
    }
    assert(v@.subrange(i as int, i + p.len()) =~= p@);
    true
}

/// `find_from` on character vectors.
pub fn find_from_exec(v: &Vec<char>, p: &Vec<char>, start: usize) -> (r: Option<usize>)
    ensures
        match r {
            Some(k) => find_from(v@, p@, start as int) == Some(k as int),
            None => find_from(v@, p@, start as int) is None,
        },
{
    if p.len() > v.len() || start > v.len() - p.len() {
        return None;
    }
    let mut i = start;
    loop
        invariant
            p.len() <= v.len(),
            start <= i <= v.len() - p.len(),
            find_from(v@, p@, start as int) == find_from(v@, p@, i as int),
        decreases v.len() - p.len() - i,
    {
        if occurs_at_exec(v, p, i) {
            return Some(i);
        }
        if i == v.len() - p.len() {
            assert(find_from(v@, p@, i + 1) is None);
            return None;
        }
        i = i + 1;
    }
}

/// The first index where the character `c` occurs at or after `start`.
pub fn find_char(v: &Vec<char>, c: char, start: usize) -> (r: Option<usize>)
    ensures
        match r {
            Some(k) => start <= k < v.len() && v@[k as int] == c && forall|j: int|
                start <= j < k ==> v@[j] != c,
            None => forall|j: int| start <= j < v.len() ==> v@[j] != c,
        },
{
    let mut i = start;
    while i < v.len()
        invariant
            start <= i,
            forall|j: int| start <= j < i ==> v@[j] != c,
        decreases v.len() - i,
    {
        if v[i] == c {
            return Some(i);
        }
        i = i + 1;
    }
    None
}

/// Whether `v` starts with `p`.
pub fn starts_with_exec(v: &Vec<char>, p: &Vec<char>) -> (b: bool)
    ensures
        b == starts_with(v@, p@),
{
    if p.len() > v.len() {
        return false;
    }
    let b = occurs_at_exec(v, p, 0);
    b
}

/// Whether `v` ends with `p`.
pub fn ends_with_exec(v: &Vec<char>, p: &Vec<char>) -> (b: bool)
    ensures
        b == ends_with(v@, p@),
{
    if p.len() > v.len() {
        return false;
    }
    let b = occurs_at_exec(v, p, v.len() - p.len());
    b
}

/// Whether two character vectors are equal.
pub fn chars_eq(a: &Vec<char>, b: &Vec<char>) -> (r: bool)
    ensures
        r == (a@ == b@),
{
    if a.len() != b.len() {
        return false;
    }
    let r = starts_with_exec(a, b);
    assert(r ==> a@ =~= b@);
    assert(a@ == b@ ==> a@.subrange(0, b@.len() as int) =~= b@);
    r
}

// ---------------------------------------------------------------------------
// Trimming
// ---------------------------------------------------------------------------

/// The number of leading white-space characters.
pub open spec fn ws_prefix_len(s: Seq<char>) -> nat
    decreases s.len(),
{
    if s.len() > 0 && is_ws(s[0]) {
        1 + ws_prefix_len(s.drop_first())
    } else {
        0
    }
}

/// The number of trailing white-space characters.
pub open spec fn ws_suffix_len(s: Seq<char>) -> nat
    decreases s.len(),
{
    if s.len() > 0 && is_ws(s.last()) {
        1 + ws_suffix_len(s.drop_last())
    } else {
        0
    }
}

pub open spec fn trim_start(s: Seq<char>) -> Seq<char> {
    s.skip(ws_prefix_len(s) as int)
}

pub open spec fn trim_end(s: Seq<char>) -> Seq<char> {
    s.take(s.len() - ws_suffix_len(s))
}

/// `str::trim`: white space removed at both ends.
pub open spec fn trim(s: Seq<char>) -> Seq<char> {
    trim_end(trim_start(s))
}

pub proof fn lemma_ws_prefix_len(s: Seq<char>)
    ensures
        ws_prefix_len(s) <= s.len(),
        forall|j: int| 0 <= j < ws_prefix_len(s) ==> is_ws(s[j]),
        ws_prefix_len(s) < s.len() ==> !is_ws(s[ws_prefix_len(s) as int]),
    decreases s.len(),
{
    if s.len() > 0 && is_ws(s[0]) {
        lemma_ws_prefix_len(s.drop_first());
        assert forall|j: int| 0 <= j < ws_prefix_len(s) implies is_ws(s[j]) by {
            if j > 0 {
                assert(s[j] == s.drop_first()[j - 1]);
            }
        }
    }
}

pub proof fn lemma_ws_suffix_len(s: Seq<char>)
    ensures
        ws_suffix_len(s) <= s.len(),
        forall|j: int| s.len() - ws_suffix_len(s) <= j < s.len() ==> is_ws(s[j]),
        ws_suffix_len(s) < s.len() ==> !is_ws(s[s.len() - ws_suffix_len(s) - 1]),
    decreases s.len(),
{
    if s.len() > 0 && is_ws(s.last()) {
        lemma_ws_suffix_len(s.drop_last());
        assert forall|j: int| s.len() - ws_suffix_len(s) <= j < s.len() implies is_ws(s[j]) by {
            if j < s.len() - 1 {
                assert(s[j] == s.drop_last()[j]);
            }
        }
    }
}

/// A prefix length `k` with only white space before it and none at it is `ws_prefix_len`.
pub proof fn lemma_ws_prefix_len_unique(s: Seq<char>, k: int)
    requires
        0 <= k <= s.len(),
        forall|j: int| 0 <= j < k ==> is_ws(s[j]),
        k < s.len() ==> !is_ws(s[k]),
    ensures
        ws_prefix_len(s) == k,
    decreases s.len(),
{
    if k > 0 {
        assert forall|j: int| 0 <= j < k - 1 implies is_ws(s.drop_first()[j]) by {
            assert(s.drop_first()[j] == s[j + 1]);
        }
        if k - 1 < s.drop_first().len() {
            assert(s.drop_first()[k - 1] == s[k]);
        }
        lemma_ws_prefix_len_unique(s.drop_first(), k - 1);
    }
}

pub proof fn lemma_ws_suffix_len_unique(s: Seq<char>, k: int)
    requires
        0 <= k <= s.len(),
        forall|j: int| s.len() - k <= j < s.len() ==> is_ws(s[j]),
        k < s.len() ==> !is_ws(s[s.len() - k - 1]),
    ensures
        ws_suffix_len(s) == k,
    decreases s.len(),
{
    if k > 0 {
        assert forall|j: int| s.drop_last().len() - (k - 1) <= j < s.drop_last().len() implies is_ws(
            s.drop_last()[j],
        ) by {
            assert(s.drop_last()[j] == s[j]);
        }
        if k - 1 < s.drop_last().len() {
            assert(s.drop_last()[s.drop_last().len() - (k - 1) - 1] == s[s.len() - k - 1]);
        }
        lemma_ws_suffix_len_unique(s.drop_last(), k - 1);
    }
}

/// The bounds `(lo, hi)` of `trim(v[start..end])` inside `v`.
pub fn trim_bounds(v: &Vec<char>, start: usize, end: usize) -> (r: (usize, usize))
    requires
        start <= end <= v.len(),
    ensures
        start <= r.0 <= r.1 <= end,
        v@.subrange(r.0 as int, r.1 as int) == trim(v@.subrange(start as int, end as int)),
{
    let ghost s = v@.subrange(start as int, end as int);
    let mut lo = start;
    while lo < end && is_whitespace(v[lo])
        invariant
            start <= lo <= end <= v.len(),
            forall|j: int| start <= j < lo ==> is_ws(v@[j]),
        decreases end - lo,
    {
        lo = lo + 1;
    }
    proof {
        lemma_ws_prefix_len_unique(s, lo - start);
    }
    let ghost t = trim_start(s);
    assert(t =~= v@.subrange(lo as int, end as int));
    let mut hi = end;
    while hi > lo && is_whitespace(v[hi - 1])
        invariant
            start <= lo <= hi <= end <= v.len(),
            forall|j: int| hi <= j < end ==> is_ws(v@[j]),
        decreases hi - lo,
    {
        hi = hi - 1;
    }
    proof {
        assert forall|j: int| t.len() - (end - hi) <= j < t.len() implies is_ws(t[j]) by {
            assert(t[j] == v@[lo + j]);
        }
        if end - hi < t.len() {
            assert(t[t.len() - (end - hi) - 1] == v@[hi - 1]);
        }
        lemma_ws_suffix_len_unique(t, end - hi);
    }
    assert(trim(s) =~= v@.subrange(lo as int, hi as int));
    (lo, hi)
}

/// `str::trim` on a string slice.
pub fn trim_str(s: &str) -> (r: String)
    ensures
        r@ == trim(s@),
{
    let v = chars_of(s);
    let (lo, hi) = trim_bounds(&v, 0, v.len());
    assert(v@.subrange(0, v@.len() as int) =~= v@);
    string_from_range(&v, lo, hi)
}


// ---------------------------------------------------------------------------
// Splitting
// ---------------------------------------------------------------------------

/// The first index of the character `c` in `s`.
pub open spec fn char_pos(s: Seq<char>, c: char) -> Option<int> {
    find(s, seq![c])
}

pub proof fn lemma_char_pos(s: Seq<char>, c: char)
    ensures
        match char_pos(s, c) {
            Some(k) => 0 <= k < s.len() && s[k] == c && forall|j: int| 0 <= j < k ==> s[j] != c,
            None => forall|j: int| 0 <= j < s.len() ==> s[j] != c,
        },
{
    lemma_find_from(s, seq![c], 0);
    match char_pos(s, c) {
        Some(k) => {
            assert(s.subrange(k, k + 1)[0] == s[k]);
            assert forall|j: int| 0 <= j < k implies s[j] != c by {
                if s[j] == c {
                    assert(s.subrange(j, j + 1) =~= seq![c]);
                    assert(occurs_at(s, seq![c], j));
                }
            }
        },
        None => {
            assert forall|j: int| 0 <= j < s.len() implies s[j] != c by {
                if s[j] == c {
                    assert(s.subrange(j, j + 1) =~= seq![c]);
                    assert(occurs_at(s, seq![c], j));
                }
            }
        },
    }
}

/// `str::split` by one character: the pieces between occurrences of `c`.
pub open spec fn split_char_spec(s: Seq<char>, c: char) -> Seq<Seq<char>>
    decreases s.len(),
{
    match char_pos(s, c) {
        None => seq![s],
        Some(k) => if 0 <= k < s.len() {
            seq![s.take(k)] + split_char_spec(s.skip(k + 1), c)
        } else {
            seq![s]
        },
    }
}

/// Splits `v` at every occurrence of `c`.
pub fn split_char(v: &Vec<char>, c: char) -> (r: Vec<Vec<char>>)
    ensures
        r.deep_view() == split_char_spec(v@, c),
{
    let mut out: Vec<Vec<char>> = Vec::new();
    let mut cur: Vec<char> = Vec::new();
    let mut i: usize = 0;
    let mut piece_start: usize = 0;
    assert(v@.skip(0) =~= v@);
    assert(out.deep_view() + split_char_spec(v@, c) =~= split_char_spec(v@, c));
    while i < v.len()
        invariant
            piece_start <= i <= v.len(),
            cur@ == v@.subrange(piece_start as int, i as int),
            forall|j: int| piece_start <= j < i ==> v@[j] != c,
            split_char_spec(v@, c) == out.deep_view() + split_char_spec(v@.skip(piece_start as int), c),
        decreases v.len() - i,
    {
        if v[i] == c {
            proof {
                let rest = v@.skip(piece_start as int);
                lemma_char_pos(rest, c);
                assert(rest[i - piece_start] == c);
                assert forall|j: int| 0 <= j < i - piece_start implies rest[j] != c by {
                    assert(rest[j] == v@[piece_start + j]);
                }
                match char_pos(rest, c) {
                    Some(k) => {
                        if k < i - piece_start {
                            assert(rest[k] != c);
                        } else if k > i - piece_start {
                            assert(rest[i - piece_start] != c);
                        }
                    },
                    None => {
                        assert(rest[i - piece_start] != c);
                    },
                }
                let k = char_pos(rest, c)->0;
                assert(k == i - piece_start);
                assert(rest.take(k) =~= cur@);
                assert(rest.skip(k + 1) =~= v@.skip(i + 1));
            }
            let ghost old_out = out.deep_view();
            assert(cur.deep_view() =~= cur@);
    out.push(cur);
            assert(out.deep_view() =~= old_out.push(cur@));
            cur = Vec::new();
            i = i + 1;
            piece_start = i;
            assert(cur@ =~= v@.subrange(piece_start as int, i as int));
        } else {
            cur.push(v[i]);
            i = i + 1;
            assert(cur@ =~= v@.subrange(piece_start as int, i as int));
        }
    }
    proof {
        let rest = v@.skip(piece_start as int);
        lemma_char_pos(rest, c);
        assert forall|j: int| 0 <= j < rest.len() implies rest[j] != c by {
            assert(rest[j] == v@[piece_start + j]);
        }
        assert(rest =~= cur@);
    }
    let ghost old_out = out.deep_view();
    assert(cur.deep_view() =~= cur@);
    out.push(cur);
    assert(out.deep_view() =~= old_out.push(v@.skip(piece_start as int)));
    out
}

/// The length of the leading run of non-white-space characters.
pub open spec fn word_len(s: Seq<char>) -> nat
    decreases s.len(),
{
    if s.len() > 0 && !is_ws(s[0]) {
        1 + word_len(s.drop_first())
    } else {
        0
    }
}

/// `str::split_whitespace`: the maximal runs of non-white-space characters.
pub open spec fn split_ws_spec(s: Seq<char>) -> Seq<Seq<char>>
    decreases s.len(),
{
    if s.len() == 0 {
        seq![]
    } else if is_ws(s[0]) {
        split_ws_spec(s.drop_first())
    } else {
        let w = word_len(s);
        if 0 < w <= s.len() {
            seq![s.take(w as int)] + split_ws_spec(s.skip(w as int))
        } else {
            seq![]
        }
    }
}

pub proof fn lemma_word_len_unique(s: Seq<char>, k: int)
    requires
        0 <= k <= s.len(),
        forall|j: int| 0 <= j < k ==> !is_ws(s[j]),
        k < s.len() ==> is_ws(s[k]),
    ensures
        word_len(s) == k,
    decreases s.len(),
{
    if k > 0 {
        assert forall|j: int| 0 <= j < k - 1 implies !is_ws(s.drop_first()[j]) by {
            assert(s.drop_first()[j] == s[j + 1]);
        }
        if k - 1 < s.drop_first().len() {
            assert(s.drop_first()[k - 1] == s[k]);
        }
        lemma_word_len_unique(s.drop_first(), k - 1);
    }
}

/// Splits `v` into its white-space separated words.
pub fn split_whitespace(v: &Vec<char>) -> (r: Vec<Vec<char>>)
    ensures
        r.deep_view() == split_ws_spec(v@),
{
    let mut out: Vec<Vec<char>> = Vec::new();
    let mut i: usize = 0;
    assert(v@.skip(0) =~= v@);
    while i < v.len()
        invariant
            i <= v.len(),
            split_ws_spec(v@) == out.deep_view() + split_ws_spec(v@.skip(i as int)),
        decreases v.len() - i,
    {
        if is_whitespace(v[i]) {
            assert(v@.skip(i as int).drop_first() =~= v@.skip(i + 1));
            i = i + 1;
        } else {
            let start = i;
            let mut word: Vec<char> = Vec::new();
            while i < v.len() && !is_whitespace(v[i])
                invariant
                    start <= i <= v.len(),
                    word@ == v@.subrange(start as int, i as int),
                    forall|j: int| start <= j < i ==> !is_ws(v@[j]),
                decreases v.len() - i,
            {
                word.push(v[i]);
                i = i + 1;
                assert(word@ =~= v@.subrange(start as int, i as int));
            }
            proof {
                let rest = v@.skip(start as int);
                assert forall|j: int| 0 <= j < i - start implies !is_ws(rest[j]) by {
                    assert(rest[j] == v@[start + j]);
                }
                if i - start < rest.len() {
                    assert(rest[i - start] == v@[i as int]);
                }
                lemma_word_len_unique(rest, i - start);
                assert(rest.take(i - start) =~= word@);
                assert(rest.skip(i - start) =~= v@.skip(i as int));
            }
            let ghost old_out = out.deep_view();
            assert(word.deep_view() =~= word@);
    out.push(word);
            assert(out.deep_view() =~= old_out.push(v@.subrange(start as int, i as int)));
        }
    }
    out
}

/// `str::lines`: pieces ended by a line feed, with a carriage return before
/// the line feed removed; a final line feed does not start an empty line.
pub open spec fn lines_spec(s: Seq<char>) -> Seq<Seq<char>>
    decreases s.len(),
{
    if s.len() == 0 {
        seq![]
    } else {
        match char_pos(s, '\n') {
            None => seq![s],
            Some(k) => if 0 <= k < s.len() {
                let line = s.take(k);
                let line = if line.len() > 0 && line.last() == '\r' {
                    line.drop_last()
                } else {
                    line
                };
                seq![line] + lines_spec(s.skip(k + 1))
            } else {
                seq![s]
            },
        }
    }
}

/// Splits `v` into lines as `str::lines` does.
pub fn lines(v: &Vec<char>) -> (r: Vec<Vec<char>>)
    ensures
        r.deep_view() == lines_spec(v@),
{
    let mut out: Vec<Vec<char>> = Vec::new();
    let mut start: usize = 0;
    assert(v@.skip(0) =~= v@);
    while start < v.len()
        invariant
            start <= v.len(),
            lines_spec(v@) == out.deep_view() + lines_spec(v@.skip(start as int)),
        decreases v.len() - start,
    {
        let rest_ghost = Ghost(v@.skip(start as int));
        proof {
            lemma_char_pos(rest_ghost@, '\n');
        }
        match find_char(v, '\n', start) {
            None => {
                proof {
                    assert forall|j: int| 0 <= j < rest_ghost@.len() implies rest_ghost@[j] != '\n' by {
                        assert(rest_ghost@[j] == v@[start + j]);
                    }
                }
                let line = {
                    let mut w: Vec<char> = Vec::new();
                    let mut i = start;
                    while i < v.len()
                        invariant
                            start <= i <= v.len(),
                            w@ == v@.subrange(start as int, i as int),
                        decreases v.len() - i,
                    {
                        w.push(v[i]);
                        i = i + 1;
                        assert(w@ =~= v@.subrange(start as int, i as int));
                    }
                    w
                };
                assert(line@ =~= rest_ghost@);
                let ghost old_out = out.deep_view();
                assert(line.deep_view() =~= line@);
    out.push(line);
                assert(out.deep_view() =~= old_out.push(rest_ghost@));
                assert(v@.skip(v.len() as int) =~= Seq::<char>::empty());
                start = v.len();
            },
            Some(k) => {
                proof {
                    assert(rest_ghost@[k - start] == '\n');
                    assert forall|j: int| 0 <= j < k - start implies rest_ghost@[j] != '\n' by {
                        assert(rest_ghost@[j] == v@[start + j]);
                    }
                }
                let end = if k > start && v[k - 1] == '\r' {
                    k - 1
                } else {
                    k
                };
                let mut w: Vec<char> = Vec::new();
                let mut i = start;
                while i < end
                    invariant
                        start <= i <= end <= v.len(),
                        w@ == v@.subrange(start as int, i as int),
                    decreases end - i,
                {
                    w.push(v[i]);
                    i = i + 1;
                    assert(w@ =~= v@.subrange(start as int, i as int));
                }
                proof {
                    let line0 = rest_ghost@.take(k - start);
                    assert(line0 =~= v@.subrange(start as int, k as int));
                    if k > start && v@[k - 1] == '\r' {
                        assert(line0.drop_last() =~= w@);
                    } else {
                        assert(line0 =~= w@);
                    }
                    assert(rest_ghost@.skip(k - start + 1) =~= v@.skip(k + 1));
                }
                let ghost old_out = out.deep_view();
                assert(w.deep_view() =~= w@);
    out.push(w);
                assert(out.deep_view() =~= old_out.push(w@));
                start = k + 1;
            },
        }
    }
    out
}

// ---------------------------------------------------------------------------
// Numbers
// ---------------------------------------------------------------------------

/// The decimal value of a sequence of ASCII digits.
pub open spec fn digits_value(s: Seq<char>) -> int
    decreases s.len(),
{
    if s.len() == 0 {
        0
    } else {
        digits_value(s.drop_last()) * 10 + ((s.last() as u32) - ('0' as u32))
    }
}

pub open spec fn all_digits(s: Seq<char>) -> bool {
    forall|i: int| 0 <= i < s.len() ==> is_ascii_digit(#[trigger] s[i])
}

/// `u32::from_str`: an optional `+` and then one or more ASCII digits whose
/// value fits in a `u32`.
pub open spec fn parse_u32_spec(s: Seq<char>) -> Option<u32> {
    let d = if s.len() > 0 && s[0] == '+' {
        s.drop_first()
    } else {
        s
    };
    if d.len() > 0 && all_digits(d) && digits_value(d) <= u32::MAX {
        Some(digits_value(d) as u32)
    } else {
        None
    }
}

pub proof fn lemma_digits_value_nonneg(s: Seq<char>)
    requires
        all_digits(s),
    ensures
        digits_value(s) >= 0,
    decreases s.len(),
{
    if s.len() > 0 {
        assert(is_ascii_digit(s[s.len() - 1]));
        lemma_digits_value_nonneg(s.drop_last());
    }
}

/// Parses `v[lo..hi]` as `u32::from_str` does.
pub fn parse_u32(v: &Vec<char>, lo: usize, hi: usize) -> (r: Option<u32>)
    requires
        lo <= hi <= v.len(),
    ensures
        r == parse_u32_spec(v@.subrange(lo as int, hi as int)),
{
    let ghost s = v@.subrange(lo as int, hi as int);
    let start = if lo < hi && v[lo] == '+' {
        lo + 1
    } else {
        lo
    };
    let ghost d = v@.subrange(start as int, hi as int);
    assert(d =~= (if s.len() > 0 && s[0] == '+' {
        s.drop_first()
    } else {
        s
    }));
    if start == hi {
        return None;
    }
    let mut acc: u64 = 0;
    let mut i = start;
    while i < hi
        invariant
            start <= i <= hi <= v.len(),
            d == v@.subrange(start as int, hi as int),
            parse_u32_spec(v@.subrange(lo as int, hi as int)) == (if d.len() > 0 && all_digits(d)
                && digits_value(d) <= u32::MAX {
                Some(digits_value(d) as u32)
            } else {
                None
            }),
            all_digits(v@.subrange(start as int, i as int)),
            acc == digits_value(v@.subrange(start as int, i as int)),
            acc <= u32::MAX,
        decreases hi - i,
    {
        let c = v[i];
        if !('0' <= c && c <= '9') {
            assert(d[i - start] == c);
            return None;
        }
        let ghost prev = v@.subrange(start as int, i as int);
        let next = acc * 10 + ((c as u64) - ('0' as u64));
        proof {
            let cur = v@.subrange(start as int, i + 1);
            assert(cur.drop_last() =~= prev);
            assert(cur.last() == c);
            assert forall|j: int| 0 <= j < cur.len() implies is_ascii_digit(#[trigger] cur[j]) by {
                if j < prev.len() {
                    assert(cur[j] == prev[j]);
                }
            }
        }
        if next > 4294967295 {
            proof {
                // every longer prefix only grows
                lemma_digits_prefix_grows(d, i + 1 - start);
                assert(v@.subrange(start as int, i + 1) =~= d.take(i + 1 - start));
            }
            return None;
        }
        acc = next;
        i = i + 1;
    }
    assert(v@.subrange(start as int, hi as int) =~= d);
    Some(acc as u32)
}

/// Extending a sequence of digits never lowers its value below that of its prefix.
pub proof fn lemma_digits_prefix_grows(d: Seq<char>, k: int)
    requires
        0 <= k <= d.len(),
    ensures
        all_digits(d) ==> digits_value(d) >= digits_value(d.take(k)),
    decreases d.len() - k,
{
    if k < d.len() && all_digits(d) {
        lemma_digits_prefix_grows(d, k + 1);
        let t = d.take(k + 1);
        assert(t.drop_last() =~= d.take(k));
        assert(is_ascii_digit(d[k]));
        assert(t.last() == d[k]);
        assert forall|i: int| 0 <= i < d.take(k).len() implies is_ascii_digit(#[trigger] d.take(k)[i]) by {
            assert(d.take(k)[i] == d[i]);
        }
        lemma_digits_value_nonneg(d.take(k));
    } else if k == d.len() {
        assert(d.take(k) =~= d);
    }
}


/// A copy of `v[lo..hi]`.
pub fn sub_vec(v: &Vec<char>, lo: usize, hi: usize) -> (r: Vec<char>)
    requires
        lo <= hi <= v.len(),
    ensures
        r@ == v@.subrange(lo as int, hi as int),
{
    let mut w: Vec<char> = Vec::new();
    let mut i = lo;
    while i < hi
        invariant
            lo <= i <= hi <= v.len(),
            w@ == v@.subrange(lo as int, i as int),
        decreases hi - i,
    {
        w.push(v[i]);
        i = i + 1;
        assert(w@ =~= v@.subrange(lo as int, i as int));
    }
    w
}

/// `trim` of a character vector, as a new vector.
pub fn trim_vec(v: &Vec<char>) -> (r: Vec<char>)
    ensures
        r@ == trim(v@),
{
    let (lo, hi) = trim_bounds(v, 0, v.len());
    assert(v@.subrange(0, v@.len() as int) =~= v@);
    sub_vec(v, lo, hi)
}

/// `char_pos` on a character vector.
pub fn char_pos_exec(v: &Vec<char>, c: char) -> (r: Option<usize>)
    ensures
        match r {
            Some(k) => k < v.len() && v@[k as int] == c && char_pos(v@, c) == Some(k as int),
            None => char_pos(v@, c) is None,
        },
{
    let r = find_char(v, c, 0);
    proof {
        lemma_char_pos(v@, c);
        match r {
            Some(k) => {
                match char_pos(v@, c) {
                    Some(k2) => {
                        if k2 < k {
                            assert(v@[k2] != c);
                        } else if k2 > k {
                            assert(v@[k as int] != c);
                        }
                    },
                    None => {
                        assert(v@[k as int] != c);
                    },
                }
            },
            None => {
                match char_pos(v@, c) {
                    Some(k2) => {
                        assert(v@[k2] != c);
                    },
                    None => {},
                }
            },
        }
    }
    r
}


// ---------------------------------------------------------------------------
// UTF-8 byte lengths
// ---------------------------------------------------------------------------

/// The number of bytes of the UTF-8 encoding of `c` (`char::len_utf8`).
pub open spec fn char_utf8_len(c: char) -> nat {
    let u = c as u32;
    if u <= 0x7F {
        1
    } else if u <= 0x7FF {
        2
    } else if u <= 0xFFFF {
        3
    } else {
        4
    }
}

/// The number of bytes of the UTF-8 encoding of `s` (`str::len`).
pub open spec fn byte_len(s: Seq<char>) -> nat
    decreases s.len(),
{
    if s.len() == 0 {
        0
    } else {
        byte_len(s.drop_last()) + char_utf8_len(s.last())
    }
}

/// `char::len_utf8`.
pub fn len_utf8(c: char) -> (n: usize)
    ensures
        n == char_utf8_len(c),
        1 <= n <= 4,
{
    let u = c as u32;
    if u <= 0x7F {
        1
    } else if u <= 0x7FF {
        2
    } else if u <= 0xFFFF {
        3
    } else {
        4
    }
}

pub proof fn lemma_byte_len_concat(a: Seq<char>, b: Seq<char>)
    ensures
        byte_len(a + b) == byte_len(a) + byte_len(b),
    decreases b.len(),
{
    if b.len() > 0 {
        lemma_byte_len_concat(a, b.drop_last());
        assert((a + b).drop_last() =~= a + b.drop_last());
        assert((a + b).last() == b.last());
    } else {
        assert(a + b =~= a);
    }
}

pub proof fn lemma_byte_len_take_step(s: Seq<char>, k: int)
    requires
        0 <= k < s.len(),
    ensures
        byte_len(s.take(k + 1)) == byte_len(s.take(k)) + char_utf8_len(s[k]),
{
    assert(s.take(k + 1).drop_last() =~= s.take(k));
}

/// Byte offsets of character boundaries grow strictly with the character index.
pub proof fn lemma_byte_len_take_mono(s: Seq<char>, j: int, k: int)
    requires
        0 <= j <= k <= s.len(),
    ensures
        byte_len(s.take(j)) + (k - j) <= byte_len(s.take(k)),
        byte_len(s.take(k)) <= byte_len(s),
    decreases k - j,
{
    if j < k {
        lemma_byte_len_take_mono(s, j + 1, k);
        lemma_byte_len_take_step(s, j);
    } else {
        lemma_byte_len_concat(s.take(k), s.skip(k));
        assert(s.take(k) + s.skip(k) =~= s);
    }
}

/// The UTF-8 encoding that `str::len` counts has `byte_len` bytes.
pub proof fn lemma_encode_utf8_len(s: Seq<char>)
    ensures
        vstd::utf8::encode_utf8(s).len() == byte_len(s),
    decreases s.len(),
{
    if s.len() > 0 {
        lemma_encode_utf8_len(s.drop_first());
        lemma_byte_len_concat(seq![s[0]], s.drop_first());
        assert(seq![s[0]] + s.drop_first() =~= s);
        assert(seq![s[0]].drop_last() =~= Seq::<char>::empty());
        assert(byte_len(Seq::<char>::empty()) == 0);
        assert(seq![s[0]].last() == s[0]);
        assert(byte_len(seq![s[0]]) == char_utf8_len(s[0]));
        vstd::utf8::char_is_scalar(s[0]);
        assert(vstd::utf8::encode_scalar(s[0] as u32).len() == char_utf8_len(s[0]));
        assert(vstd::utf8::encode_utf8(s) == vstd::utf8::encode_scalar(s[0] as u32)
            + vstd::utf8::encode_utf8(s.drop_first()));
    }
}

/// A character index whose prefix is `pos` bytes long.
pub open spec fn is_boundary(s: Seq<char>, pos: int) -> bool {
    exists|k: int| 0 <= k <= s.len() && byte_len(s.take(k)) == pos
}

/// The character index at byte offset `pos` (meaningful where `is_boundary(s, pos)`).
pub open spec fn char_index(s: Seq<char>, pos: int) -> int {
    choose|k: int| 0 <= k <= s.len() && byte_len(s.take(k)) == pos
}

pub proof fn lemma_char_index(s: Seq<char>, pos: int, k: int)
    requires
        0 <= k <= s.len(),
        byte_len(s.take(k)) == pos,
    ensures
        is_boundary(s, pos),
        char_index(s, pos) == k,
{
    let k2 = char_index(s, pos);
    if k2 < k {
        lemma_byte_len_take_mono(s, k2, k);
    } else if k2 > k {
        lemma_byte_len_take_mono(s, k, k2);
    }
}

/// `String::len`: the number of bytes of the UTF-8 encoding.
#[verifier::external_body]
pub(crate) fn string_len(s: &String) -> (n: usize)
    ensures
        n == byte_len(s@),
{
    s.len()
}

/// The character index at byte offset `pos`, where `pos` is a character boundary.
pub fn char_index_exec(v: &Vec<char>, pos: usize, total: usize) -> (k: usize)
    requires
        is_boundary(v@, pos as int),
        total == byte_len(v@),
    ensures
        k == char_index(v@, pos as int),
        k <= v.len(),
        byte_len(v@.take(k as int)) == pos,
{
    let ghost target = char_index(v@, pos as int);
    let mut k: usize = 0;
    let mut acc: usize = 0;
    assert(v@.take(0) =~= Seq::<char>::empty());
    proof {
        lemma_byte_len_take_mono(v@, 0, target);
    }
    while acc < pos
        invariant
            0 <= target <= v.len(),
            byte_len(v@.take(target)) == pos,
            k <= target,
            acc == byte_len(v@.take(k as int)),
            total == byte_len(v@),
        decreases target - k,
    {
        proof {
            if k == target {
                assert(false);
            }
            lemma_byte_len_take_step(v@, k as int);
            lemma_byte_len_take_mono(v@, k + 1, target);
        }
        acc = acc + len_utf8(v[k]);
        k = k + 1;
    }
    proof {
        if k < target {
            lemma_byte_len_take_mono(v@, k as int, target);
        }
        lemma_char_index(v@, pos as int, k as int);
    }
    k
}

/// The byte length of `v[..k]`.
pub fn prefix_byte_len(v: &Vec<char>, k: usize, total: usize) -> (n: usize)
    requires
        k <= v.len(),
        total == byte_len(v@),
    ensures
        n == byte_len(v@.take(k as int)),
{
    let mut i: usize = 0;
    let mut acc: usize = 0;
    assert(v@.take(0) =~= Seq::<char>::empty());
    while i < k
        invariant
            i <= k <= v.len(),
            acc == byte_len(v@.take(i as int)),
            total == byte_len(v@),
        decreases k - i,
    {
        proof {
            lemma_byte_len_take_step(v@, i as int);
            lemma_byte_len_take_mono(v@, i + 1, v@.len() as int);
        }
        acc = acc + len_utf8(v[i]);
        i = i + 1;
    }
    acc
}

/// The last index of `c` in `s` (`str::rfind` on a character, counted in characters).
pub open spec fn char_rpos(s: Seq<char>, c: char) -> Option<int>
    decreases s.len(),
{
    if s.len() == 0 {
        None
    } else if s.last() == c {
        Some(s.len() - 1)
    } else {
        char_rpos(s.drop_last(), c)
    }
}

pub proof fn lemma_char_rpos(s: Seq<char>, c: char)
    ensures
        char_rpos(s, c) matches Some(k) ==> 0 <= k < s.len() && s[k] == c && forall|j: int|
            k < j < s.len() ==> s[j] != c,
        char_rpos(s, c) is None ==> forall|j: int| 0 <= j < s.len() ==> s[j] != c,
    decreases s.len(),
{
    if s.len() > 0 && s.last() != c {
        let t = s.drop_last();
        lemma_char_rpos(t, c);
        match char_rpos(s, c) {
            Some(k) => {
                assert forall|j: int| k < j < s.len() implies s[j] != c by {
                    if j < t.len() {
                        assert(s[j] == t[j]);
                    }
                }
            },
            None => {
                assert forall|j: int| 0 <= j < s.len() implies s[j] != c by {
                    if j < t.len() {
                        assert(s[j] == t[j]);
                    }
                }
            },
        }
    }
}

/// `char_rpos` on a character vector.
pub fn char_rpos_exec(v: &Vec<char>, c: char) -> (r: Option<usize>)
    ensures
        r matches Some(k) ==> Some(k as int) == char_rpos(v@, c) && k < v.len(),
        r is None ==> char_rpos(v@, c) is None,
{
    let mut i = v.len();
    assert(v@.take(v.len() as int) =~= v@);
    while i > 0
        invariant
            i <= v.len(),
            char_rpos(v@, c) == char_rpos(v@.take(i as int), c),
        decreases i,
    {
        if v[i - 1] == c {
            return Some(i - 1);
        }
        assert(v@.take(i as int).drop_last() =~= v@.take(i - 1));
        i = i - 1;
    }
    None
}

/// `a` followed by `b`.
pub fn concat_chars(a: &Vec<char>, b: &Vec<char>) -> (r: Vec<char>)
    ensures
        r@ == a@ + b@,
{
    let mut r = sub_vec(a, 0, a.len());
    let mut i: usize = 0;
    while i < b.len()
        invariant
            i <= b.len(),
            r@ == a@ + b@.take(i as int),
        decreases b.len() - i,
    {
        r.push(b[i]);
        i = i + 1;
        assert(r@ =~= a@ + b@.take(i as int));
    }
    assert(b@.take(b.len() as int) =~= b@);
    r
}

/// Of a string and a prefix of it, the longer in characters is the longer in bytes.
pub proof fn lemma_prefix_byte_len(s: Seq<char>, p: Seq<char>)
    requires
        starts_with(s, p),
    ensures
        byte_len(p) <= byte_len(s),
        byte_len(p) < byte_len(s) <==> p.len() < s.len(),
{
    assert(s.take(p.len() as int) =~= p);
    lemma_byte_len_take_mono(s, p.len() as int, s.len() as int);
    assert(s.take(s.len() as int) =~= s);
    if p.len() == s.len() {
        assert(p =~= s);
    }
}

/// Whether `hay` contains `needle` (`str::contains`).
pub fn str_contains(hay: &str, needle: &str) -> (b: bool)
    ensures
        b == contains(hay@, needle@),
{
    let h = chars_of(hay);
    let n = chars_of(needle);
    find_from_exec(&h, &n, 0).is_some()
}

/// Whether two strings are equal.
pub fn str_eq(a: &str, b: &str) -> (r: bool)
    ensures
        r == (a@ == b@),
{
    let x = chars_of(a);
    let y = chars_of(b);
    chars_eq(&x, &y)
}

/// A copy of a string.
pub fn copy_str(s: &str) -> (r: String)
    ensures
        r@ == s@,
{
    string_from(&chars_of(s))
}

/// The Unicode lower-case form of a string (`str::to_lowercase`).
pub uninterp spec fn unicode_lowercase(s: Seq<char>) -> Seq<char>;

/// Every character is ASCII.
pub open spec fn all_ascii(s: Seq<char>) -> bool {
    forall|i: int| 0 <= i < s.len() ==> (#[trigger] s[i] as u32) < 128
}

/// Each character ASCII lower-cased.
pub open spec fn ascii_lowered(s: Seq<char>) -> Seq<char> {
    Seq::new(s.len(), |i: int| ascii_lower(s[i]))
}

/// `str::to_lowercase`, which maps each character by the Unicode
/// `Lowercase` mapping (context-sensitive for final sigma); what it returns
/// is named `unicode_lowercase`. On ASCII text that mapping takes `A`-`Z`
/// to `a`-`z` and leaves every other character as it is.
#[verifier::external_body]
pub(crate) fn to_lowercase(s: &str) -> (r: String)
    ensures
        r@ == unicode_lowercase(s@),
        all_ascii(s@) ==> r@ == ascii_lowered(s@),
{
    s.to_lowercase()
}

/// `str::split` gives at least one piece, none longer than the string.
pub proof fn lemma_split_char_lens(s: Seq<char>, c: char)
    ensures
        split_char_spec(s, c).len() >= 1,
        forall|j: int|
            0 <= j < split_char_spec(s, c).len() ==> (#[trigger] split_char_spec(s, c)[j]).len()
                <= s.len(),
    decreases s.len(),
{
    match char_pos(s, c) {
        None => {},
        Some(k) => {
            if 0 <= k < s.len() {
                lemma_split_char_lens(s.skip(k + 1), c);
                let rest = split_char_spec(s.skip(k + 1), c);
                assert forall|j: int|
                    0 <= j < split_char_spec(s, c).len() implies (#[trigger] split_char_spec(
                    s,
                    c,
                )[j]).len() <= s.len() by {
                    if j > 0 {
                        assert(split_char_spec(s, c)[j] == rest[j - 1]);
                    }
                }
            }
        },
    }
}

} // verus!
