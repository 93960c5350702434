//! Character-level text primitives: the mathematical model of Rust's `trim`,
//! `find`, `split` and `lines`, and verified executable versions over `Vec<char>`.
use vstd::prelude::*;

verus! {

// ───────────────────────── specification ─────────────────────────

/// Unicode `White_Space`, the property behind `char::is_whitespace`.
pub open spec fn is_ws(c: char) -> bool {
    ||| ('\u{9}' <= c && c <= '\u{d}')
    ||| c == ' '
    ||| c == '\u{85}'
    ||| c == '\u{a0}'
    ||| c == '\u{1680}'
    ||| ('\u{2000}' <= c && c <= '\u{200a}')
    ||| c == '\u{2028}'
    ||| c == '\u{2029}'
    ||| c == '\u{202f}'
    ||| c == '\u{205f}'
    ||| c == '\u{3000}'
}

/// `str::trim_start`.
pub open spec fn trim_start(s: Seq<char>) -> Seq<char>
    decreases s.len(),
{
    if s.len() > 0 && is_ws(s[0]) {
        trim_start(s.drop_first())
    } else {
        s
    }
}

/// `str::trim_end`.
pub open spec fn trim_end(s: Seq<char>) -> Seq<char>
    decreases s.len(),
{
    if s.len() > 0 && is_ws(s.last()) {
        trim_end(s.drop_last())
    } else {
        s
    }
}

/// `str::trim`.
pub open spec fn trim(s: Seq<char>) -> Seq<char> {
    trim_end(trim_start(s))
}

pub open spec fn starts_with(s: Seq<char>, p: Seq<char>) -> bool {
    p.len() <= s.len() && s.take(p.len() as int) == p
}

pub open spec fn ends_with(s: Seq<char>, p: Seq<char>) -> bool {
    p.len() <= s.len() && s.skip(s.len() - p.len()) == p
}

/// `p` occurs in `s` at position `i`.
pub open spec fn matches_at(s: Seq<char>, p: Seq<char>, i: int) -> bool {
    0 <= i && i + p.len() <= s.len() && s.subrange(i, i + p.len()) == p
}

/// `str::find` with a string pattern: the first position at which `p` occurs.
pub open spec fn find_sub(s: Seq<char>, p: Seq<char>) -> Option<int>
    decreases s.len(),
{
    if s.len() < p.len() {
        None
    } else if s.take(p.len() as int) == p {
        Some(0)
    } else if s.len() == 0 {
        None
    } else {
        match find_sub(s.drop_first(), p) {
            Some(i) => Some(i + 1),
            None => None,
        }
    }
}

pub open spec fn contains_sub(s: Seq<char>, p: Seq<char>) -> bool {
    find_sub(s, p) is Some
}

/// `str::split` with a non-empty string delimiter.
pub open spec fn split(s: Seq<char>, d: Seq<char>) -> Seq<Seq<char>>
    recommends
        d.len() > 0,
    decreases s.len(),
    when d.len() > 0
{
    match find_sub(s, d) {
        Some(i) => {
            if 0 <= i && i + d.len() <= s.len() {
                seq![s.take(i)] + split(s.skip(i + d.len()), d)
            } else {
                seq![s]
            }
        },
        None => seq![s],
    }
}

/// One line as `str::lines` yields it when it ended with `'\n'`: a final `'\r'` goes.
pub open spec fn strip_cr(l: Seq<char>) -> Seq<char> {
    if l.len() > 0 && l.last() == '\r' {
        l.drop_last()
    } else {
        l
    }
}

/// `str::lines`.
pub open spec fn lines(s: Seq<char>) -> Seq<Seq<char>>
    decreases s.len(),
{
    if s.len() == 0 {
        seq![]
    } else {
        match find_sub(s, seq!['\n']) {
            Some(i) => {
                if 0 <= i < s.len() {
                    seq![strip_cr(s.take(i))] + lines(s.skip(i + 1))
                } else {
                    seq![s]
                }
            },
            None => seq![s],
        }
    }
}

// ───────────────────────── lemmas ─────────────────────────

/// What `find_sub` returns: the first match position, or `None` when there is none.
pub proof fn lemma_find_sub(s: Seq<char>, p: Seq<char>)
    ensures
        match find_sub(s, p) {
            Some(i) => matches_at(s, p, i) && forall|j: int| 0 <= j < i ==> !matches_at(s, p, j),
            None => forall|j: int| !matches_at(s, p, j),
        },
    decreases s.len(),
{
    if s.len() < p.len() {
    } else if s.take(p.len() as int) == p {
        assert(s.subrange(0, p.len() as int) == s.take(p.len() as int));
    } else if s.len() == 0 {
        assert(s.take(p.len() as int) =~= p);
    } else {
        let t = s.drop_first();
        lemma_find_sub(t, p);
        assert(!matches_at(s, p, 0)) by {
            assert(s.subrange(0, p.len() as int) == s.take(p.len() as int));
        }
        assert forall|j: int| 1 <= j && j + p.len() <= s.len() implies (matches_at(s, p, j)
            <==> matches_at(t, p, j - 1)) by {
            assert(s.subrange(j, j + p.len()) =~= t.subrange(j - 1, j - 1 + p.len()));
        }
        match find_sub(t, p) {
            Some(i) => {
                assert forall|j: int| 0 <= j < i + 1 implies !matches_at(s, p, j) by {
                    if j >= 1 && j + p.len() <= s.len() {
                        assert(!matches_at(t, p, j - 1));
                    }
                }
            },
            None => {
                assert forall|j: int| !matches_at(s, p, j) by {
                    if j >= 1 && j + p.len() <= s.len() {
                        assert(!matches_at(t, p, j - 1));
                    }
                }
            },
        }
    }
}

/// A first match determines `find_sub`.
pub proof fn lemma_find_sub_first(s: Seq<char>, p: Seq<char>, i: int)
    requires
        matches_at(s, p, i),
        forall|j: int| 0 <= j < i ==> !matches_at(s, p, j),
    ensures
        find_sub(s, p) == Some(i),
{
    lemma_find_sub(s, p);
    match find_sub(s, p) {
        Some(k) => {
            if k < i {
                assert(!matches_at(s, p, k));
            }
            if k > i {
                assert(!matches_at(s, p, i));
            }
        },
        None => {
            assert(!matches_at(s, p, i));
        },
    }
}

/// No match means `None`.
pub proof fn lemma_find_sub_none(s: Seq<char>, p: Seq<char>)
    requires
        forall|j: int| 0 <= j && j + p.len() <= s.len() ==> !matches_at(s, p, j),
    ensures
        find_sub(s, p) is None,
{
    lemma_find_sub(s, p);
    if let Some(k) = find_sub(s, p) {
        assert(!matches_at(s, p, k));
    }
}

pub proof fn lemma_trim_start_is_suffix(s: Seq<char>)
    ensures
        trim_start(s).len() <= s.len(),
        trim_start(s) == s.skip(s.len() - trim_start(s).len()),
        trim_start(s).len() > 0 ==> !is_ws(trim_start(s)[0]),
        forall|j: int| 0 <= j < s.len() - trim_start(s).len() ==> is_ws(#[trigger] s[j]),
    decreases s.len(),
{
    if s.len() > 0 && is_ws(s[0]) {
        lemma_trim_start_is_suffix(s.drop_first());
        let t = s.drop_first();
        assert(t.skip(t.len() - trim_start(t).len()) =~= s.skip(s.len() - trim_start(s).len()));
        assert forall|j: int| 0 <= j < s.len() - trim_start(s).len() implies is_ws(#[trigger] s[j]) by {
            if j > 0 {
                assert(s[j] == t[j - 1]);
            }
        }
    } else {
        assert(s.skip(0) =~= s);
    }
}

pub proof fn lemma_trim_end_is_prefix(s: Seq<char>)
    ensures
        trim_end(s).len() <= s.len(),
        trim_end(s) == s.take(trim_end(s).len() as int),
        trim_end(s).len() > 0 ==> !is_ws(trim_end(s).last()),
        forall|j: int| trim_end(s).len() <= j < s.len() ==> is_ws(#[trigger] s[j]),
    decreases s.len(),
{
    if s.len() > 0 && is_ws(s.last()) {
        lemma_trim_end_is_prefix(s.drop_last());
        let t = s.drop_last();
        assert(t.take(trim_end(t).len() as int) =~= s.take(trim_end(s).len() as int));
        assert forall|j: int| trim_end(s).len() <= j < s.len() implies is_ws(#[trigger] s[j]) by {
            if j < s.len() - 1 {
                assert(s[j] == t[j]);
            }
        }
    } else {
        assert(s.take(s.len() as int) =~= s);
    }
}

/// `trim_start` of a suffix whose skipped head is all whitespace.
pub proof fn lemma_trim_start_char(s: Seq<char>, k: int)
    requires
        0 <= k <= s.len(),
        forall|j: int| 0 <= j < k ==> is_ws(#[trigger] s[j]),
        k == s.len() || !is_ws(s[k]),
    ensures
        trim_start(s) == s.skip(k),
    decreases k,
{
    if k == 0 {
        assert(s.skip(0) =~= s);
    } else {
        let t = s.drop_first();
        assert forall|j: int| 0 <= j < k - 1 implies is_ws(#[trigger] t[j]) by {
            assert(t[j] == s[j + 1]);
        }
        lemma_trim_start_char(t, k - 1);
        assert(t.skip(k - 1) =~= s.skip(k));
    }
}

/// `trim_end` of a prefix whose dropped tail is all whitespace.
pub proof fn lemma_trim_end_char(s: Seq<char>, k: int)
    requires
        0 <= k <= s.len(),
        forall|j: int| k <= j < s.len() ==> is_ws(#[trigger] s[j]),
        k == 0 || !is_ws(s[k - 1]),
    ensures
        trim_end(s) == s.take(k),
    decreases s.len() - k,
{
    if k == s.len() {
        assert(s.take(k) =~= s);
    } else {
        let t = s.drop_last();
        assert forall|j: int| k <= j < t.len() implies is_ws(#[trigger] t[j]) by {
            assert(t[j] == s[j]);
        }
        lemma_trim_end_char(t, k);
        assert(t.take(k) =~= s.take(k));
    }
}

// ───────────────────────── executable ─────────────────────────

broadcast use vstd::string::axiom_spec_iter;

/// The characters of a string slice, in order.
pub(crate) fn chars_of(s: &str) -> (v: Vec<char>)
    ensures
        v@ == s@,
{
    let mut v: Vec<char> = Vec::new();
    for c in it: s.chars()
        invariant
            v@ == it.seq().take(it.index() as int),
    {
        v.push(c);
    }
    v
}

/// A `String` holding exactly the given characters (`FromIterator<char>` for `String`).
#[verifier::external_body]
pub(crate) fn string_of(v: &[char]) -> (s: String)
    ensures
        s@ == v@,
{
    v.iter().collect()
}

/// Copy of `s[lo..hi]`.
pub fn slice(s: &Vec<char>, lo: usize, hi: usize) -> (r: Vec<char>)
    requires
        lo <= hi <= s.len(),
    ensures
        r@ == s@.subrange(lo as int, hi as int),
{
    let mut r: Vec<char> = Vec::new();
    let mut i = lo;
    while i < hi
        invariant
            lo <= i <= hi <= s.len(),
            r@ == s@.subrange(lo as int, i as int),
        decreases hi - i,
    {
        r.push(s[i]);
        assert(r@ =~= s@.subrange(lo as int, i + 1));
        i += 1;
    }
    r
}

/// Appends `t` to `r`.
pub fn push_all(r: &mut Vec<char>, t: &Vec<char>)
    ensures
        final(r)@ == old(r)@ + t@,
{
    let mut i: usize = 0;
    let ghost r0 = r@;
    while i < t.len()
        invariant
            i <= t.len(),
            r@ == r0 + t@.take(i as int),
        decreases t.len() - i,
    {
        r.push(t[i]);
        assert(r@ =~= r0 + t@.take(i + 1));
        i += 1;
    }
    assert(t@.take(t.len() as int) =~= t@);
}

/// Appends the characters of a string slice.
pub fn push_str(r: &mut Vec<char>, t: &str)
    ensures
        final(r)@ == old(r)@ + t@,
{
    let v = chars_of(t);
    push_all(r, &v);
}

pub fn is_ws_char(c: char) -> (b: bool)
    ensures
        b == is_ws(c),
{
    ('\u{9}' <= c && c <= '\u{d}') || c == ' ' || c == '\u{85}' || c == '\u{a0}' || c == '\u{1680}'
        || ('\u{2000}' <= c && c <= '\u{200a}') || c == '\u{2028}' || c == '\u{2029}' || c
        == '\u{202f}' || c == '\u{205f}' || c == '\u{3000}'
}

/// `s[lo..hi]` equals `p`.
pub fn eq_range(s: &Vec<char>, lo: usize, hi: usize, p: &Vec<char>) -> (b: bool)
    requires
        lo <= hi <= s.len(),
    ensures
        b == (s@.subrange(lo as int, hi as int) == p@),
{
    if hi - lo != p.len() {
        return false;
    }
    let mut k: usize = 0;
    while k < p.len()
        invariant
            hi - lo == p.len(),
            lo <= hi <= s.len(),
            k <= p.len(),
            forall|j: int| 0 <= j < k ==> s@[lo + j] == p@[j],
        decreases p.len() - k,
    {
        if s[lo + k] != p[k] {
            assert(s@.subrange(lo as int, hi as int)[k as int] != p@[k as int]);
            return false;
        }
        k += 1;
    }
    assert(s@.subrange(lo as int, hi as int) =~= p@);
    true
}

pub fn eq_chars(a: &Vec<char>, b: &Vec<char>) -> (r: bool)
    ensures
        r == (a@ == b@),
{
    let r = eq_range(a, 0, a.len(), b);
    assert(a@.subrange(0, a.len() as int) =~= a@);
    r
}

/// `s` starts with `p` at position `at`.
pub fn matches_at_exec(s: &Vec<char>, p: &Vec<char>, at: usize) -> (b: bool)
    ensures
        b == matches_at(s@, p@, at as int),
{
    if at > s.len() || p.len() > s.len() - at {
        return false;
    }
    eq_range(s, at, at + p.len(), p)
}

pub fn starts_with_exec(s: &Vec<char>, p: &Vec<char>) -> (b: bool)
    ensures
        b == starts_with(s@, p@),
{
    if p.len() > s.len() {
        return false;
    }
    let b = eq_range(s, 0, p.len(), p);
    assert(s@.subrange(0, p.len() as int) == s@.take(p.len() as int));
    b
}

pub fn ends_with_exec(s: &Vec<char>, p: &Vec<char>) -> (b: bool)
    ensures
        b == ends_with(s@, p@),
{
    if p.len() > s.len() {
        return false;
    }
    let b = eq_range(s, s.len() - p.len(), s.len(), p);
    assert(s@.subrange(s.len() - p.len(), s.len() as int) == s@.skip(s.len() - p.len()));
    b
}

/// First occurrence of `p` in `s` at or after `start`.
pub fn find_from(s: &Vec<char>, p: &Vec<char>, start: usize) -> (r: Option<usize>)
    requires
        start <= s.len(),
    ensures
        match r {
            Some(i) => start <= i && find_sub(s@.skip(start as int), p@) == Some(i - start),
            None => find_sub(s@.skip(start as int), p@) is None,
        },
{
    let ghost t = s@.skip(start as int);
    let mut j = start;
    loop
        invariant
            start <= j <= s.len(),
            t == s@.skip(start as int),
            forall|k: int| 0 <= k < j - start ==> !matches_at(t, p@, k),
        decreases s.len() - j,
    {
        if matches_at_exec(s, p, j) {
            proof {
                assert(t.subrange(j - start, j - start + p@.len()) =~= s@.subrange(
                    j as int,
                    j + p@.len(),
                ));
                lemma_find_sub_first(t, p@, j - start);
            }
            return Some(j);
        }
        proof {
            if j - start + p@.len() <= t.len() {
                assert(t.subrange(j - start, j - start + p@.len()) =~= s@.subrange(
                    j as int,
                    j + p@.len(),
                ));
            }
        }
        if j == s.len() {
            proof {
                lemma_find_sub_none(t, p@);
            }
            return None;
        }
        j += 1;
    }
}

/// Bounds of `s[lo..hi]` trimmed on both sides.
pub fn trim_bounds(s: &Vec<char>, lo: usize, hi: usize) -> (r: (usize, usize))
    requires
        lo <= hi <= s.len(),
    ensures
        lo <= r.0 <= r.1 <= hi,
        s@.subrange(r.0 as int, r.1 as int) == trim(s@.subrange(lo as int, hi as int)),
{
    let ghost w = s@.subrange(lo as int, hi as int);
    let mut a = lo;
    while a < hi && is_ws_char(s[a])
        invariant
            lo <= a <= hi <= s.len(),
            w == s@.subrange(lo as int, hi as int),
            forall|j: int| 0 <= j < a - lo ==> is_ws(#[trigger] w[j]),
        decreases hi - a,
    {
        a += 1;
    }
    proof {
        lemma_trim_start_char(w, a - lo);
        assert(w.skip(a - lo) =~= s@.subrange(a as int, hi as int));
    }
    let ghost u = s@.subrange(a as int, hi as int);
    let mut b = hi;
    while b > a && is_ws_char(s[b - 1])
        invariant
            lo <= a <= b <= hi <= s.len(),
            u == s@.subrange(a as int, hi as int),
            forall|j: int| b - a <= j < u.len() ==> is_ws(#[trigger] u[j]),
        decreases b - a,
    {
        b -= 1;
    }
    proof {
        lemma_trim_end_char(u, b - a);
        assert(u.take(b - a) =~= s@.subrange(a as int, b as int));
    }
    (a, b)
}

/// `s[lo..hi].trim()` as a vector.
pub fn trim_range(s: &Vec<char>, lo: usize, hi: usize) -> (r: Vec<char>)
    requires
        lo <= hi <= s.len(),
    ensures
        r@ == trim(s@.subrange(lo as int, hi as int)),
{
    let (a, b) = trim_bounds(s, lo, hi);
    slice(s, a, b)
}

pub fn trim_vec(s: &Vec<char>) -> (r: Vec<char>)
    ensures
        r@ == trim(s@),
{
    assert(s@.subrange(0, s.len() as int) =~= s@);
    trim_range(s, 0, s.len())
}

/// Unfolding `split` at a known first delimiter.
pub proof fn lemma_split_step(s: Seq<char>, d: Seq<char>, i: int)
    requires
        d.len() > 0,
        find_sub(s, d) == Some(i),
    ensures
        0 <= i && i + d.len() <= s.len(),
        split(s, d) == seq![s.take(i)] + split(s.skip(i + d.len()), d),
{
    lemma_find_sub(s, d);
}

/// `str::split` with a non-empty delimiter.
pub fn split_exec(s: &Vec<char>, d: &Vec<char>) -> (r: Vec<Vec<char>>)
    requires
        d.len() > 0,
    ensures
        r@.len() == split(s@, d@).len(),
        forall|k: int| 0 <= k < r@.len() ==> #[trigger] r@[k]@ == split(s@, d@)[k],
{
    let mut r: Vec<Vec<char>> = Vec::new();
    let mut pos: usize = 0;
    let ghost mut acc: Seq<Seq<char>> = seq![];
    assert(s@.skip(0) =~= s@);
    loop
        invariant
            pos <= s.len(),
            d.len() > 0,
            r@.len() == acc.len(),
            forall|k: int| 0 <= k < r@.len() ==> #[trigger] r@[k]@ == acc[k],
            split(s@, d@) == acc + split(s@.skip(pos as int), d@),
        decreases s.len() - pos,
    {
        let ghost t = s@.skip(pos as int);
        match find_from(s, d, pos) {
            Some(j) => {
                proof {
                    lemma_split_step(t, d@, j - pos);
                    assert(t.take(j - pos) =~= s@.subrange(pos as int, j as int));
                    assert(t.skip(j - pos + d@.len()) =~= s@.skip(j + d@.len()));
                }
                let piece = slice(s, pos, j);
                proof {
                    acc = acc + seq![piece@];
                    assert(split(s@, d@) =~= acc + split(s@.skip(j + d@.len()), d@));
                }
                r.push(piece);
                pos = j + d.len();
            },
            None => {
                let piece = slice(s, pos, s.len());
                proof {
                    assert(t =~= s@.subrange(pos as int, s.len() as int));
                    assert(split(t, d@) == seq![t]);
                    acc = acc + seq![piece@];
                    assert(split(s@, d@) =~= acc);
                }
                r.push(piece);
                return r;
            },
        }
    }
}

/// Unfolding `lines` at a known first newline.
pub proof fn lemma_lines_step(s: Seq<char>, i: int)
    requires
        find_sub(s, seq!['\n']) == Some(i),
    ensures
        0 <= i < s.len(),
        lines(s) == seq![strip_cr(s.take(i))] + lines(s.skip(i + 1)),
{
    lemma_find_sub(s, seq!['\n']);
}

/// Drops one final `'\r'`.
pub fn strip_cr_exec(l: Vec<char>) -> (r: Vec<char>)
    ensures
        r@ == strip_cr(l@),
{
    let mut l = l;
    if l.len() > 0 && l[l.len() - 1] == '\r' {
        l.pop();
    }
    l
}

/// `str::lines`.
pub fn lines_exec(s: &Vec<char>) -> (r: Vec<Vec<char>>)
    ensures
        r@.len() == lines(s@).len(),
        forall|k: int| 0 <= k < r@.len() ==> #[trigger] r@[k]@ == lines(s@)[k],
{
    let nl: Vec<char> = vec!['\n'];
    assert(nl@ =~= seq!['\n']);
    let mut r: Vec<Vec<char>> = Vec::new();
    let mut pos: usize = 0;
    let ghost mut acc: Seq<Seq<char>> = seq![];
    assert(s@.skip(0) =~= s@);
    while pos < s.len()
        invariant
            pos <= s.len(),
            nl@ == seq!['\n'],
            r@.len() == acc.len(),
            forall|k: int| 0 <= k < r@.len() ==> #[trigger] r@[k]@ == acc[k],
            lines(s@) == acc + lines(s@.skip(pos as int)),
        decreases s.len() - pos,
    {
        let ghost t = s@.skip(pos as int);
        match find_from(s, &nl, pos) {
            Some(j) => {
                proof {
                    lemma_lines_step(t, j - pos);
                    assert(t.take(j - pos) =~= s@.subrange(pos as int, j as int));
                    assert(t.skip(j - pos + 1) =~= s@.skip(j + 1));
                }
                let piece = strip_cr_exec(slice(s, pos, j));
                proof {
                    acc = acc + seq![piece@];
                    assert(lines(s@) =~= acc + lines(s@.skip(j + 1)));
                }
                r.push(piece);
                pos = j + 1;
            },
            None => {
                let piece = slice(s, pos, s.len());
                proof {
                    assert(t =~= s@.subrange(pos as int, s.len() as int));
                    assert(lines(t) == seq![t]);
                    acc = acc + seq![piece@];
                    assert(lines(s@.skip(s.len() as int)) =~= seq![]) by {
                        assert(s@.skip(s.len() as int).len() == 0);
                    }
                    assert(lines(s@) =~= acc + lines(s@.skip(s.len() as int)));
                }
                r.push(piece);
                pos = s.len();
            },
        }
    }
    proof {
        assert(s@.skip(pos as int).len() == 0);
        assert(lines(s@) =~= acc);
    }
    r
}

// ───────────────────────── joining ─────────────────────────

/// `pieces.join(sep)`.
pub open spec fn join(ps: Seq<Seq<char>>, sep: Seq<char>) -> Seq<char>
    decreases ps.len(),
{
    if ps.len() == 0 {
        seq![]
    } else if ps.len() == 1 {
        ps[0]
    } else {
        join(ps.drop_last(), sep) + sep + ps.last()
    }
}

/// `pieces.join(sep)`.
pub fn join_exec(ps: &Vec<Vec<char>>, sep: &Vec<char>) -> (r: Vec<char>)
    ensures
        r@ == join(ps@.map_values(|p: Vec<char>| p@), sep@),
{
    let ghost all = ps@.map_values(|p: Vec<char>| p@);
    let mut r: Vec<char> = Vec::new();
    let mut i: usize = 0;
    while i < ps.len()
        invariant
            i <= ps.len(),
            all == ps@.map_values(|p: Vec<char>| p@),
            r@ == join(all.take(i as int), sep@),
        decreases ps.len() - i,
    {
        proof {
            assert(all.take(i + 1).drop_last() =~= all.take(i as int));
            assert(all.take(i + 1).last() == ps@[i as int]@);
        }
        if i > 0 {
            push_all(&mut r, sep);
        }
        push_all(&mut r, &ps[i]);
        proof {
            if i == 0 {
                assert(all.take(1) =~= seq![ps@[0]@]);
                assert(r@ =~= ps@[0]@);
            }
        }
        i += 1;
    }
    assert(all.take(ps.len() as int) =~= all);
    r
}

/// Last position of `c` in `s`.
pub open spec fn rfind_char(s: Seq<char>, c: char) -> Option<int>
    decreases s.len(),
{
    if s.len() == 0 {
        None
    } else if s.last() == c {
        Some(s.len() - 1)
    } else {
        rfind_char(s.drop_last(), c)
    }
}

pub fn rfind_char_exec(s: &Vec<char>, c: char) -> (r: Option<usize>)
    ensures
        match r {
            Some(i) => rfind_char(s@, c) == Some(i as int) && i < s.len(),
            None => rfind_char(s@, c) is None,
        },
{
    let mut k = s.len();
    assert(s@.take(k as int) =~= s@);
    while k > 0
        invariant
            k <= s.len(),
            rfind_char(s@, c) == rfind_char(s@.take(k as int), c),
        decreases k,
    {
        let ghost t = s@.take(k as int);
        assert(t.drop_last() =~= s@.take(k - 1));
        if s[k - 1] == c {
            return Some(k - 1);
        }
        k -= 1;
    }
    None
}

pub fn contains_exec(s: &Vec<char>, p: &Vec<char>) -> (b: bool)
    ensures
        b == contains_sub(s@, p@),
{
    assert(s@.skip(0) =~= s@);
    find_from(s, p, 0).is_some()
}

/// `s.contains(p)` for a string slice and a literal.
pub fn str_contains(s: &str, p: &str) -> (b: bool)
    ensures
        b == contains_sub(s@, p@),
{
    let sv = chars_of(s);
    let pv = chars_of(p);
    contains_exec(&sv, &pv)
}

/// `a == b` for string slices.
pub fn str_eq(a: &str, b: &str) -> (r: bool)
    ensures
        r == (a@ == b@),
{
    let av = chars_of(a);
    let bv = chars_of(b);
    eq_chars(&av, &bv)
}

/// `a + b` as a `String`.
pub fn concat2(a: &str, b: &str) -> (r: String)
    ensures
        r@ == a@ + b@,
{
    let mut v = chars_of(a);
    push_str(&mut v, b);
    string_of(v.as_slice())
}

/// `a + b + c` as a `String`.
pub fn concat3(a: &str, b: &str, c: &str) -> (r: String)
    ensures
        r@ == a@ + b@ + c@,
{
    let mut v = chars_of(a);
    push_str(&mut v, b);
    push_str(&mut v, c);
    string_of(v.as_slice())
}

/// `s.trim()` as a `String`.
pub fn trim_str(s: &str) -> (r: String)
    ensures
        r@ == trim(s@),
{
    let v = chars_of(s);
    let t = trim_vec(&v);
    string_of(t.as_slice())
}


// ───────────────────────── decimal numbers ─────────────────────────

/// The decimal digit for `d < 10`.
pub open spec fn digit_char(d: nat) -> char {
    if d == 0 { '0' } else if d == 1 { '1' } else if d == 2 { '2' } else if d == 3 { '3' }
    else if d == 4 { '4' } else if d == 5 { '5' } else if d == 6 { '6' } else if d == 7 { '7' }
    else if d == 8 { '8' } else { '9' }
}

/// The decimal text of `n`, as `to_string` prints an unsigned integer.
pub open spec fn dec_text(n: nat) -> Seq<char>
    decreases n,
{
    if n < 10 {
        seq![digit_char(n)]
    } else {
        dec_text(n / 10) + seq![digit_char(n % 10)]
    }
}

fn digit_exec(d: u64) -> (c: char)
    requires
        d < 10,
    ensures
        c == digit_char(d as nat),
{
    if d == 0 { '0' } else if d == 1 { '1' } else if d == 2 { '2' } else if d == 3 { '3' }
    else if d == 4 { '4' } else if d == 5 { '5' } else if d == 6 { '6' } else if d == 7 { '7' }
    else if d == 8 { '8' } else { '9' }
}

/// Appends the decimal text of `n`.
pub fn push_dec(r: &mut Vec<char>, n: u64)
    ensures
        final(r)@ == old(r)@ + dec_text(n as nat),
    decreases n,
{
    if n < 10 {
        r.push(digit_exec(n));
    } else {
        push_dec(r, n / 10);
        r.push(digit_exec(n % 10));
        assert(r@ =~= old(r)@ + dec_text(n as nat));
    }
}

/// `n.to_string()`.
pub fn dec_string(n: u64) -> (s: String)
    ensures
        s@ == dec_text(n as nat),
{
    let mut v: Vec<char> = Vec::new();
    push_dec(&mut v, n);
    assert(v@ =~= dec_text(n as nat));
    string_of(v.as_slice())
}


/// Appends the decimal text of a 128-bit `n`.
pub fn push_dec_wide(r: &mut Vec<char>, n: u128)
    ensures
        final(r)@ == old(r)@ + dec_text(n as nat),
    decreases n,
{
    if n < 10 {
        r.push(digit_exec(n as u64));
    } else {
        push_dec_wide(r, n / 10);
        r.push(digit_exec((n % 10) as u64));
        assert(r@ =~= old(r)@ + dec_text(n as nat));
    }
}

/// `n.to_string()` for a 128-bit unsigned `n`.
pub fn dec_string_wide(n: u128) -> (s: String)
    ensures
        s@ == dec_text(n as nat),
{
    let mut v: Vec<char> = Vec::new();
    push_dec_wide(&mut v, n);
    assert(v@ =~= dec_text(n as nat));
    string_of(v.as_slice())
}


// ───────────────────────── case ─────────────────────────

/// What `str::to_lowercase` returns for a text.
pub uninterp spec fn lowercase(s: Seq<char>) -> Seq<char>;

/// `str::to_lowercase` of std: each character replaced by its Unicode
/// lowercase mapping. The contract only names the result; the mapping
/// itself is not stated.
#[verifier::external_body]
pub(crate) fn to_lowercase(s: &str) -> (r: String)
    ensures
        r@ == lowercase(s@),
{
    s.to_lowercase()
}


/// An owned copy of a string slice.
pub fn owned(s: &str) -> (r: String)
    ensures
        r@ == s@,
{
    let v = chars_of(s);
    string_of(v.as_slice())
}


/// `split` always yields at least one piece.
pub proof fn lemma_split_nonempty(s: Seq<char>, d: Seq<char>)
    requires
        d.len() > 0,
    ensures
        split(s, d).len() > 0,
    decreases s.len(),
{
    if let Some(i) = find_sub(s, d) {
        lemma_find_sub(s, d);
        lemma_split_nonempty(s.skip(i + d.len()), d);
    }
}

/// Text appended after the last delimiter only extends the last piece:
/// `split(x + y) == split(x).drop_last() + split(split(x).last() + y)`.
pub proof fn lemma_split_append(x: Seq<char>, y: Seq<char>, d: Seq<char>)
    requires
        d.len() > 0,
    ensures
        split(x, d).len() > 0,
        split(x + y, d) == split(x, d).drop_last() + split(split(x, d).last() + y, d),
    decreases x.len(),
{
    lemma_split_nonempty(x, d);
    lemma_find_sub(x, d);
    match find_sub(x, d) {
        Some(i) => {
            let xy = x + y;
            assert(matches_at(xy, d, i)) by {
                assert(xy.subrange(i, i + d.len()) =~= x.subrange(i, i + d.len()));
            }
            assert forall|j: int| 0 <= j < i implies !matches_at(xy, d, j) by {
                assert(!matches_at(x, d, j));
                assert(i + d.len() <= x.len());
                assert(xy.subrange(j, j + d.len()) =~= x.subrange(j, j + d.len()));
            }
            lemma_find_sub_first(xy, d, i);
            let rest = x.skip(i + d.len());
            lemma_split_append(rest, y, d);
            lemma_split_nonempty(rest, d);
            assert(xy.take(i) =~= x.take(i));
            assert(xy.skip(i + d.len()) =~= rest + y);
            assert(split(x, d) == seq![x.take(i)] + split(rest, d));
            assert(split(x, d).drop_last() =~= seq![x.take(i)] + split(rest, d).drop_last());
            assert(split(x, d).last() == split(rest, d).last());
            assert(split(xy, d) =~= seq![x.take(i)] + split(rest + y, d));
        },
        None => {
            assert(split(x, d) == seq![x]);
            assert(split(x, d).drop_last() =~= Seq::<Seq<char>>::empty());
            assert(split(x, d).drop_last() + split(split(x, d).last() + y, d) =~= split(x + y, d));
        },
    }
}


/// Joining a first piece to the others.
pub proof fn lemma_join_front(x: Seq<char>, rest: Seq<Seq<char>>, sep: Seq<char>)
    requires
        rest.len() > 0,
    ensures
        join(seq![x] + rest, sep) == x + sep + join(rest, sep),
    decreases rest.len(),
{
    let ps = seq![x] + rest;
    assert(ps.drop_last() =~= seq![x] + rest.drop_last());
    assert(ps.last() == rest.last());
    assert(ps.len() >= 2);
    assert(join(ps, sep) == join(ps.drop_last(), sep) + sep + ps.last());
    if rest.len() == 1 {
        assert(seq![x] + rest.drop_last() =~= seq![x]);
        assert(seq![x][0] == x);
        assert(join(seq![x], sep) == x);
        assert(join(rest, sep) == rest[0]);
        assert(rest.last() == rest[0]);
    } else {
        assert(join(rest, sep) == join(rest.drop_last(), sep) + sep + rest.last());
        lemma_join_front(x, rest.drop_last(), sep);
        assert(x + sep + join(rest.drop_last(), sep) + sep + rest.last() =~= x + sep + (join(
            rest.drop_last(),
            sep,
        ) + sep + rest.last()));
    }
}

/// Splitting and joining by the same delimiter gives the text back.
pub proof fn lemma_split_join(s: Seq<char>, d: Seq<char>)
    requires
        d.len() > 0,
    ensures
        join(split(s, d), d) == s,
    decreases s.len(),
{
    lemma_find_sub(s, d);
    match find_sub(s, d) {
        Some(i) => {
            let rest = s.skip(i + d.len());
            lemma_split_join(rest, d);
            lemma_split_nonempty(rest, d);
            lemma_join_front(s.take(i), split(rest, d), d);
            assert(s.subrange(i, i + d.len()) == d);
            assert(s.take(i) + d + rest =~= s);
        },
        None => {
            assert(split(s, d) == seq![s]);
            assert(seq![s].len() == 1);
        },
    }
}

// ───────────────────────── trimming one character ─────────────────────────

/// `s.trim_start_matches(c)`.
pub open spec fn trim_start_char(s: Seq<char>, c: char) -> Seq<char>
    decreases s.len(),
{
    if s.len() > 0 && s[0] == c {
        trim_start_char(s.drop_first(), c)
    } else {
        s
    }
}

/// `s.trim_end_matches(c)`.
pub open spec fn trim_end_char(s: Seq<char>, c: char) -> Seq<char>
    decreases s.len(),
{
    if s.len() > 0 && s.last() == c {
        trim_end_char(s.drop_last(), c)
    } else {
        s
    }
}

/// `s.trim_matches(c)`: every leading and trailing `c` goes.
pub open spec fn trim_matches(s: Seq<char>, c: char) -> Seq<char> {
    trim_end_char(trim_start_char(s, c), c)
}

proof fn lemma_trim_start_c(s: Seq<char>, c: char, k: int)
    requires
        0 <= k <= s.len(),
        forall|j: int| 0 <= j < k ==> #[trigger] s[j] == c,
        k == s.len() || s[k] != c,
    ensures
        trim_start_char(s, c) == s.skip(k),
    decreases k,
{
    if k == 0 {
        assert(s.skip(0) =~= s);
    } else {
        let t = s.drop_first();
        assert forall|j: int| 0 <= j < k - 1 implies #[trigger] t[j] == c by {
            assert(t[j] == s[j + 1]);
        }
        lemma_trim_start_c(t, c, k - 1);
        assert(t.skip(k - 1) =~= s.skip(k));
    }
}

proof fn lemma_trim_end_c(s: Seq<char>, c: char, k: int)
    requires
        0 <= k <= s.len(),
        forall|j: int| k <= j < s.len() ==> #[trigger] s[j] == c,
        k == 0 || s[k - 1] != c,
    ensures
        trim_end_char(s, c) == s.take(k),
    decreases s.len() - k,
{
    if k == s.len() {
        assert(s.take(k) =~= s);
    } else {
        let t = s.drop_last();
        assert forall|j: int| k <= j < t.len() implies #[trigger] t[j] == c by {
            assert(t[j] == s[j]);
        }
        lemma_trim_end_c(t, c, k);
        assert(t.take(k) =~= s.take(k));
    }
}

/// `s.trim_matches(c)` on characters.
pub fn trim_matches_exec(s: &Vec<char>, c: char) -> (r: Vec<char>)
    ensures
        r@ == trim_matches(s@, c),
{
    let mut a: usize = 0;
    while a < s.len() && s[a] == c
        invariant
            a <= s.len(),
            forall|j: int| 0 <= j < a ==> #[trigger] s@[j] == c,
        decreases s.len() - a,
    {
        a += 1;
    }
    proof {
        lemma_trim_start_c(s@, c, a as int);
    }
    let ghost u = s@.skip(a as int);
    let mut b = s.len();
    while b > a && s[b - 1] == c
        invariant
            a <= b <= s.len(),
            u == s@.skip(a as int),
            forall|j: int| b <= j < s.len() ==> #[trigger] s@[j] == c,
        decreases b - a,
    {
        b -= 1;
    }
    proof {
        assert forall|j: int| b - a <= j < u.len() implies #[trigger] u[j] == c by {
            assert(u[j] == s@[j + a]);
        }
        lemma_trim_end_c(u, c, b - a);
        assert(u.take(b - a) =~= s@.subrange(a as int, b as int));
    }
    slice(s, a, b)
}


// ───────────────────────── ordering ─────────────────────────

/// How `str`'s `Ord` compares two texts: -1, 0 or 1. Strings compare by their
/// UTF-8 bytes, which order as the characters' code points do.
pub open spec fn text_order(a: Seq<char>, b: Seq<char>) -> int
    decreases a.len(),
{
    if a.len() == 0 {
        if b.len() == 0 { 0 } else { -1 }
    } else if b.len() == 0 {
        1
    } else if a[0] < b[0] {
        -1
    } else if a[0] > b[0] {
        1
    } else {
        text_order(a.drop_first(), b.drop_first())
    }
}

/// Compares two texts as `str::cmp` does.
pub fn text_order_exec(a: &str, b: &str) -> (r: i8)
    ensures
        r as int == text_order(a@, b@),
{
    let x = chars_of(a);
    let y = chars_of(b);
    let mut i: usize = 0;
    assert(x@.skip(0) =~= x@);
    assert(y@.skip(0) =~= y@);
    while i < x.len() && i < y.len() && x[i] == y[i]
        invariant
            i <= x.len(),
            i <= y.len(),
            text_order(x@, y@) == text_order(x@.skip(i as int), y@.skip(i as int)),
        decreases x.len() - i,
    {
        assert(x@.skip(i as int).drop_first() =~= x@.skip(i + 1));
        assert(y@.skip(i as int).drop_first() =~= y@.skip(i + 1));
        i += 1;
    }
    proof {
        if i < x.len() {
            assert(x@.skip(i as int)[0] == x@[i as int]);
        }
        if i < y.len() {
            assert(y@.skip(i as int)[0] == y@[i as int]);
        }
    }
    if i == x.len() {
        if i == y.len() { 0 } else { -1 }
    } else if i == y.len() {
        1
    } else if x[i] < y[i] {
        -1
    } else {
        1
    }
}


/// `text_order` is antisymmetric, and 0 only on equal texts.
pub proof fn lemma_text_order_antisym(a: Seq<char>, b: Seq<char>)
    ensures
        text_order(a, b) == -text_order(b, a),
        text_order(a, b) == 0 <==> a == b,
        -1 <= text_order(a, b) <= 1,
    decreases a.len(),
{
    if a.len() > 0 && b.len() > 0 && a[0] == b[0] {
        lemma_text_order_antisym(a.drop_first(), b.drop_first());
        if a.drop_first() == b.drop_first() {
            assert(a =~= seq![a[0]] + a.drop_first());
            assert(b =~= seq![b[0]] + b.drop_first());
        }
    } else if a.len() > 0 && b.len() > 0 {
        assert(a != b) by {
            if a == b {
                assert(a[0] == b[0]);
            }
        }
    } else if a.len() == 0 && b.len() == 0 {
        assert(a =~= b);
    } else {
        assert(a.len() != b.len());
    }
}

/// `text_order` orders transitively.
pub proof fn lemma_text_order_trans(a: Seq<char>, b: Seq<char>, c: Seq<char>)
    requires
        text_order(a, b) < 0,
        text_order(b, c) < 0,
    ensures
        text_order(a, c) < 0,
    decreases a.len(),
{
    if a.len() > 0 && b.len() > 0 && c.len() > 0 && a[0] == b[0] && b[0] == c[0] {
        lemma_text_order_trans(a.drop_first(), b.drop_first(), c.drop_first());
    }
}

} // verus!
