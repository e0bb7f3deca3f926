//! Character-level text primitives: the trimming, splitting and searching
//! that the configuration parsers are built from, each given as a spec
//! function over `Seq<char>` together with an executable counterpart that
//! works on index ranges of a decoded character buffer.
use vstd::prelude::*;

verus! {

/// `char::is_whitespace`: the characters with the Unicode `White_Space` property.
pub open spec fn is_ws(c: char) -> bool {
    ||| c == '\t'
    ||| c == '\n'
    ||| c == '\u{0B}'
    ||| c == '\u{0C}'
    ||| c == '\r'
    ||| c == ' '
    ||| c == '\u{85}'
    ||| c == '\u{A0}'
    ||| c == '\u{1680}'
    ||| ('\u{2000}' <= c && c <= '\u{200A}')
    ||| c == '\u{2028}'
    ||| c == '\u{2029}'
    ||| c == '\u{202F}'
    ||| c == '\u{205F}'
    ||| c == '\u{3000}'
}

/// A set of characters, as the patterns of `trim_matches`, `split` and `find` use them.
#[derive(Clone, Copy)]
pub enum Pat {
    /// whitespace
    Ws,
    /// anything but whitespace
    NotWs,
    /// exactly this character
    Ch(char),
    /// anything but this character
    NotCh(char),
    /// `[` or `]`
    Brackets,
}

pub open spec fn pat_has(p: Pat, c: char) -> bool {
    match p {
        Pat::Ws => is_ws(c),
        Pat::NotWs => !is_ws(c),
        Pat::Ch(d) => c == d,
        Pat::NotCh(d) => c != d,
        Pat::Brackets => c == '[' || c == ']',
    }
}

/// Number of leading characters of `s` in `p`.
pub open spec fn lead(s: Seq<char>, p: Pat) -> nat
    decreases s.len(),
{
    if s.len() > 0 && pat_has(p, s[0]) {
        1 + lead(s.drop_first(), p)
    } else {
        0
    }
}

/// Number of trailing characters of `s` in `p`.
pub open spec fn trail(s: Seq<char>, p: Pat) -> nat
    decreases s.len(),
{
    if s.len() > 0 && pat_has(p, s.last()) {
        1 + trail(s.drop_last(), p)
    } else {
        0
    }
}

/// `trim_start_matches(p)`
pub open spec fn strip_start(s: Seq<char>, p: Pat) -> Seq<char> {
    s.skip(lead(s, p) as int)
}

/// `trim_end_matches(p)`
pub open spec fn strip_end(s: Seq<char>, p: Pat) -> Seq<char> {
    s.take(s.len() - trail(s, p))
}

/// `trim_matches(p)`; with `Pat::Ws` this is `trim()`.
pub open spec fn strip(s: Seq<char>, p: Pat) -> Seq<char> {
    strip_end(strip_start(s, p), p)
}

pub open spec fn trim(s: Seq<char>) -> Seq<char> {
    strip(s, Pat::Ws)
}

pub proof fn lemma_lead_bound(s: Seq<char>, p: Pat)
    ensures
        lead(s, p) <= s.len(),
        lead(s, p) < s.len() ==> !pat_has(p, s[lead(s, p) as int]),
        forall|i: int| 0 <= i < lead(s, p) ==> pat_has(p, #[trigger] s[i]),
    decreases s.len(),
{
    if s.len() > 0 && pat_has(p, s[0]) {
        lemma_lead_bound(s.drop_first(), p);
        assert forall|i: int| 0 <= i < lead(s, p) implies pat_has(p, #[trigger] s[i]) by {
            if i > 0 {
                assert(s[i] == s.drop_first()[i - 1]);
            }
        }
    }
}

pub proof fn lemma_trail_bound(s: Seq<char>, p: Pat)
    ensures
        trail(s, p) <= s.len(),
        trail(s, p) < s.len() ==> !pat_has(p, s[s.len() - 1 - trail(s, p)]),
        forall|i: int| s.len() - trail(s, p) <= i < s.len() ==> pat_has(p, #[trigger] s[i]),
    decreases s.len(),
{
    if s.len() > 0 && pat_has(p, s.last()) {
        lemma_trail_bound(s.drop_last(), p);
        assert forall|i: int| s.len() - trail(s, p) <= i < s.len() implies pat_has(
            p,
            #[trigger] s[i],
        ) by {
            if i < s.len() - 1 {
                assert(s[i] == s.drop_last()[i]);
            }
        }
    }
}

/// The characters of `s`.
pub fn chars_of(s: &str) -> (v: Vec<char>)
    ensures
        v@ == s@,
{
    broadcast use vstd::string::group_string_axioms;

    let mut v: Vec<char> = Vec::new();
    for c in it: s.chars()
        invariant
            v@ == it.seq().take(it.index()),
    {
        v.push(c);
        assert(v@ =~= it.seq().take(it.index() + 1));
    }
    assert(v@ =~= s@);
    v
}

pub fn pat_test(p: Pat, c: char) -> (b: bool)
    ensures
        b == pat_has(p, c),
{
    match p {
        Pat::Ws => is_whitespace(c),
        Pat::NotWs => !is_whitespace(c),
        Pat::Ch(d) => c == d,
        Pat::NotCh(d) => c != d,
        Pat::Brackets => c == '[' || c == ']',
    }
}

pub fn is_whitespace(c: char) -> (b: bool)
    ensures
        b == is_ws(c),
{
    c == '\t' || c == '\n' || c == '\u{0B}' || c == '\u{0C}' || c == '\r' || c == ' ' || c
        == '\u{85}' || c == '\u{A0}' || c == '\u{1680}' || ('\u{2000}' <= c && c <= '\u{200A}')
        || c == '\u{2028}' || c == '\u{2029}' || c == '\u{202F}' || c == '\u{205F}' || c
        == '\u{3000}'
}

/// First index `a` in `lo..hi` from which `v[lo..hi]` no longer starts with `p`.
pub fn skip_lead(v: &Vec<char>, lo: usize, hi: usize, p: Pat) -> (a: usize)
    requires
        lo <= hi <= v@.len(),
    ensures
        lo <= a <= hi,
        a - lo == lead(v@.subrange(lo as int, hi as int), p),
        strip_start(v@.subrange(lo as int, hi as int), p) == v@.subrange(a as int, hi as int),
{
    let mut a = lo;
    while a < hi && pat_test(p, v[a])
        invariant
            lo <= a <= hi <= v@.len(),
            lead(v@.subrange(lo as int, hi as int), p) == (a - lo) + lead(
                v@.subrange(a as int, hi as int),
                p,
            ),
        decreases hi - a,
    {
        assert(v@.subrange(a as int, hi as int).drop_first() =~= v@.subrange(
            a + 1,
            hi as int,
        ));
        a = a + 1;
    }
    assert(v@.subrange(lo as int, hi as int).skip(a - lo) =~= v@.subrange(a as int, hi as int));
    a
}

/// Last index `b` in `lo..hi` such that `v[lo..b]` no longer ends with `p`.
pub fn skip_trail(v: &Vec<char>, lo: usize, hi: usize, p: Pat) -> (b: usize)
    requires
        lo <= hi <= v@.len(),
    ensures
        lo <= b <= hi,
        hi - b == trail(v@.subrange(lo as int, hi as int), p),
        strip_end(v@.subrange(lo as int, hi as int), p) == v@.subrange(lo as int, b as int),
{
    let mut b = hi;
    while b > lo && pat_test(p, v[b - 1])
        invariant
            lo <= b <= hi <= v@.len(),
            trail(v@.subrange(lo as int, hi as int), p) == (hi - b) + trail(
                v@.subrange(lo as int, b as int),
                p,
            ),
        decreases b - lo,
    {
        assert(v@.subrange(lo as int, b as int).drop_last() =~= v@.subrange(
            lo as int,
            b - 1,
        ));
        b = b - 1;
    }
    assert(v@.subrange(lo as int, hi as int).take(b - lo) =~= v@.subrange(lo as int, b as int));
    b
}

/// The range of `v[lo..hi].trim_matches(p)`.
pub fn strip_range(v: &Vec<char>, lo: usize, hi: usize, p: Pat) -> (r: (usize, usize))
    requires
        lo <= hi <= v@.len(),
    ensures
        lo <= r.0 <= r.1 <= hi,
        strip(v@.subrange(lo as int, hi as int), p) == v@.subrange(r.0 as int, r.1 as int),
{
    let a = skip_lead(v, lo, hi, p);
    let b = skip_trail(v, a, hi, p);
    (a, b)
}


/// `s.split(c)`: the pieces of `s` between occurrences of `c` (at least one piece).
pub open spec fn split_char(s: Seq<char>, c: char) -> Seq<Seq<char>>
    decreases s.len(),
{
    let i = lead(s, Pat::NotCh(c)) as int;
    if 0 <= i < s.len() {
        seq![s.take(i)] + split_char(s.subrange(i + 1, s.len() as int), c)
    } else {
        seq![s]
    }
}

/// The lines of a text, each still untrimmed: the pieces between `'\n'`.
/// (`str::lines` also drops a `'\r'` before each `'\n'` and gives no piece after a
/// final `'\n'`; every consumer here trims its lines and skips blank ones, for which
/// the two agree.)
pub open spec fn raw_lines(s: Seq<char>) -> Seq<Seq<char>> {
    split_char(s, '\n')
}

/// Runs `step` over the pieces `ls`, first to last.
pub open spec fn fold_pieces<S>(st: S, ls: Seq<Seq<char>>, step: spec_fn(S, Seq<char>) -> S) -> S
    decreases ls.len(),
{
    if ls.len() == 0 {
        st
    } else {
        fold_pieces(step(st, ls[0]), ls.drop_first(), step)
    }
}

/// First position at or after `i` where `p` occurs in `s`.
pub open spec fn find_from(s: Seq<char>, p: Seq<char>, i: int) -> Option<int>
    decreases s.len() + 1 - i,
{
    if i < 0 || i + p.len() > s.len() {
        None
    } else if s.subrange(i, i + p.len()) == p {
        Some(i)
    } else {
        find_from(s, p, i + 1)
    }
}

/// `s.find(p)`
pub open spec fn find_str(s: Seq<char>, p: Seq<char>) -> Option<int> {
    find_from(s, p, 0)
}

/// `s.split_once(p)`
pub open spec fn split_once_str(s: Seq<char>, p: Seq<char>) -> Option<(Seq<char>, Seq<char>)> {
    match find_str(s, p) {
        Some(i) => Some((s.take(i), s.skip(i + p.len()))),
        None => None,
    }
}

/// `s.split_once(c)`
pub open spec fn split_once_char(s: Seq<char>, c: char) -> Option<(Seq<char>, Seq<char>)> {
    let i = lead(s, Pat::NotCh(c));
    if i < s.len() {
        Some((s.take(i as int), s.subrange(i + 1int, s.len() as int)))
    } else {
        None
    }
}

/// `s.starts_with(p)`
pub open spec fn starts_with(s: Seq<char>, p: Seq<char>) -> bool {
    p.len() <= s.len() && s.take(p.len() as int) == p
}

/// `s.ends_with(p)`
pub open spec fn ends_with(s: Seq<char>, p: Seq<char>) -> bool {
    p.len() <= s.len() && s.skip(s.len() - p.len()) == p
}

/// `s.contains(c)`
pub open spec fn contains_char(s: Seq<char>, c: char) -> bool {
    exists|i: int| 0 <= i < s.len() && s[i] == c
}

/// The pieces `v[r.0..r.1]` named by a list of ranges.
pub open spec fn ranges_view(v: Seq<char>, rs: Seq<(usize, usize)>) -> Seq<Seq<char>> {
    rs.map_values(|r: (usize, usize)| v.subrange(r.0 as int, r.1 as int))
}

/// The characters of each string of a list.
pub open spec fn strings_view(xs: Seq<String>) -> Seq<Seq<char>> {
    xs.map_values(|x: String| x@)
}

pub proof fn lemma_fold_pieces_cons<S>(
    st: S,
    l: Seq<char>,
    rest: Seq<Seq<char>>,
    step: spec_fn(S, Seq<char>) -> S,
)
    ensures
        fold_pieces(st, seq![l] + rest, step) == fold_pieces(step(st, l), rest, step),
{
    assert((seq![l] + rest).drop_first() =~= rest);
}


/// A property that every step keeps holds after any run of steps.
pub proof fn lemma_fold_pieces_keeps<S>(
    st: S,
    ls: Seq<Seq<char>>,
    step: spec_fn(S, Seq<char>) -> S,
    inv: spec_fn(S) -> bool,
)
    requires
        inv(st),
        forall|s: S, l: Seq<char>| inv(s) ==> #[trigger] inv(step(s, l)),
    ensures
        inv(fold_pieces(st, ls, step)),
    decreases ls.len(),
{
    if ls.len() > 0 {
        assert(inv(step(st, ls[0])));
        lemma_fold_pieces_keeps(step(st, ls[0]), ls.drop_first(), step, inv);
    }
}


/// Splitting a joined text at `c` gives the pieces of each part.
pub proof fn lemma_split_char_concat(a: Seq<char>, b: Seq<char>, c: char)
    ensures
        split_char(a + seq![c] + b, c) == split_char(a, c) + split_char(b, c),
    decreases a.len(),
{
    lemma_lead_bound(a, Pat::NotCh(c));
    let i = lead(a, Pat::NotCh(c)) as int;
    if i < a.len() {
        let head = a.take(i);
        let tail = a.subrange(i + 1, a.len() as int);
        let s = a + seq![c] + b;
        let rest = a.skip(i) + seq![c] + b;
        assert(s =~= head + rest);
        assert forall|j: int| 0 <= j < head.len() implies pat_has(Pat::NotCh(c), #[trigger] head[j]) by {
            assert(head[j] == a[j]);
        }
        lemma_lead_concat(head, rest, Pat::NotCh(c));
        assert(rest[0] == c);
        assert(lead(rest, Pat::NotCh(c)) == 0);
        assert(s.take(i) =~= head);
        assert(s.subrange(i + 1, s.len() as int) =~= tail + seq![c] + b);
        lemma_split_char_concat(tail, b, c);
        assert(split_char(a, c) == seq![head] + split_char(tail, c));
        assert(split_char(s, c) == seq![head] + split_char(tail + seq![c] + b, c));
        assert(seq![head] + (split_char(tail, c) + split_char(b, c)) =~= (seq![head] + split_char(
            tail,
            c,
        )) + split_char(b, c));
    } else {
        assert forall|j: int| 0 <= j < a.len() implies a[j] != c by {
            assert(pat_has(Pat::NotCh(c), a[j]));
        }
        lemma_split_char_first(a, b, c);
    }
}

/// Running the steps over two lists of pieces is running them over the first, then
/// the second.
pub proof fn lemma_fold_pieces_append<S>(
    st: S,
    xs: Seq<Seq<char>>,
    ys: Seq<Seq<char>>,
    step: spec_fn(S, Seq<char>) -> S,
)
    ensures
        fold_pieces(st, xs + ys, step) == fold_pieces(fold_pieces(st, xs, step), ys, step),
    decreases xs.len(),
{
    if xs.len() == 0 {
        assert(xs + ys =~= ys);
    } else {
        assert((xs + ys).drop_first() =~= xs.drop_first() + ys);
        assert((xs + ys)[0] == xs[0]);
        lemma_fold_pieces_append(step(st, xs[0]), xs.drop_first(), ys, step);
    }
}

/// Steps that leave a state as it is leave it as it is over any run of pieces.
pub proof fn lemma_fold_pieces_fixed<S>(st: S, ls: Seq<Seq<char>>, step: spec_fn(S, Seq<char>) -> S)
    requires
        forall|k: int| 0 <= k < ls.len() ==> step(st, #[trigger] ls[k]) == st,
    ensures
        fold_pieces(st, ls, step) == st,
    decreases ls.len(),
{
    if ls.len() > 0 {
        assert(step(st, ls[0]) == st);
        assert forall|k: int| 0 <= k < ls.drop_first().len() implies step(
            st,
            #[trigger] ls.drop_first()[k],
        ) == st by {
            assert(ls.drop_first()[k] == ls[k + 1]);
        }
        lemma_fold_pieces_fixed(st, ls.drop_first(), step);
    }
}

/// One step of walking the pieces of `v[pos..n]` split at `c`: `a` is the end of the
/// first piece.
pub proof fn lemma_split_step(v: Seq<char>, pos: int, a: int, n: int, c: char)
    requires
        0 <= pos <= a <= n <= v.len(),
        a - pos == lead(v.subrange(pos, n), Pat::NotCh(c)),
    ensures
        a < n ==> split_char(v.subrange(pos, n), c) == seq![v.subrange(pos, a)] + split_char(
            v.subrange(a + 1, n),
            c,
        ),
        a == n ==> split_char(v.subrange(pos, n), c) == seq![v.subrange(pos, n)],
{
    let s = v.subrange(pos, n);
    if a < n {
        assert(s.take(a - pos) =~= v.subrange(pos, a));
        assert(s.subrange(a - pos + 1, s.len() as int) =~= v.subrange(a + 1, n));
    }
}

pub proof fn lemma_ranges_view_push(v: Seq<char>, rs: Seq<(usize, usize)>, r: (usize, usize))
    ensures
        ranges_view(v, rs.push(r)) == ranges_view(v, rs).push(v.subrange(r.0 as int, r.1 as int)),
{
    assert(ranges_view(v, rs.push(r)) =~= ranges_view(v, rs).push(
        v.subrange(r.0 as int, r.1 as int),
    ));
}


pub proof fn lemma_lead_concat(a: Seq<char>, b: Seq<char>, p: Pat)
    requires
        forall|i: int| 0 <= i < a.len() ==> pat_has(p, #[trigger] a[i]),
    ensures
        lead(a + b, p) == a.len() + lead(b, p),
    decreases a.len(),
{
    if a.len() > 0 {
        assert((a + b).drop_first() =~= a.drop_first() + b);
        assert((a + b)[0] == a[0]);
        assert forall|i: int| 0 <= i < a.drop_first().len() implies pat_has(
            p,
            #[trigger] a.drop_first()[i],
        ) by {
            assert(a.drop_first()[i] == a[i + 1]);
        }
        lemma_lead_concat(a.drop_first(), b, p);
    } else {
        assert(a + b =~= b);
    }
}

pub proof fn lemma_trail_concat(a: Seq<char>, b: Seq<char>, p: Pat)
    ensures
        trail(b, p) < b.len() ==> trail(a + b, p) == trail(b, p),
        trail(b, p) == b.len() ==> trail(a + b, p) == b.len() + trail(a, p),
    decreases b.len(),
{
    lemma_trail_bound(b, p);
    if b.len() == 0 {
        assert(a + b =~= a);
    } else {
        assert((a + b).drop_last() =~= a + b.drop_last());
        assert((a + b).last() == b.last());
        lemma_trail_concat(a, b.drop_last(), p);
    }
}

/// Skipping positions whose character cannot start `p`.
pub proof fn lemma_find_skip(s: Seq<char>, p: Seq<char>, i: int, j: int)
    requires
        0 <= i <= j,
        p.len() > 0,
        j + p.len() <= s.len() + 1,
        forall|t: int| i <= t < j ==> #[trigger] s[t] != p[0],
    ensures
        find_from(s, p, i) == find_from(s, p, j),
    decreases j - i,
{
    if i < j {
        assert(s[i] != p[0]);
        assert(s.subrange(i, i + p.len())[0] == s[i]);
        lemma_find_skip(s, p, i + 1, j);
    }
}


/// Splitting at the first `c` when `a` holds none.
pub proof fn lemma_split_char_first(a: Seq<char>, b: Seq<char>, c: char)
    requires
        forall|i: int| 0 <= i < a.len() ==> a[i] != c,
    ensures
        split_char(a + seq![c] + b, c) == seq![a] + split_char(b, c),
        split_char(a, c) == seq![a],
{
    let s = a + seq![c] + b;
    assert(s =~= a + (seq![c] + b));
    assert forall|i: int| 0 <= i < a.len() implies pat_has(Pat::NotCh(c), #[trigger] a[i]) by {}
    lemma_lead_concat(a, seq![c] + b, Pat::NotCh(c));
    assert((seq![c] + b)[0] == c);
    assert(lead(seq![c] + b, Pat::NotCh(c)) == 0);
    assert(s.take(a.len() as int) =~= a);
    assert(s.subrange(a.len() + 1int, s.len() as int) =~= b);
    lemma_lead_concat(a, Seq::empty(), Pat::NotCh(c));
    assert(a + Seq::<char>::empty() =~= a);
}


/// `s.split_whitespace()`: the maximal runs of non-whitespace characters, in order.
pub open spec fn words(s: Seq<char>) -> Seq<Seq<char>>
    decreases s.len(),
{
    let j = lead(s, Pat::Ws) as int;
    let k = lead(s.subrange(j, s.len() as int), Pat::NotWs) as int;
    if 0 <= j && 0 < k && j + k <= s.len() {
        seq![s.subrange(j, j + k)] + words(s.subrange(j + k, s.len() as int))
    } else {
        Seq::empty()
    }
}

/// The ranges of the words of `v[lo..hi]`.
pub fn word_ranges(v: &Vec<char>, lo: usize, hi: usize) -> (r: Vec<(usize, usize)>)
    requires
        lo <= hi <= v@.len(),
    ensures
        ranges_view(v@, r@) == words(v@.subrange(lo as int, hi as int)),
        forall|i: int| #![trigger r@[i]] 0 <= i < r@.len() ==> lo <= r@[i].0 <= r@[i].1 <= hi,
{
    let mut out: Vec<(usize, usize)> = Vec::new();
    let mut pos = lo;
    let mut more = true;
    proof {
        assert(ranges_view(v@, out@) =~= Seq::<Seq<char>>::empty());
        assert(Seq::<Seq<char>>::empty() + words(v@.subrange(lo as int, hi as int)) =~= words(
            v@.subrange(lo as int, hi as int),
        ));
    }
    while more
        invariant
            lo <= pos <= hi <= v@.len(),
            forall|i: int| #![trigger out@[i]] 0 <= i < out@.len() ==> lo <= out@[i].0 <= out@[i].1 <= pos,
            more ==> words(v@.subrange(lo as int, hi as int)) == ranges_view(v@, out@) + words(
                v@.subrange(pos as int, hi as int),
            ),
            !more ==> words(v@.subrange(lo as int, hi as int)) == ranges_view(v@, out@),
        decreases
                if more {
                    hi - pos + 1
                } else {
                    0
                },
    {
        let a = skip_lead(v, pos, hi, Pat::Ws);
        let b = skip_lead(v, a, hi, Pat::NotWs);
        let ghost s = v@.subrange(pos as int, hi as int);
        let ghost before = ranges_view(v@, out@);
        proof {
            assert(s.subrange(a - pos, s.len() as int) =~= v@.subrange(a as int, hi as int));
        }
        if b == a {
            assert(words(s) =~= Seq::<Seq<char>>::empty());
            assert(before + Seq::<Seq<char>>::empty() =~= before);
            more = false;
        } else {
            proof {
                assert(s.subrange(a - pos, b - pos) =~= v@.subrange(a as int, b as int));
                assert(s.subrange(b - pos, s.len() as int) =~= v@.subrange(b as int, hi as int));
                lemma_ranges_view_push(v@, out@, (a, b));
                assert(before + (seq![v@.subrange(a as int, b as int)] + words(
                    v@.subrange(b as int, hi as int),
                )) =~= before.push(v@.subrange(a as int, b as int)) + words(
                    v@.subrange(b as int, hi as int),
                ));
            }
            out.push((a, b));
            pos = b;
        }
    }
    out
}


/// `s` holds no `c`.
pub open spec fn lacks(s: Seq<char>, c: char) -> bool {
    forall|i: int| 0 <= i < s.len() ==> s[i] != c
}

pub proof fn lemma_lacks_subrange(s: Seq<char>, a: int, b: int, c: char)
    requires
        lacks(s, c),
        0 <= a <= b <= s.len(),
    ensures
        lacks(s.subrange(a, b), c),
{
    assert forall|i: int| 0 <= i < b - a implies s.subrange(a, b)[i] != c by {
        assert(s.subrange(a, b)[i] == s[a + i]);
    }
}

pub proof fn lemma_lacks_strip(s: Seq<char>, p: Pat, c: char)
    requires
        lacks(s, c),
    ensures
        lacks(strip_start(s, p), c),
        lacks(strip_end(s, p), c),
        lacks(strip(s, p), c),
{
    lemma_lead_bound(s, p);
    lemma_trail_bound(s, p);
    lemma_lacks_subrange(s, lead(s, p) as int, s.len() as int, c);
    assert(strip_start(s, p) =~= s.subrange(lead(s, p) as int, s.len() as int));
    lemma_lacks_subrange(s, 0, s.len() - trail(s, p), c);
    assert(strip_end(s, p) =~= s.subrange(0, s.len() - trail(s, p)));
    let t = strip_start(s, p);
    lemma_trail_bound(t, p);
    lemma_lacks_subrange(t, 0, t.len() - trail(t, p), c);
    assert(strip(s, p) =~= t.subrange(0, t.len() - trail(t, p)));
}

pub proof fn lemma_find_from_bounds(s: Seq<char>, p: Seq<char>, i: int)
    ensures
        find_from(s, p, i) matches Some(k) ==> 0 <= k && k + p.len() <= s.len(),
    decreases s.len() + 1 - i,
{
    if !(i < 0 || i + p.len() > s.len()) && s.subrange(i, i + p.len()) != p {
        lemma_find_from_bounds(s, p, i + 1);
    }
}

/// Neither half of `s` split at `p` holds a character that `s` lacks.
pub proof fn lemma_lacks_split_once_str(s: Seq<char>, p: Seq<char>, c: char)
    requires
        lacks(s, c),
    ensures
        split_once_str(s, p) matches Some((a, b)) ==> lacks(a, c) && lacks(b, c),
{
    lemma_find_from_bounds(s, p, 0);
    if let Some(k) = find_str(s, p) {
        lemma_lacks_subrange(s, 0, k, c);
        assert(s.take(k) =~= s.subrange(0, k));
        lemma_lacks_subrange(s, k + p.len(), s.len() as int, c);
        assert(s.skip(k + p.len()) =~= s.subrange(k + p.len(), s.len() as int));
    }
}

/// Neither half of `s` split at `d` holds a character that `s` lacks.
pub proof fn lemma_lacks_split_once_char(s: Seq<char>, d: char, c: char)
    requires
        lacks(s, c),
    ensures
        split_once_char(s, d) matches Some((a, b)) ==> lacks(a, c) && lacks(b, c),
{
    let i = lead(s, Pat::NotCh(d));
    if i < s.len() {
        lemma_lacks_subrange(s, 0, i as int, c);
        assert(s.take(i as int) =~= s.subrange(0, i as int));
        lemma_lacks_subrange(s, i + 1int, s.len() as int, c);
    }
}

/// The pieces of `s` split at `c` hold no `c`.
pub proof fn lemma_split_char_lacks(s: Seq<char>, c: char)
    ensures
        forall|k: int| 0 <= k < split_char(s, c).len() ==> lacks(#[trigger] split_char(s, c)[k], c),
    decreases s.len(),
{
    lemma_lead_bound(s, Pat::NotCh(c));
    let i = lead(s, Pat::NotCh(c)) as int;
    if 0 <= i < s.len() {
        let rest = s.subrange(i + 1, s.len() as int);
        lemma_split_char_lacks(rest, c);
        let head = s.take(i);
        assert forall|j: int| 0 <= j < head.len() implies head[j] != c by {
            assert(head[j] == s[j]);
        }
        assert forall|k: int| 0 <= k < split_char(s, c).len() implies lacks(
            #[trigger] split_char(s, c)[k],
            c,
        ) by {
            if k > 0 {
                assert(split_char(s, c)[k] == split_char(rest, c)[k - 1]);
            }
        }
    } else {
        assert forall|k: int| 0 <= k < split_char(s, c).len() implies lacks(
            #[trigger] split_char(s, c)[k],
            c,
        ) by {
            assert(split_char(s, c)[k] == s);
        }
    }
}

/// The words of `s` hold no character that `s` lacks.
pub proof fn lemma_words_lacks(s: Seq<char>, c: char)
    requires
        lacks(s, c),
    ensures
        forall|k: int| 0 <= k < words(s).len() ==> lacks(#[trigger] words(s)[k], c),
    decreases s.len(),
{
    let j = lead(s, Pat::Ws) as int;
    let k0 = lead(s.subrange(j, s.len() as int), Pat::NotWs) as int;
    if 0 <= j && 0 < k0 && j + k0 <= s.len() {
        let rest = s.subrange(j + k0, s.len() as int);
        lemma_lacks_subrange(s, j + k0, s.len() as int, c);
        lemma_words_lacks(rest, c);
        lemma_lacks_subrange(s, j, j + k0, c);
        assert forall|k: int| 0 <= k < words(s).len() implies lacks(#[trigger] words(s)[k], c) by {
            if k > 0 {
                assert(words(s)[k] == words(rest)[k - 1]);
            }
        }
    }
}

/// A property that every step keeps, on pieces without `c`, holds after a run of
/// steps over such pieces.
pub proof fn lemma_fold_pieces_keeps_on<S>(
    st: S,
    ls: Seq<Seq<char>>,
    step: spec_fn(S, Seq<char>) -> S,
    inv: spec_fn(S) -> bool,
    c: char,
)
    requires
        inv(st),
        forall|k: int| 0 <= k < ls.len() ==> lacks(#[trigger] ls[k], c),
        forall|s: S, l: Seq<char>| inv(s) && lacks(l, c) ==> #[trigger] inv(step(s, l)),
    ensures
        inv(fold_pieces(st, ls, step)),
    decreases ls.len(),
{
    if ls.len() > 0 {
        assert(lacks(ls[0], c));
        assert(inv(step(st, ls[0])));
        assert forall|k: int| 0 <= k < ls.drop_first().len() implies lacks(
            #[trigger] ls.drop_first()[k],
            c,
        ) by {
            assert(ls.drop_first()[k] == ls[k + 1]);
        }
        lemma_fold_pieces_keeps_on(step(st, ls[0]), ls.drop_first(), step, inv, c);
    }
}

/// Whether `v[at..at + p.len()]` is `p`.
pub fn range_eq(v: &Vec<char>, at: usize, p: &Vec<char>) -> (b: bool)
    requires
        at + p@.len() <= v@.len(),
    ensures
        b == (v@.subrange(at as int, at + p@.len()) == p@),
{
    let vlen = v.len();
    let mut j: usize = 0;
    while j < p.len()
        invariant
            vlen == v@.len(),
            at + p@.len() <= v@.len(),
            j <= p@.len(),
            forall|k: int| 0 <= k < j ==> v@[at + k] == p@[k],
        decreases p@.len() - j,
    {
        if v[at + j] != p[j] {
            assert(v@.subrange(at as int, at + p@.len())[j as int] != p@[j as int]);
            return false;
        }
        j = j + 1;
    }
    assert(v@.subrange(at as int, at + p@.len()) =~= p@);
    true
}

/// Whether `v[a..b]` spells `w`.
pub fn word_eq(v: &Vec<char>, a: usize, b: usize, w: &str) -> (r: bool)
    requires
        a <= b <= v@.len(),
    ensures
        r == (v@.subrange(a as int, b as int) == w@),
{
    let wc = chars_of(w);
    if b - a != wc.len() {
        assert(v@.subrange(a as int, b as int).len() != w@.len());
        return false;
    }
    range_eq(v, a, &wc)
}

/// `v[lo..hi].find(p)`, as a position in `v`.
pub fn find_in(v: &Vec<char>, lo: usize, hi: usize, p: &Vec<char>) -> (r: Option<usize>)
    requires
        lo <= hi <= v@.len(),
    ensures
        match r {
            Some(k) => lo <= k && k + p@.len() <= hi && find_str(
                v@.subrange(lo as int, hi as int),
                p@,
            ) == Some(k - lo),
            None => find_str(v@.subrange(lo as int, hi as int), p@) is None,
        },
{
    let ghost s = v@.subrange(lo as int, hi as int);
    if p.len() > hi - lo {
        assert(find_from(s, p@, 0) is None);
        return None;
    }
    if p.len() == 0 {
        assert(s.subrange(0, 0) =~= p@);
        return Some(lo);
    }
    let vlen = v.len();
    assert(lo < hi);
    let last = hi - p.len();
    let mut k = lo;
    while k <= last
        invariant
            vlen == v@.len(),
            p@.len() > 0,
            lo <= k <= last + 1,
            last + p@.len() == hi,
            hi <= v@.len(),
            s == v@.subrange(lo as int, hi as int),
            find_from(s, p@, 0) == find_from(s, p@, k - lo),
        decreases last + 1 - k,
    {
        assert(s.subrange(k - lo, k - lo + p@.len()) =~= v@.subrange(k as int, k + p@.len()));
        if range_eq(v, k, p) {
            return Some(k);
        }
        k = k + 1;
    }
    None
}

/// `s[a..b]` as a new string.
pub fn slice_string(s: &str, a: usize, b: usize) -> (r: String)
    requires
        a <= b <= s@.len(),
    ensures
        r@ == s@.subrange(a as int, b as int),
{
    s.substring_char(a, b).to_owned()
}

/// The pieces of `s` named by `rs`, as new strings.
pub fn range_strings(s: &str, rs: &Vec<(usize, usize)>) -> (r: Vec<String>)
    requires
        forall|i: int| 0 <= i < rs@.len() ==> rs@[i].0 <= #[trigger] rs@[i].1 <= s@.len(),
    ensures
        strings_view(r@) == ranges_view(s@, rs@),
{
    let mut out: Vec<String> = Vec::new();
    let mut i: usize = 0;
    while i < rs.len()
        invariant
            i <= rs@.len(),
            forall|j: int| 0 <= j < rs@.len() ==> rs@[j].0 <= #[trigger] rs@[j].1 <= s@.len(),
            strings_view(out@) == ranges_view(s@, rs@.take(i as int)),
        decreases rs@.len() - i,
    {
        let (a, b) = rs[i];
        let piece = slice_string(s, a, b);
        proof {
            assert(rs@.take(i + 1) =~= rs@.take(i as int).push(rs@[i as int]));
            lemma_ranges_view_push(s@, rs@.take(i as int), rs@[i as int]);
        }
        out.push(piece);
        assert(strings_view(out@) =~= ranges_view(s@, rs@.take(i + 1)));
        i = i + 1;
    }
    assert(rs@.take(rs@.len() as int) =~= rs@);
    out
}


/// `s.trim()` as a new string.
pub fn trimmed(s: &str) -> (r: String)
    ensures
        r@ == trim(s@),
{
    let v = chars_of(s);
    let (a, b) = strip_range(&v, 0, v.len(), Pat::Ws);
    assert(v@.subrange(0, v@.len() as int) =~= v@);
    slice_string(s, a, b)
}


/// Whether two strings are equal.
pub fn str_eq(a: &str, b: &str) -> (r: bool)
    ensures
        r == (a@ == b@),
{
    let v = chars_of(a);
    assert(v@.subrange(0, v@.len() as int) =~= v@);
    word_eq(&v, 0, v.len(), b)
}

/// `a` followed by `b`, as a new string.
pub fn concat(a: &str, b: &str) -> (r: String)
    ensures
        r@ == a@ + b@,
{
    let mut r = owned(a);
    r.append(b);
    r
}

/// A new string holding `s`.
pub fn owned(s: &str) -> (r: String)
    ensures
        r@ == s@,
{
    s.to_owned()
}

} // verus!
