//! Character-sequence scanning used by the parsers: searching for a
//! separator, splitting on it, and joining tokens back together.
use vstd::prelude::*;

verus! {

/// The first position at or after `p` where `c` occurs in `s`.
pub open spec fn first_index(s: Seq<char>, c: char, p: int) -> Option<int>
    decreases s.len() - p,
{
    if p < 0 || p >= s.len() {
        None
    } else if s[p] == c {
        Some(p)
    } else {
        first_index(s, c, p + 1)
    }
}

/// The tokens of `s` between occurrences of `sep`, scanning from position
/// `i` with the current token starting at `start`.
pub open spec fn split_from(s: Seq<char>, sep: char, start: int, i: int) -> Seq<Seq<char>>
    decreases s.len() - i,
{
    if i < 0 || i >= s.len() {
        seq![s.subrange(start, s.len() as int)]
    } else if s[i] == sep {
        seq![s.subrange(start, i)] + split_from(s, sep, i + 1, i + 1)
    } else {
        split_from(s, sep, start, i + 1)
    }
}

/// The tokens of `s` between occurrences of `sep`; always at least one.
pub open spec fn split(s: Seq<char>, sep: char) -> Seq<Seq<char>> {
    split_from(s, sep, 0, 0)
}

/// The tokens laid end to end with `sep` between neighbours.
pub open spec fn join(ts: Seq<Seq<char>>, sep: char) -> Seq<char>
    decreases ts.len(),
{
    if ts.len() == 0 {
        Seq::empty()
    } else if ts.len() == 1 {
        ts[0]
    } else {
        ts[0] + seq![sep] + join(ts.drop_first(), sep)
    }
}

pub proof fn lemma_first_index_found(s: Seq<char>, c: char, p: int, k: int)
    requires
        0 <= p <= k < s.len(),
        s[k] == c,
        forall|j: int| p <= j < k ==> s[j] != c,
    ensures
        first_index(s, c, p) == Some(k),
    decreases k - p,
{
    if p < k {
        lemma_first_index_found(s, c, p + 1, k);
    }
}

pub proof fn lemma_first_index_absent(s: Seq<char>, c: char, p: int)
    requires
        0 <= p,
        forall|j: int| p <= j < s.len() ==> s[j] != c,
    ensures
        first_index(s, c, p) == None::<int>,
    decreases s.len() - p,
{
    if p < s.len() {
        lemma_first_index_absent(s, c, p + 1);
    }
}

pub proof fn lemma_first_index_facts(s: Seq<char>, c: char, p: int)
    requires
        0 <= p,
    ensures
        first_index(s, c, p) matches Some(k) ==> p <= k < s.len() && s[k] == c && forall|j: int|
            p <= j < k ==> s[j] != c,
        first_index(s, c, p) is None ==> forall|j: int| p <= j < s.len() ==> s[j] != c,
    decreases s.len() - p,
{
    if p < s.len() {
        lemma_first_index_facts(s, c, p + 1);
    }
}

/// Scanning over characters other than the separator changes nothing.
pub proof fn lemma_split_skip(s: Seq<char>, sep: char, start: int, i: int, k: int)
    requires
        0 <= i <= k <= s.len(),
        forall|j: int| i <= j < k ==> s[j] != sep,
    ensures
        split_from(s, sep, start, i) == split_from(s, sep, start, k),
    decreases k - i,
{
    if i < k {
        lemma_split_skip(s, sep, start, i + 1, k);
    }
}

/// Splitting a suffix of a longer sequence gives the tokens of the suffix.
pub proof fn lemma_split_shift(p: Seq<char>, b: Seq<char>, sep: char, start: int, i: int)
    requires
        0 <= start <= i <= b.len(),
    ensures
        split_from(p + b, sep, p.len() + start, p.len() + i) == split_from(b, sep, start, i),
    decreases b.len() - i,
{
    let x = p + b;
    if i >= b.len() {
        assert(x.subrange(p.len() + start, x.len() as int) =~= b.subrange(start, b.len() as int));
    } else if b[i] == sep {
        assert(x[p.len() + i] == b[i]);
        assert(x.subrange(p.len() + start, p.len() + i) =~= b.subrange(start, i));
        lemma_split_shift(p, b, sep, i + 1, i + 1);
    } else {
        assert(x[p.len() + i] == b[i]);
        lemma_split_shift(p, b, sep, start, i + 1);
    }
}

pub proof fn lemma_split_nonempty(s: Seq<char>, sep: char, start: int, i: int)
    ensures
        split_from(s, sep, start, i).len() >= 1,
    decreases s.len() - i,
{
    if 0 <= i < s.len() {
        if s[i] == sep {
            lemma_split_nonempty(s, sep, i + 1, i + 1);
        } else {
            lemma_split_nonempty(s, sep, start, i + 1);
        }
    }
}

/// Joining the tokens of a split gives back what was split.
pub proof fn lemma_join_split_from(s: Seq<char>, sep: char, start: int, i: int)
    requires
        0 <= start <= i <= s.len(),
    ensures
        join(split_from(s, sep, start, i), sep) == s.subrange(start, s.len() as int),
    decreases s.len() - i,
{
    if i >= s.len() {
    } else if s[i] == sep {
        lemma_join_split_from(s, sep, i + 1, i + 1);
        lemma_split_nonempty(s, sep, i + 1, i + 1);
        let ts = split_from(s, sep, start, i);
        let rest = split_from(s, sep, i + 1, i + 1);
        assert(ts.drop_first() =~= rest);
        assert(s.subrange(start, i) + seq![sep] + s.subrange(i + 1, s.len() as int) =~= s.subrange(
            start,
            s.len() as int,
        ));
    } else {
        lemma_join_split_from(s, sep, start, i + 1);
    }
}

pub proof fn lemma_join_split(s: Seq<char>, sep: char)
    ensures
        join(split(s, sep), sep) == s,
{
    lemma_join_split_from(s, sep, 0, 0);
    assert(s.subrange(0, s.len() as int) =~= s);
}

/// A sequence without the separator is one token.
pub proof fn lemma_split_single(s: Seq<char>, sep: char)
    requires
        !s.contains(sep),
    ensures
        split(s, sep) == seq![s],
{
    assert forall|j: int| 0 <= j < s.len() implies s[j] != sep by {
        if s[j] == sep {
            assert(s.contains(sep));
        }
    }
    lemma_split_skip(s, sep, 0, 0, s.len() as int);
    assert(s.subrange(0, s.len() as int) =~= s);
}

/// The first token ends at the first separator.
pub proof fn lemma_split_cons(a: Seq<char>, b: Seq<char>, sep: char)
    requires
        !a.contains(sep),
    ensures
        split(a + seq![sep] + b, sep) == seq![a] + split(b, sep),
{
    let x = a + seq![sep] + b;
    assert forall|j: int| 0 <= j < a.len() implies x[j] != sep by {
        assert(x[j] == a[j]);
        if a[j] == sep {
            assert(a.contains(sep));
        }
    }
    lemma_split_skip(x, sep, 0, 0, a.len() as int);
    assert(x[a.len() as int] == sep);
    assert(x.subrange(0, a.len() as int) =~= a);
    let p = a + seq![sep];
    assert(x =~= p + b);
    lemma_split_shift(p, b, sep, 0, 0);
}

/// Splitting tokens joined by a separator that none of them holds gives the
/// tokens back.
pub proof fn lemma_split_join(ts: Seq<Seq<char>>, sep: char)
    requires
        ts.len() >= 1,
        forall|k: int| 0 <= k < ts.len() ==> !(#[trigger] ts[k]).contains(sep),
    ensures
        split(join(ts, sep), sep) == ts,
    decreases ts.len(),
{
    if ts.len() == 1 {
        lemma_split_single(ts[0], sep);
        assert(ts =~= seq![ts[0]]);
    } else {
        let rest = ts.drop_first();
        assert forall|k: int| 0 <= k < rest.len() implies !(#[trigger] rest[k]).contains(sep) by {
            assert(rest[k] == ts[k + 1]);
        }
        lemma_split_join(rest, sep);
        assert(!ts[0].contains(sep));
        lemma_split_cons(ts[0], join(rest, sep), sep);
        assert(seq![ts[0]] + rest =~= ts);
    }
}

/// Appending a token to a non-empty list appends a separator and the token.
pub proof fn lemma_join_push(ts: Seq<Seq<char>>, t: Seq<char>, sep: char)
    requires
        ts.len() >= 1,
    ensures
        join(ts.push(t), sep) == join(ts, sep) + seq![sep] + t,
    decreases ts.len(),
{
    let u = ts.push(t);
    if ts.len() == 1 {
        assert(u.drop_first() =~= seq![t]);
        assert(join(u.drop_first(), sep) == t);
    } else {
        lemma_join_push(ts.drop_first(), t, sep);
        assert(u.drop_first() =~= ts.drop_first().push(t));
        assert(join(u, sep) =~= join(ts, sep) + seq![sep] + t);
    }
}

/// Equal once ASCII letters are folded to lower case.
pub open spec fn fold_eq(a: char, b: char) -> bool {
    a == b || ('A' <= a <= 'Z' && (a as u32) + 32 == (b as u32)) || ('A' <= b <= 'Z' && (b as u32)
        + 32 == (a as u32))
}

/// Compares two characters ignoring ASCII case.
pub fn char_fold_eq(a: char, b: char) -> (r: bool)
    ensures
        r == fold_eq(a, b),
{
    let x = a as u32;
    let y = b as u32;
    x == y || ('A' <= a && a <= 'Z' && x + 32 == y) || ('A' <= b && b <= 'Z' && y + 32 == x)
}

/// The characters of `s`, one per element.
pub fn chars_of(s: &str) -> (r: Vec<char>)
    ensures
        r@ == s@,
{
    let n = s.unicode_len();
    let mut r: Vec<char> = Vec::new();
    let mut i: usize = 0;
    while i < n
        invariant
            n == s@.len(),
            i <= n,
            r@ == s@.subrange(0, i as int),
        decreases n - i,
    {
        r.push(s.get_char(i));
        i = i + 1;
    }
    assert(r@ =~= s@);
    r
}

/// The first position at or after `p` where `c` occurs in `v`.
pub fn find_char(v: &Vec<char>, c: char, p: usize) -> (r: Option<usize>)
    ensures
        r matches Some(k) ==> p <= k < v@.len() && first_index(v@, c, p as int) == Some(
            k as int,
        ),
        r is None ==> first_index(v@, c, p as int) == None::<int>,
{
    let mut i: usize = p;
    while i < v.len()
        invariant
            p <= i,
            first_index(v@, c, p as int) == first_index(v@, c, i as int),
        decreases v.len() - i,
    {
        if v[i] == c {
            return Some(i);
        }
        i = i + 1;
    }
    None
}

/// The tokens of `s` between occurrences of `sep`, as in `str::split`.
pub fn split_str(s: &str, sep: char) -> (r: Vec<String>)
    ensures
        r@.len() == split(s@, sep).len(),
        forall|k: int| 0 <= k < r@.len() ==> #[trigger] r@[k]@ == split(s@, sep)[k],
{
    let v = chars_of(s);
    let mut r: Vec<String> = Vec::new();
    let mut start: usize = 0;
    let mut i: usize = 0;
    while i < v.len()
        invariant
            v@ == s@,
            start <= i <= v@.len(),
            r@.map_values(|t: String| t@) + split_from(s@, sep, start as int, i as int) == split(
                s@,
                sep,
            ),
        decreases v.len() - i,
    {
        if v[i] == sep {
            let t = s.substring_char(start, i).to_owned();
            let ghost before = r@.map_values(|t: String| t@);
            r.push(t);
            assert(r@.map_values(|t: String| t@) =~= before + seq![s@.subrange(start as int, i as int)]);
            start = i + 1;
        }
        i = i + 1;
    }
    let t = s.substring_char(start, v.len()).to_owned();
    let ghost before = r@.map_values(|t: String| t@);
    r.push(t);
    assert(r@.map_values(|t: String| t@) =~= before + seq![s@.subrange(start as int, s@.len() as int)]);
    proof {
        assert(r@.map_values(|t: String| t@) =~= split(s@, sep));
        assert forall|k: int| 0 <= k < r@.len() implies #[trigger] r@[k]@ == split(s@, sep)[k] by {
            assert(r@.map_values(|t: String| t@)[k] == r@[k]@);
        }
    }
    r
}

} // verus!
