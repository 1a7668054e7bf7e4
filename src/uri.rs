//! Decomposition of a request-target into its path and query parameters.
//!
//! The query is split on `&`, and each element on its first `=`. An element
//! without `=` becomes a parameter whose name is the whole element and whose
//! value is empty. Nothing is percent-decoded.
use crate::text::{
    chars_of, find_char, first_index, join, lemma_first_index_absent, lemma_first_index_facts,
    lemma_first_index_found, lemma_join_push, lemma_join_split, lemma_split_join, split, split_str,
};
use vstd::prelude::*;

verus! {

/// One query parameter as characters: name and value.
pub type QueryPair = (Seq<char>, Seq<char>);

/// The ordered (name, value) pairs of a request's query string, duplicates
/// and client order kept.
#[derive(Debug)]
pub struct QueryParams {
    pub items: Vec<(String, String)>,
}

impl View for QueryParams {
    type V = Seq<QueryPair>;

    open spec fn view(&self) -> Seq<QueryPair> {
        self.items@.map_values(|p: (String, String)| (p.0@, p.1@))
    }
}

/// A query element split on its first `=`; without one, all of it is the name.
pub open spec fn pair_of(t: Seq<char>) -> QueryPair {
    match first_index(t, '=', 0) {
        Some(j) => (t.subrange(0, j), t.subrange(j + 1, t.len() as int)),
        None => (t, Seq::empty()),
    }
}

/// A parameter written as `name=value`.
pub open spec fn pair_text(p: QueryPair) -> Seq<char> {
    p.0 + seq!['='] + p.1
}

/// The parameters of a query string; none when it is empty.
pub open spec fn query_pairs(q: Seq<char>) -> Seq<QueryPair> {
    if q.len() == 0 {
        Seq::empty()
    } else {
        split(q, '&').map_values(|t: Seq<char>| pair_of(t))
    }
}

/// The parameters written out and joined by `&`.
pub open spec fn query_text(ps: Seq<QueryPair>) -> Seq<char> {
    join(ps.map_values(|p: QueryPair| pair_text(p)), '&')
}

/// A request-target cut at its first `?` into path and parameters.
pub open spec fn uri_parts(u: Seq<char>) -> (Seq<char>, Seq<QueryPair>) {
    match first_index(u, '?', 0) {
        Some(i) => (u.subrange(0, i), query_pairs(u.subrange(i + 1, u.len() as int))),
        None => (u, Seq::empty()),
    }
}

/// The request-target for a path and parameters: the path alone when there
/// are none, else the path, `?` and the written parameters.
pub open spec fn uri_text(path: Seq<char>, ps: Seq<QueryPair>) -> Seq<char> {
    if ps.len() == 0 {
        path
    } else {
        path + seq!['?'] + query_text(ps)
    }
}

/// The parsed target put back together: the path, then `?` and the written
/// parameters where the target had a `?`.
pub open spec fn reassembled(u: Seq<char>) -> Seq<char> {
    if u.contains('?') {
        uri_parts(u).0 + seq!['?'] + query_text(uri_parts(u).1)
    } else {
        uri_parts(u).0
    }
}

/// Every element of the target's query, if it has a non-empty one, holds `=`.
pub open spec fn query_elements_have_values(u: Seq<char>) -> bool {
    match first_index(u, '?', 0) {
        Some(i) => {
            let q = u.subrange(i + 1, u.len() as int);
            q.len() == 0 || forall|k: int|
                0 <= k < split(q, '&').len() ==> (#[trigger] split(q, '&')[k]).contains('=')
        },
        None => true,
    }
}

impl QueryParams {
    /// No parameters.
    pub fn new() -> (r: QueryParams)
        ensures
            r@ == Seq::<QueryPair>::empty(),
    {
        QueryParams { items: Vec::new() }
    }

    /// The value of the first parameter named `key`.
    pub fn get(&self, key: &str) -> (r: Option<&String>)
        ensures
            r matches Some(v) ==> exists|k: int|
                0 <= k < self@.len() && self@[k].0 == key@ && v@ == self@[k].1 && forall|j: int|
                    0 <= j < k ==> self@[j].0 != key@,
            r is None <==> forall|k: int| 0 <= k < self@.len() ==> self@[k].0 != key@,
    {
        let want = key.to_owned();
        let mut i: usize = 0;
        while i < self.items.len()
            invariant
                want@ == key@,
                i <= self.items@.len(),
                forall|j: int| 0 <= j < i ==> self@[j].0 != key@,
            decreases self.items.len() - i,
        {
            if self.items[i].0 == want {
                assert(self@[i as int].0 == self.items@[i as int].0@);
                return Some(&self.items[i].1);
            }
            assert(self@[i as int].0 == self.items@[i as int].0@);
            i = i + 1;
        }
        None
    }

    /// All parameters in order.
    pub fn get_all(&self) -> (r: &Vec<(String, String)>)
        ensures
            r == &self.items,
    {
        &self.items
    }
}

/// A query element cut at its first `=`.
fn split_pair(t: &str) -> (r: (String, String))
    ensures
        (r.0@, r.1@) == pair_of(t@),
{
    let v = chars_of(t);
    let n = v.len();
    match find_char(&v, '=', 0) {
        Some(j) => {
            assert(j < n);
            proof {
                lemma_first_index_facts(t@, '=', 0);
            }
            (t.substring_char(0, j).to_owned(), t.substring_char(j + 1, n).to_owned())
        },
        None => (t.to_owned(), String::new()),
    }
}

/// The parameters of a query string.
fn parse_query(q: &str) -> (r: QueryParams)
    ensures
        r@ == query_pairs(q@),
{
    if q.is_empty() {
        return QueryParams::new();
    }
    let tokens = split_str(q, '&');
    let ghost ts = split(q@, '&');
    let mut items: Vec<(String, String)> = Vec::new();
    let mut k: usize = 0;
    while k < tokens.len()
        invariant
            tokens@.len() == ts.len(),
            forall|m: int| 0 <= m < tokens@.len() ==> #[trigger] tokens@[m]@ == ts[m],
            k <= tokens@.len(),
            items@.len() == k,
            forall|m: int| 0 <= m < k ==> (#[trigger] items@[m].0@, items@[m].1@) == pair_of(ts[m]),
        decreases tokens.len() - k,
    {
        let p = split_pair(tokens[k].as_str());
        assert(tokens@[k as int]@ == ts[k as int]);
        items.push(p);
        k = k + 1;
    }
    let r = QueryParams { items };
    assert(r@ =~= query_pairs(q@)) by {
        assert forall|m: int| 0 <= m < r@.len() implies r@[m] == query_pairs(q@)[m] by {
            assert((items@[m].0@, items@[m].1@) == pair_of(ts[m]));
        }
    }
    r
}

/// Splits a request-target at its first `?` into the path and the query
/// parameters. Never fails.
pub fn parse_uri(uri: &str) -> (r: Result<(String, QueryParams), UriError>)
    ensures
        r matches Ok((path, params)) && (path@, params@) == uri_parts(uri@),
{
    let v = chars_of(uri);
    let n = v.len();
    match find_char(&v, '?', 0) {
        None => Ok((uri.to_owned(), QueryParams::new())),
        Some(i) => {
            assert(i < n);
            proof {
                lemma_first_index_facts(uri@, '?', 0);
            }
            let path = uri.substring_char(0, i).to_owned();
            let params = parse_query(uri.substring_char(i + 1, n));
            Ok((path, params))
        },
    }
}

/// Failure to decompose a request-target.
#[derive(Debug, PartialEq, Eq)]
pub enum UriError {
    Malformed,
}

/// Writes a path and parameters as a request-target.
pub fn format_uri(path: &str, params: &QueryParams) -> (r: String)
    ensures
        r@ == uri_text(path@, params@),
{
    let mut r = path.to_owned();
    let ghost texts = params@.map_values(|p: QueryPair| pair_text(p));
    let mut k: usize = 0;
    while k < params.items.len()
        invariant
            k <= params.items@.len(),
            texts == params@.map_values(|p: QueryPair| pair_text(p)),
            k == 0 ==> r@ == path@,
            k > 0 ==> r@ == path@ + seq!['?'] + join(texts.subrange(0, k as int), '&'),
        decreases params.items.len() - k,
    {
        let ghost prev = r@;
        if k == 0 {
            r.append("?");
        } else {
            r.append("&");
        }
        r.append(params.items[k].0.as_str());
        r.append("=");
        r.append(params.items[k].1.as_str());
        proof {
            reveal_strlit("?");
            reveal_strlit("&");
            reveal_strlit("=");
            let t = texts[k as int];
            assert(t == pair_text(params@[k as int]));
            assert(params@[k as int] == (params.items@[k as int].0@, params.items@[k as int].1@));
            if k == 0 {
                assert(texts.subrange(0, 1) =~= seq![t]);
                assert(r@ =~= path@ + seq!['?'] + t);
            } else {
                lemma_join_push(texts.subrange(0, k as int), t, '&');
                assert(texts.subrange(0, k as int).push(t) =~= texts.subrange(0, k + 1));
                assert(r@ =~= prev + seq!['&'] + t);
            }
        }
        k = k + 1;
    }
    proof {
        assert(texts.subrange(0, k as int) =~= texts);
    }
    r
}

/// The path of a parsed request-target never holds `?`.
pub proof fn lemma_path_has_no_query(u: Seq<char>)
    ensures
        !uri_parts(u).0.contains('?'),
{
    lemma_first_index_facts(u, '?', 0);
    match first_index(u, '?', 0) {
        Some(i) => {
            let p = u.subrange(0, i);
            assert forall|j: int| 0 <= j < p.len() implies p[j] != '?' by {
                assert(p[j] == u[j]);
            }
        },
        None => {},
    }
}

/// Putting a parsed request-target back together gives the target, when
/// every element of its query has a `=`.
pub proof fn lemma_reassemble_uri(u: Seq<char>)
    requires
        query_elements_have_values(u),
    ensures
        reassembled(u) == u,
{
    lemma_first_index_facts(u, '?', 0);
    match first_index(u, '?', 0) {
        Some(i) => {
            assert(u.contains('?'));
            let q = u.subrange(i + 1, u.len() as int);
            if q.len() > 0 {
                let ts = split(q, '&');
                let ps = ts.map_values(|t: Seq<char>| pair_of(t));
                let texts = ps.map_values(|p: QueryPair| pair_text(p));
                assert forall|k: int| 0 <= k < ts.len() implies texts[k] == ts[k] by {
                    let t = ts[k];
                    assert(t.contains('='));
                    lemma_first_index_facts(t, '=', 0);
                    match first_index(t, '=', 0) {
                        Some(j) => {
                            assert(t.subrange(0, j) + seq!['='] + t.subrange(j + 1, t.len() as int)
                                =~= t);
                        },
                        None => {
                            let w = choose|w: int| 0 <= w < t.len() && t[w] == '=';
                            assert(t[w] == '=');
                        },
                    }
                }
                assert(texts =~= ts);
                lemma_join_split(q, '&');
            } else {
                assert(query_text(Seq::empty()) =~= Seq::<char>::empty());
            }
            assert(u.subrange(0, i) + seq!['?'] + q =~= u);
        },
        None => {
            if u.contains('?') {
                let w = choose|w: int| 0 <= w < u.len() && u[w] == '?';
                assert(u[w] == '?');
            }
        },
    }
}

/// Parsing a formatted request-target gives back its path and parameters,
/// when the path holds no `?` or `#` and no name or value holds `?`, `&` or
/// `=`.
pub proof fn lemma_parse_format_uri(path: Seq<char>, ps: Seq<QueryPair>)
    requires
        !path.contains('?'),
        !path.contains('#'),
        forall|k: int|
            0 <= k < ps.len() ==> {
                &&& !(#[trigger] ps[k]).0.contains('?')
                &&& !ps[k].0.contains('&')
                &&& !ps[k].0.contains('=')
                &&& !ps[k].1.contains('?')
                &&& !ps[k].1.contains('&')
                &&& !ps[k].1.contains('=')
            },
    ensures
        uri_parts(uri_text(path, ps)) == (path, ps),
{
    assert forall|j: int| 0 <= j < path.len() implies path[j] != '?' by {
        if path[j] == '?' {
            assert(path.contains('?'));
        }
    }
    if ps.len() == 0 {
        lemma_first_index_absent(path, '?', 0);
        assert(ps =~= Seq::<QueryPair>::empty());
    } else {
        let texts = ps.map_values(|p: QueryPair| pair_text(p));
        let q = query_text(ps);
        let x = path + seq!['?'] + q;
        assert forall|j: int| 0 <= j < path.len() implies x[j] != '?' by {
            assert(x[j] == path[j]);
        }
        lemma_first_index_found(x, '?', 0, path.len() as int);
        assert(x.subrange(0, path.len() as int) =~= path);
        assert(x.subrange(path.len() as int + 1, x.len() as int) =~= q);
        assert forall|k: int| 0 <= k < texts.len() implies !(#[trigger] texts[k]).contains('&') by {
            let n = ps[k].0;
            let v = ps[k].1;
            assert(texts[k] == n + seq!['='] + v);
            if texts[k].contains('&') {
                let w = choose|w: int| 0 <= w < texts[k].len() && texts[k][w] == '&';
                if w < n.len() {
                    assert(n[w] == '&');
                    assert(n.contains('&'));
                } else if w > n.len() {
                    assert(v[w - n.len() - 1] == '&');
                    assert(v.contains('&'));
                }
            }
        }
        lemma_split_join(texts, '&');
        assert(q.len() > 0) by {
            if texts.len() == 1 {
            } else {
                assert(q == texts[0] + seq!['&'] + join(texts.drop_first(), '&'));
            }
        }
        assert forall|k: int| 0 <= k < texts.len() implies pair_of(#[trigger] texts[k]) == ps[k] by {
            let n = ps[k].0;
            let v = ps[k].1;
            let t = texts[k];
            assert(t == n + seq!['='] + v);
            assert forall|j: int| 0 <= j < n.len() implies t[j] != '=' by {
                assert(t[j] == n[j]);
                if n[j] == '=' {
                    assert(n.contains('='));
                }
            }
            lemma_first_index_found(t, '=', 0, n.len() as int);
            assert(t.subrange(0, n.len() as int) =~= n);
            assert(t.subrange(n.len() as int + 1, t.len() as int) =~= v);
        }
        assert(split(q, '&').map_values(|t: Seq<char>| pair_of(t)) =~= ps);
    }
}

} // verus!
