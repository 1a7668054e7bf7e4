//! Lookup in a list of raw `Name: Value` header lines.
use crate::head::{skip_ows, trim_bounds, trim_from};
use crate::text::{char_fold_eq, chars_of, find_char, first_index, fold_eq, lemma_first_index_facts};
use vstd::prelude::*;

verus! {

/// Raw header lines as received, `Name: Value` each.
pub struct Headers {
    pub items: Vec<String>,
}

/// Equal once ASCII letters are folded to lower case.
pub open spec fn fold_eq_seq(a: Seq<char>, b: Seq<char>) -> bool {
    a.len() == b.len() && forall|j: int| 0 <= j < a.len() ==> fold_eq(#[trigger] a[j], b[j])
}

/// The line has a colon, and the text before it, trimmed, is `name` in
/// any ASCII case.
pub open spec fn header_matches(l: Seq<char>, name: Seq<char>) -> bool {
    match first_index(l, ':', 0) {
        Some(c) => fold_eq_seq(trim_from(l.subrange(0, c), 0), name),
        None => false,
    }
}

/// What follows the first colon, without leading spaces and tabs.
pub open spec fn header_value(l: Seq<char>) -> Seq<char> {
    match first_index(l, ':', 0) {
        Some(c) => l.subrange(skip_ows(l, c + 1), l.len() as int),
        None => Seq::empty(),
    }
}

impl Headers {
    /// The value of the first header line named `name`, compared ignoring
    /// ASCII case and the spaces around the name.
    pub fn get(&self, name: &str) -> (r: Option<&str>)
        ensures
            r matches Some(v) ==> exists|k: int|
                0 <= k < self.items@.len() && header_matches(self.items@[k]@, name@) && v@
                    == header_value(self.items@[k]@) && forall|j: int|
                    0 <= j < k ==> !header_matches(self.items@[j]@, name@),
            r is None <==> forall|k: int|
                0 <= k < self.items@.len() ==> !header_matches(self.items@[k]@, name@),
    {
        let want = chars_of(name);
        let mut k: usize = 0;
        while k < self.items.len()
            invariant
                want@ == name@,
                k <= self.items@.len(),
                forall|j: int| 0 <= j < k ==> !header_matches(self.items@[j]@, name@),
            decreases self.items.len() - k,
        {
            let line = self.items[k].as_str();
            let v = chars_of(line);
            let n = v.len();
            if let Some(c) = find_char(&v, ':', 0) {
                proof {
                    lemma_first_index_facts(v@, ':', 0);
                }
                let before = chars_of(line.substring_char(0, c));
                let (a, b) = trim_bounds(&before, 0);
                let mut same = b - a == want.len();
                let mut j: usize = 0;
                while same && j < want.len()
                    invariant
                        same ==> b - a == want@.len(),
                        a <= b <= before@.len(),
                        j <= want@.len(),
                        forall|m: int|
                            0 <= m < j ==> fold_eq(#[trigger] before@[a + m], want@[m]),
                        !same ==> !fold_eq_seq(before@.subrange(a as int, b as int), want@),
                    decreases want.len() - j + (if same { 1int } else { 0 }),
                {
                    if !char_fold_eq(before[a + j], want[j]) {
                        assert(before@.subrange(a as int, b as int)[j as int] == before@[a + j]);
                        same = false;
                    } else {
                        j = j + 1;
                    }
                }
                if same {
                    assert forall|m: int| 0 <= m < want@.len() implies fold_eq(
                        #[trigger] before@.subrange(a as int, b as int)[m],
                        want@[m],
                    ) by {
                        assert(before@.subrange(a as int, b as int)[m] == before@[a + m]);
                    }
                    assert(fold_eq_seq(before@.subrange(a as int, b as int), want@));
                    let mut s: usize = c + 1;
                    while s < n && (v[s] == ' ' || v[s] == '\t')
                        invariant
                            c < s <= n == v@.len(),
                            skip_ows(v@, s as int) == skip_ows(v@, c + 1),
                        decreases n - s,
                    {
                        s = s + 1;
                    }
                    return Some(line.substring_char(s, n));
                }
            }
            k = k + 1;
        }
        None
    }
}

} // verus!
