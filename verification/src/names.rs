//! Lists of names kept in ascending byte order without duplicates.

use crate::database::texts;
use crate::order::{
    bytes_eq, bytes_lt, lemma_lex_irreflexive, lemma_lex_total, lemma_lex_transitive, lex_lt,
};
use crate::search::{bisect, decides, lemma_bisect_partition_point, partition_point_range, partitioned};
use crate::sorting::{ascending, merge_sort, Sortable};
use vstd::prelude::*;
use vstd::utf8::{encode_utf8, encode_utf8_decode_utf8};

verus! {

/// The names come in strictly ascending order of their bytes. No name
/// occurs twice in such a list.
pub open spec fn strictly_ascending(names: Seq<Seq<char>>) -> bool {
    forall|i: int, j: int|
        0 <= i < j < names.len() ==> lex_lt(
            encode_utf8(#[trigger] names[i]),
            encode_utf8(#[trigger] names[j]),
        )
}

/// A text is told by its bytes.
pub proof fn lemma_same_bytes_same_text(a: Seq<char>, b: Seq<char>)
    requires
        encode_utf8(a) == encode_utf8(b),
    ensures
        a == b,
{
    encode_utf8_decode_utf8(a);
    encode_utf8_decode_utf8(b);
}

/// In a strictly ascending list a name stands at one index only.
pub proof fn lemma_ascending_is_unique(names: Seq<Seq<char>>, i: int, j: int)
    requires
        strictly_ascending(names),
        0 <= i < names.len(),
        0 <= j < names.len(),
        names[i] == names[j],
    ensures
        i == j,
{
    lemma_lex_irreflexive(encode_utf8(names[i]));
}

/// The predicate of the search for `name`: the name at the index comes
/// before it.
pub open spec fn comes_before(names: Seq<Seq<char>>, name: Seq<char>) -> spec_fn(int) -> bool {
    |i: int| lex_lt(encode_utf8(names[i]), encode_utf8(name))
}

/// Where `name` stands in an ascending list, or would have to be put, and
/// whether it stands there.
pub fn position(names: &Vec<String>, name: &str) -> (r: (usize, bool))
    requires
        strictly_ascending(texts(names@)),
    ensures
        r.0 <= names@.len(),
        forall|i: int|
            0 <= i < r.0 ==> lex_lt(encode_utf8(#[trigger] texts(names@)[i]), encode_utf8(name@)),
        forall|i: int|
            r.0 <= i < names@.len() ==> !lex_lt(
                encode_utf8(#[trigger] texts(names@)[i]),
                encode_utf8(name@),
            ),
        r.1 <==> texts(names@).contains(name@),
        r.1 ==> r.0 < names@.len() && names@[r.0 as int]@ == name@,
{
    let ghost all = texts(names@);
    let ghost before = comes_before(all, name@);
    let key = name.as_bytes();
    let count = names.len();
    let pred = |i: usize| -> (b: bool)
        requires
            i < names@.len(),
        ensures
            b == lex_lt(encode_utf8(names@[i as int]@), encode_utf8(name@)),
        { bytes_lt(names[i].as_str().as_bytes(), key) };
    let at = partition_point_range(count, &pred);
    proof {
        assert(decides(pred, before, count as int));
        assert(at == bisect(before, 0, count as int));
        assert(partitioned(before, count as int)) by {
            assert forall|i: int, j: int| 0 <= i <= j < count && #[trigger] before(j) implies #[trigger] before(
                i,
            ) by {
                if i < j {
                    assert(lex_lt(encode_utf8(all[i]), encode_utf8(all[j])));
                    lemma_lex_transitive(
                        encode_utf8(all[i]),
                        encode_utf8(all[j]),
                        encode_utf8(name@),
                    );
                }
            }
        }
        lemma_bisect_partition_point(before, count as int);
        assert forall|i: int| 0 <= i < at implies lex_lt(
            encode_utf8(#[trigger] all[i]),
            encode_utf8(name@),
        ) by {
            assert(before(i));
        }
        assert forall|i: int| at <= i < count implies !lex_lt(
            encode_utf8(#[trigger] all[i]),
            encode_utf8(name@),
        ) by {
            assert(!before(i));
        }
    }
    let found = at < count && bytes_eq(names[at].as_str().as_bytes(), key);
    proof {
        if found {
            lemma_same_bytes_same_text(all[at as int], name@);
            assert(all[at as int] == name@);
        } else {
            if all.contains(name@) {
                let k = choose|k: int| 0 <= k < all.len() && all[k] == name@;
                lemma_lex_irreflexive(encode_utf8(name@));
                assert(!lex_lt(encode_utf8(all[k]), encode_utf8(name@)));
                if k < at {
                    assert(lex_lt(encode_utf8(all[k]), encode_utf8(name@)));
                }
                if k > at {
                    assert(lex_lt(encode_utf8(all[at as int]), encode_utf8(all[k])));
                    assert(!lex_lt(encode_utf8(all[at as int]), encode_utf8(name@)));
                }
                assert(k == at);
            }
        }
    }
    (at, found)
}

/// Put `name` into an ascending list unless it is there. The result says
/// where the name stands, and whether it was put there just now.
pub fn insert_name(names: &mut Vec<String>, name: &str) -> (r: (usize, bool))
    requires
        strictly_ascending(texts(old(names)@)),
    ensures
        strictly_ascending(texts(final(names)@)),
        r.0 < final(names)@.len(),
        final(names)@[r.0 as int]@ == name@,
        forall|t: Seq<char>|
            texts(final(names)@).contains(t) <==> texts(old(names)@).contains(t) || t == name@,
        r.1 <==> !texts(old(names)@).contains(name@),
        !r.1 ==> final(names)@ == old(names)@,
        r.1 ==> texts(final(names)@) == texts(old(names)@).insert(r.0 as int, name@),
        r.1 ==> final(names)@.len() == old(names)@.len() + 1,
{
    let (at, found) = position(names, name);
    if found {
        assert(texts(names@)[at as int] == name@);
        return (at, false);
    }
    let ghost before = texts(names@);
    names.insert(at, name.to_owned());
    proof {
        let after = texts(names@);
        assert(after =~= before.insert(at as int, name@));
        assert forall|i: int, j: int| 0 <= i < j < after.len() implies lex_lt(
            encode_utf8(#[trigger] after[i]),
            encode_utf8(#[trigger] after[j]),
        ) by {
            let key = encode_utf8(name@);
            if j == at {
                assert(after[i] == before[i]);
            } else if i == at {
                assert(after[j] == before[j - 1]);
                assert(!lex_lt(encode_utf8(before[j - 1]), key));
                lemma_lex_total(encode_utf8(before[j - 1]), key);
                if encode_utf8(before[j - 1]) == key {
                    lemma_same_bytes_same_text(before[j - 1], name@);
                    assert(before.contains(name@));
                }
            } else {
                let bi = if i < at { i } else { i - 1 };
                let bj = if j < at { j } else { j - 1 };
                assert(after[i] == before[bi]);
                assert(after[j] == before[bj]);
            }
        }
        assert forall|t: Seq<char>| after.contains(t) <==> before.contains(t) || t == name@ by {
            if after.contains(t) {
                let k = choose|k: int| 0 <= k < after.len() && after[k] == t;
                if k < at {
                    assert(before[k] == t);
                } else if k > at {
                    assert(before[k - 1] == t);
                }
            }
            if before.contains(t) {
                let k = choose|k: int| 0 <= k < before.len() && before[k] == t;
                if k < at {
                    assert(after[k] == t);
                } else {
                    assert(after[k + 1] == t);
                }
            }
            if t == name@ {
                assert(after[at as int] == t);
            }
        }
    }
    (at, true)
}

/// A name borrowed from a list, ordered by its bytes.
#[derive(Clone, Copy)]
pub struct NameRef<'a> {
    pub text: &'a str,
}

impl<'a> Sortable for NameRef<'a> {
    open spec fn le(self, other: Self) -> bool {
        !lex_lt(encode_utf8(other.text@), encode_utf8(self.text@))
    }

    fn le_exec(&self, other: &Self) -> (r: bool) {
        !bytes_lt(other.text.as_bytes(), self.text.as_bytes())
    }

    proof fn lemma_le_total(a: Self, b: Self) {
        lemma_lex_total(encode_utf8(a.text@), encode_utf8(b.text@));
    }

    proof fn lemma_le_transitive(a: Self, b: Self, c: Self) {
        let (x, y, z) = (encode_utf8(a.text@), encode_utf8(b.text@), encode_utf8(c.text@));
        lemma_lex_total(x, y);
        if lex_lt(z, x) && lex_lt(x, y) {
            lemma_lex_transitive(z, x, y);
        }
    }
}

/// The sorted names hold exactly the given names, each once.
pub open spec fn is_index_of(names: Seq<Seq<char>>, given: Seq<Seq<char>>) -> bool {
    &&& strictly_ascending(names)
    &&& forall|t: Seq<char>| names.contains(t) <==> given.contains(t)
}

/// Some of the first `n` borrowed names has the text.
spec fn among(refs: Seq<NameRef>, n: int, t: Seq<char>) -> bool {
    exists|m: int| 0 <= m < n && (#[trigger] refs[m]).text@ == t
}

/// Collect the different names of a list, in ascending order of their
/// bytes.
pub fn sorted_unique(given: &Vec<String>) -> (names: Vec<String>)
    ensures
        is_index_of(texts(names@), texts(given@)),
{
    let mut refs: Vec<NameRef> = Vec::new();
    let mut i: usize = 0;
    while i < given.len()
        invariant
            i <= given@.len(),
            refs@.len() == i,
            forall|k: int| 0 <= k < i ==> (#[trigger] refs@[k]).text@ == given@[k]@,
        decreases given@.len() - i,
    {
        refs.push(NameRef { text: given[i].as_str() });
        i = i + 1;
    }
    let sorted = merge_sort(&refs);
    proof {
        broadcast use vstd::seq_lib::group_to_multiset_ensures;

        assert forall|t: Seq<char>| among(sorted@, sorted@.len() as int, t) <==> texts(
            given@,
        ).contains(t) by {
            if among(sorted@, sorted@.len() as int, t) {
                let m = choose|m: int| 0 <= m < sorted@.len() && (#[trigger] sorted@[m]).text@ == t;
                assert(sorted@.contains(sorted@[m]));
                assert(sorted@.to_multiset().count(sorted@[m]) > 0);
                assert(refs@.to_multiset().count(sorted@[m]) > 0);
                assert(refs@.contains(sorted@[m]));
                let k = choose|k: int| 0 <= k < refs@.len() && refs@[k] == sorted@[m];
                assert(texts(given@)[k] == t);
            }
            if texts(given@).contains(t) {
                let k = choose|k: int| 0 <= k < given@.len() && texts(given@)[k] == t;
                assert(refs@.contains(refs@[k]));
                assert(refs@.to_multiset().count(refs@[k]) > 0);
                assert(sorted@.to_multiset().count(refs@[k]) > 0);
                assert(sorted@.contains(refs@[k]));
                let m = choose|m: int| 0 <= m < sorted@.len() && sorted@[m] == refs@[k];
                assert(sorted@[m].text@ == t);
            }
        }
    }
    let mut names: Vec<String> = Vec::new();
    let mut k: usize = 0;
    while k < sorted.len()
        invariant
            k <= sorted@.len(),
            ascending(sorted@),
            strictly_ascending(texts(names@)),
            forall|t: Seq<char>| texts(names@).contains(t) <==> among(sorted@, k as int, t),
            k > 0 ==> names@.len() > 0 && names@[names@.len() - 1]@ == sorted@[k - 1].text@,
            k == 0 ==> names@.len() == 0,
        decreases sorted@.len() - k,
    {
        let next = sorted[k];
        let ghost before = texts(names@);
        let ghost key = encode_utf8(next.text@);
        let fresh = names.len() == 0 || bytes_lt(
            names[names.len() - 1].as_str().as_bytes(),
            next.text.as_bytes(),
        );
        if fresh {
            names.push(next.text.to_owned());
            proof {
                let after = texts(names@);
                assert(after =~= before.push(next.text@));
                assert forall|i: int, j: int| 0 <= i < j < after.len() implies lex_lt(
                    encode_utf8(#[trigger] after[i]),
                    encode_utf8(#[trigger] after[j]),
                ) by {
                    if j == before.len() {
                        let last = before.len() - 1;
                        if i < last {
                            assert(lex_lt(encode_utf8(before[i]), encode_utf8(before[last])));
                            lemma_lex_transitive(
                                encode_utf8(before[i]),
                                encode_utf8(before[last]),
                                key,
                            );
                        }
                    } else {
                        assert(lex_lt(encode_utf8(before[i]), encode_utf8(before[j])));
                    }
                }
                assert forall|t: Seq<char>| after.contains(t) <==> among(sorted@, k + 1, t) by {
                    if after.contains(t) {
                        let m = choose|m: int| 0 <= m < after.len() && after[m] == t;
                        if m < before.len() {
                            assert(before[m] == t);
                            assert(before.contains(t));
                            let w = choose|w: int|
                                0 <= w < k && (#[trigger] sorted@[w]).text@ == t;
                            assert(0 <= w < k + 1 && sorted@[w].text@ == t);
                        } else {
                            assert(sorted@[k as int].text@ == t);
                        }
                    }
                    if among(sorted@, k + 1, t) {
                        let w = choose|w: int|
                            0 <= w < k + 1 && (#[trigger] sorted@[w]).text@ == t;
                        if w < k {
                            assert(among(sorted@, k as int, t));
                            let m = choose|m: int| 0 <= m < before.len() && before[m] == t;
                            assert(after[m] == t);
                        } else {
                            assert(after[before.len() as int] == t);
                        }
                    }
                }
            }
        } else {
            proof {
                let last = before.len() - 1;
                assert(sorted@[k - 1].le(sorted@[k as int]));
                lemma_lex_total(encode_utf8(before[last]), key);
                lemma_same_bytes_same_text(before[last], next.text@);
                assert forall|t: Seq<char>| before.contains(t) <==> among(sorted@, k + 1, t) by {
                    if before.contains(t) {
                        let w = choose|w: int|
                            0 <= w < k && (#[trigger] sorted@[w]).text@ == t;
                        assert(0 <= w < k + 1 && sorted@[w].text@ == t);
                    }
                    if among(sorted@, k + 1, t) {
                        let w = choose|w: int|
                            0 <= w < k + 1 && (#[trigger] sorted@[w]).text@ == t;
                        if w < k {
                            assert(among(sorted@, k as int, t));
                        } else {
                            assert(before[last] == t);
                        }
                    }
                }
            }
        }
        k = k + 1;
    }
    names
}

} // verus!
