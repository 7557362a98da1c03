//! Sets of operation names, held as lists in ascending order.
//!
//! Names are ordered as strings are: by their bytes, an earlier end first.

use vstd::prelude::*;
use vstd::utf8::{encode_utf8, encode_utf8_decode_utf8};

verus! {

/// The names of a list of strings, each as its sequence of characters.
pub open spec fn texts(v: Seq<String>) -> Seq<Seq<char>> {
    Seq::new(v.len(), |i: int| v[i]@)
}

/// `a` and `b` agree before place `k`, where `a` ends or holds the smaller
/// byte.
pub open spec fn parts_at(a: Seq<u8>, b: Seq<u8>, k: int) -> bool {
    &&& 0 <= k <= a.len()
    &&& k < b.len()
    &&& forall|j: int| 0 <= j < k ==> a[j] == b[j]
    &&& k < a.len() ==> a[k] < b[k]
}

/// The name `a` stands before the name `b`.
pub open spec fn precedes(a: Seq<char>, b: Seq<char>) -> bool {
    exists|k: int| parts_at(encode_utf8(a), encode_utf8(b), k)
}

/// Each name of the list stands before all that follow it.
pub open spec fn ascending(s: Seq<Seq<char>>) -> bool {
    forall|i: int, j: int| 0 <= i < j < s.len() ==> precedes(#[trigger] s[i], #[trigger] s[j])
}

/// `list` holds the names of `names`, each once, in ascending order.
pub open spec fn lists(list: Seq<Seq<char>>, names: Seq<Seq<char>>) -> bool {
    ascending(list) && list.to_set() == names.to_set()
}

/// No name stands before itself.
pub proof fn lemma_precedes_irreflexive(a: Seq<char>)
    ensures
        !precedes(a, a),
{
}

/// The order of names is transitive.
pub proof fn lemma_precedes_transitive(a: Seq<char>, b: Seq<char>, c: Seq<char>)
    requires
        precedes(a, b),
        precedes(b, c),
    ensures
        precedes(a, c),
{
    let x = encode_utf8(a);
    let y = encode_utf8(b);
    let z = encode_utf8(c);
    let k1 = choose|k: int| parts_at(x, y, k);
    let k2 = choose|k: int| parts_at(y, z, k);
    if k1 <= k2 {
        assert(parts_at(x, z, k1));
    } else {
        assert(parts_at(x, z, k2));
    }
}

/// An ascending list holds no name twice.
pub proof fn lemma_ascending_distinct(s: Seq<Seq<char>>)
    requires
        ascending(s),
    ensures
        s.no_duplicates(),
{
    assert forall|i: int, j: int| 0 <= i < s.len() && 0 <= j < s.len() && i != j implies s[i]
        != s[j] by {
        lemma_precedes_irreflexive(s[i]);
        if i < j {
            assert(precedes(s[i], s[j]));
        } else {
            assert(precedes(s[j], s[i]));
        }
    }
}

/// A name put into an ascending list at its place leaves the list
/// ascending, and adds the name to the set.
pub proof fn lemma_insert_ascending(s: Seq<Seq<char>>, i: int, n: Seq<char>)
    requires
        ascending(s),
        0 <= i <= s.len(),
        forall|j: int| 0 <= j < i ==> precedes(#[trigger] s[j], n),
        i < s.len() ==> precedes(n, s[i]),
    ensures
        ascending(s.insert(i, n)),
        s.insert(i, n).to_set() =~= s.to_set().insert(n),
{
    let t = s.insert(i, n);
    assert forall|p: int, q: int| 0 <= p < q < t.len() implies precedes(
        #[trigger] t[p],
        #[trigger] t[q],
    ) by {
        if q < i {
            assert(precedes(s[p], s[q]));
        } else if q == i {
            assert(precedes(s[p], n));
        } else if p < i {
            assert(precedes(s[p], s[q - 1]));
        } else if p == i {
            if q - 1 > i {
                assert(precedes(s[i], s[q - 1]));
                lemma_precedes_transitive(n, s[i], s[q - 1]);
            }
        } else {
            assert(precedes(s[p - 1], s[q - 1]));
        }
    }
    assert forall|x: Seq<char>| t.to_set().contains(x) <==> s.to_set().insert(n).contains(x) by {
        if t.contains(x) {
            let k = choose|k: int| 0 <= k < t.len() && t[k] == x;
            if k < i {
                assert(s[k] == x);
            } else if k > i {
                assert(s[k - 1] == x);
            }
        }
        if s.contains(x) {
            let j = choose|j: int| 0 <= j < s.len() && s[j] == x;
            if j < i {
                assert(t[j] == x);
            } else {
                assert(t[j + 1] == x);
            }
        }
        if x == n {
            assert(t[i] == x);
        }
    }
}

/// A name whose place in an ascending list holds another name is not in the
/// list.
pub proof fn lemma_absent(s: Seq<Seq<char>>, i: int, n: Seq<char>)
    requires
        ascending(s),
        0 <= i <= s.len(),
        forall|j: int| 0 <= j < i ==> precedes(#[trigger] s[j], n),
        i < s.len() ==> precedes(n, s[i]),
    ensures
        !s.contains(n),
{
    lemma_precedes_irreflexive(n);
    assert forall|j: int| 0 <= j < s.len() implies s[j] != n by {
        if j < i {
            assert(precedes(s[j], n));
        } else if j > i {
            assert(precedes(s[i], s[j]));
            lemma_precedes_transitive(n, s[i], s[j]);
        }
    }
}

/// A list with one more name at its end holds one more name.
pub proof fn lemma_push_to_set(s: Seq<Seq<char>>, n: Seq<char>)
    ensures
        s.push(n).to_set() =~= s.to_set().insert(n),
{
    let t = s.push(n);
    assert forall|x: Seq<char>| t.to_set().contains(x) <==> s.to_set().insert(n).contains(x) by {
        if t.contains(x) {
            let k = choose|k: int| 0 <= k < t.len() && t[k] == x;
            if k < s.len() {
                assert(s[k] == x);
            }
        }
        if s.contains(x) {
            let j = choose|j: int| 0 <= j < s.len() && s[j] == x;
            assert(t[j] == x);
        }
        if x == n {
            assert(t[s.len() as int] == x);
        }
    }
}

/// Two ascending lists of the same names are the same list.
pub proof fn lemma_ascending_unique(a: Seq<Seq<char>>, b: Seq<Seq<char>>)
    requires
        ascending(a),
        ascending(b),
        a.to_set() == b.to_set(),
    ensures
        a == b,
    decreases a.len(),
{
    if a.len() == 0 {
        if b.len() > 0 {
            assert(b.to_set().contains(b[0]));
            assert(a.contains(b[0]));
        }
        assert(a =~= b);
    } else if b.len() == 0 {
        assert(a.to_set().contains(a[0]));
        assert(b.contains(a[0]));
    } else {
        let x = a.last();
        let y = b.last();
        assert(a.to_set().contains(x));
        assert(b.contains(x));
        assert(b.to_set().contains(y));
        assert(a.contains(y));
        let i = choose|i: int| 0 <= i < b.len() && b[i] == x;
        let j = choose|j: int| 0 <= j < a.len() && a[j] == y;
        lemma_precedes_irreflexive(x);
        if x != y {
            assert(precedes(b[i], b[b.len() - 1]));
            assert(precedes(a[j], a[a.len() - 1]));
            lemma_precedes_transitive(x, y, x);
        }
        let p = a.drop_last();
        let q = b.drop_last();
        lemma_ascending_distinct(a);
        lemma_ascending_distinct(b);
        assert forall|n: Seq<char>| p.to_set().contains(n) <==> q.to_set().contains(n) by {
            if p.contains(n) {
                let k = choose|k: int| 0 <= k < p.len() && p[k] == n;
                assert(a[k] == n);
                assert(a.to_set().contains(n));
                assert(b.contains(n));
                let m = choose|m: int| 0 <= m < b.len() && b[m] == n;
                assert(q[m] == n);
            }
            if q.contains(n) {
                let k = choose|k: int| 0 <= k < q.len() && q[k] == n;
                assert(b[k] == n);
                assert(b.to_set().contains(n));
                assert(a.contains(n));
                let m = choose|m: int| 0 <= m < a.len() && a[m] == n;
                assert(p[m] == n);
            }
        }
        assert(p.to_set() =~= q.to_set());
        assert forall|u: int, v: int| 0 <= u < v < p.len() implies precedes(
            #[trigger] p[u],
            #[trigger] p[v],
        ) by {
            assert(precedes(a[u], a[v]));
        }
        assert forall|u: int, v: int| 0 <= u < v < q.len() implies precedes(
            #[trigger] q[u],
            #[trigger] q[v],
        ) by {
            assert(precedes(b[u], b[v]));
        }
        lemma_ascending_unique(p, q);
        assert(a =~= p.push(x));
        assert(b =~= q.push(y));
    }
}

/// How one name stands to another.
#[derive(Clone, Copy, Debug, PartialEq, Eq, Structural)]
pub enum NameOrder {
    Before,
    Same,
    After,
}

/// How `a` stands to `b`: byte by byte, an earlier end first.
pub fn compare_names(a: &String, b: &String) -> (order: NameOrder)
    ensures
        match order {
            NameOrder::Before => precedes(a@, b@),
            NameOrder::Same => a@ == b@,
            NameOrder::After => precedes(b@, a@),
        },
{
    let x = a.as_str().as_bytes();
    let y = b.as_str().as_bytes();
    let mut i: usize = 0;
    while i < x.len() && i < y.len()
        invariant
            i <= x@.len(),
            i <= y@.len(),
            x@ == encode_utf8(a@),
            y@ == encode_utf8(b@),
            forall|j: int| 0 <= j < i ==> x@[j] == y@[j],
        decreases x@.len() - i,
    {
        if x[i] < y[i] {
            assert(parts_at(x@, y@, i as int));
            return NameOrder::Before;
        }
        if x[i] > y[i] {
            assert(parts_at(y@, x@, i as int));
            return NameOrder::After;
        }
        i += 1;
    }
    if x.len() == y.len() {
        proof {
            assert(x@ =~= y@);
            encode_utf8_decode_utf8(a@);
            encode_utf8_decode_utf8(b@);
        }
        NameOrder::Same
    } else if i == x.len() {
        assert(parts_at(x@, y@, i as int));
        NameOrder::Before
    } else {
        assert(parts_at(y@, x@, i as int));
        NameOrder::After
    }
}

/// Where `name` belongs among `names`, and whether it is there: every name
/// in front of the place stands before `name`, and the name at the place is
/// `name` itself or stands after it.
pub fn position(names: &Vec<String>, name: &String) -> (at: (usize, bool))
    ensures
        at.0 <= names@.len(),
        forall|j: int| 0 <= j < at.0 ==> precedes(#[trigger] texts(names@)[j], name@),
        at.1 ==> at.0 < names@.len() && texts(names@)[at.0 as int] == name@,
        !at.1 && at.0 < names@.len() ==> precedes(name@, texts(names@)[at.0 as int]),
{
    let mut i: usize = 0;
    while i < names.len()
        invariant
            i <= names@.len(),
            forall|j: int| 0 <= j < i ==> precedes(#[trigger] texts(names@)[j], name@),
        decreases names@.len() - i,
    {
        match compare_names(&names[i], name) {
            NameOrder::Before => {},
            NameOrder::Same => {
                return (i, true);
            },
            NameOrder::After => {
                return (i, false);
            },
        }
        i += 1;
    }
    (i, false)
}

/// Whether `name` is one of `names`.
pub fn contains_name(names: &Vec<String>, name: &String) -> (found: bool)
    ensures
        found == texts(names@).contains(name@),
{
    let mut i: usize = 0;
    while i < names.len()
        invariant
            i <= names.len(),
            forall|j: int| 0 <= j < i ==> texts(names@)[j] != name@,
        decreases names.len() - i,
    {
        if names[i] == *name {
            assert(texts(names@)[i as int] == name@);
            return true;
        }
        i += 1;
    }
    false
}

/// Puts `name` at its place into an ascending list, unless it is there.
pub fn insert_name(names: &mut Vec<String>, name: String)
    requires
        ascending(texts(old(names)@)),
    ensures
        ascending(texts(final(names)@)),
        texts(final(names)@).to_set() == texts(old(names)@).to_set().insert(name@),
{
    let ghost before = texts(names@);
    let (at, found) = position(names, &name);
    if found {
        assert(before.to_set().contains(before[at as int]));
        assert(before.to_set().insert(name@) =~= before.to_set());
    } else {
        names.insert(at, name);
        proof {
            assert(texts(names@) =~= before.insert(at as int, name@));
            lemma_insert_ascending(before, at as int, name@);
        }
    }
}

/// The names of `names`, each once, in ascending order.
pub fn sorted_names(names: &Vec<String>) -> (out: Vec<String>)
    ensures
        lists(texts(out@), texts(names@)),
{
    let mut out: Vec<String> = Vec::new();
    let mut i: usize = 0;
    assert(texts(names@).take(0).to_set() =~= texts(out@).to_set());
    while i < names.len()
        invariant
            i <= names.len(),
            lists(texts(out@), texts(names@).take(i as int)),
        decreases names.len() - i,
    {
        proof {
            assert(texts(names@).take(i + 1) =~= texts(names@).take(i as int).push(
                names@[i as int]@,
            ));
            lemma_push_to_set(texts(names@).take(i as int), names@[i as int]@);
        }
        insert_name(&mut out, names[i].clone());
        i += 1;
    }
    assert(texts(names@).take(names@.len() as int) =~= texts(names@));
    out
}

/// Whether every name of `inner` is one of `outer`.
pub fn covers(outer: &Vec<String>, inner: &Vec<String>) -> (all: bool)
    ensures
        all == texts(inner@).to_set().subset_of(texts(outer@).to_set()),
{
    let mut i: usize = 0;
    while i < inner.len()
        invariant
            i <= inner.len(),
            forall|j: int| 0 <= j < i ==> texts(outer@).contains(#[trigger] texts(inner@)[j]),
        decreases inner.len() - i,
    {
        if !contains_name(outer, &inner[i]) {
            assert(texts(inner@)[i as int] == inner@[i as int]@);
            assert(texts(inner@).to_set().contains(inner@[i as int]@));
            return false;
        }
        i += 1;
    }
    proof {
        assert forall|n: Seq<char>| texts(inner@).to_set().contains(n) implies texts(
            outer@,
        ).to_set().contains(n) by {
            let j = choose|j: int| 0 <= j < texts(inner@).len() && texts(inner@)[j] == n;
            assert(texts(outer@).contains(texts(inner@)[j]));
        }
    }
    true
}

} // verus!
