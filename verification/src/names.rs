//! Lists of column names in the order of their bytes.
use vstd::prelude::*;
use vstd::utf8::{encode_utf8, encode_utf8_decode_utf8};

verus! {

/// `a` stands before `b` in the order of byte strings: the first difference decides, and a prefix
/// stands before what it is a prefix of.
pub open spec fn bytes_before(a: Seq<u8>, b: Seq<u8>) -> bool
    decreases a.len(),
{
    if b.len() == 0 {
        false
    } else if a.len() == 0 {
        true
    } else if a[0] != b[0] {
        a[0] < b[0]
    } else {
        bytes_before(a.skip(1), b.skip(1))
    }
}

/// `a` stands before `b` in the order of strings, which is that of their bytes.
pub open spec fn name_before(a: Seq<char>, b: Seq<char>) -> bool {
    bytes_before(encode_utf8(a), encode_utf8(b))
}

/// The names stand in increasing order, so that none occurs twice.
pub open spec fn increasing(names: Seq<Seq<char>>) -> bool {
    forall|i: int, j: int|
        0 <= i < j < names.len() ==> name_before(#[trigger] names[i], #[trigger] names[j])
}

/// The names that a list of strings holds.
pub open spec fn names_of(list: Seq<String>) -> Seq<Seq<char>> {
    list.map_values(|s: String| s@)
}

proof fn lemma_bytes_irreflexive(a: Seq<u8>)
    ensures
        !bytes_before(a, a),
    decreases a.len(),
{
    if a.len() > 0 {
        lemma_bytes_irreflexive(a.skip(1));
    }
}

proof fn lemma_bytes_transitive(a: Seq<u8>, b: Seq<u8>, c: Seq<u8>)
    requires
        bytes_before(a, b),
        bytes_before(b, c),
    ensures
        bytes_before(a, c),
    decreases a.len(),
{
    if a.len() > 0 && a[0] == b[0] && b[0] == c[0] {
        lemma_bytes_transitive(a.skip(1), b.skip(1), c.skip(1));
    }
}

proof fn lemma_bytes_total(a: Seq<u8>, b: Seq<u8>)
    ensures
        bytes_before(a, b) || a == b || bytes_before(b, a),
    decreases a.len(),
{
    if a.len() > 0 && b.len() > 0 && a[0] == b[0] {
        lemma_bytes_total(a.skip(1), b.skip(1));
        if a.skip(1) == b.skip(1) {
            assert(a =~= seq![a[0]] + a.skip(1));
            assert(b =~= seq![b[0]] + b.skip(1));
        }
    } else if a.len() == 0 && b.len() == 0 {
        assert(a =~= b);
    }
}

/// The order of names is a strict total order.
pub proof fn name_order_is_strict_and_total(a: Seq<char>, b: Seq<char>, c: Seq<char>)
    ensures
        !name_before(a, a),
        name_before(a, b) && name_before(b, c) ==> name_before(a, c),
        name_before(a, b) || a == b || name_before(b, a),
{
    lemma_bytes_irreflexive(encode_utf8(a));
    if name_before(a, b) && name_before(b, c) {
        lemma_bytes_transitive(encode_utf8(a), encode_utf8(b), encode_utf8(c));
    }
    lemma_bytes_total(encode_utf8(a), encode_utf8(b));
    encode_utf8_decode_utf8(a);
    encode_utf8_decode_utf8(b);
}

/// Two increasing lists of the same names are the same list.
pub proof fn lemma_same_names(a: Seq<Seq<char>>, b: Seq<Seq<char>>)
    requires
        increasing(a),
        increasing(b),
        forall|n: Seq<char>| #[trigger] a.contains(n) <==> b.contains(n),
    ensures
        a == b,
    decreases a.len(),
{
    if a.len() == 0 {
        if b.len() > 0 {
            assert(b.contains(b[0]) && a.contains(b[0]));
        }
        assert(a =~= b);
    } else {
        assert(a.contains(a.last()));
        let j = choose|j: int| 0 <= j < b.len() && b[j] == a.last();
        assert(b.contains(b.last()) && a.contains(b.last()));
        let k = choose|k: int| 0 <= k < a.len() && a[k] == b.last();
        name_order_is_strict_and_total(a.last(), b.last(), a.last());
        assert(a.last() == b.last());
        let a1 = a.drop_last();
        let b1 = b.drop_last();
        assert forall|n: Seq<char>| #[trigger] a1.contains(n) implies b1.contains(n) by {
            let i = choose|i: int| 0 <= i < a1.len() && a1[i] == n;
            assert(a[i] == n);
            name_order_is_strict_and_total(n, n, n);
            assert(a.contains(n));
            let m = choose|m: int| 0 <= m < b.len() && b[m] == n;
            assert(b1[m] == n);
        }
        assert forall|n: Seq<char>| #[trigger] b1.contains(n) implies a1.contains(n) by {
            let i = choose|i: int| 0 <= i < b1.len() && b1[i] == n;
            assert(b[i] == n);
            name_order_is_strict_and_total(n, n, n);
            assert(b.contains(n) && a.contains(n));
            let m = choose|m: int| 0 <= m < a.len() && a[m] == n;
            assert(a1[m] == n);
        }
        lemma_same_names(a1, b1);
        assert(a =~= a1.push(a.last()));
        assert(b =~= b1.push(b.last()));
    }
}

/// `names` with `name` put into its place.
pub proof fn with_name(names: Seq<Seq<char>>, name: Seq<char>) -> (r: Seq<Seq<char>>)
    requires
        increasing(names),
    ensures
        increasing(r),
        forall|n: Seq<char>| #[trigger] r.contains(n) <==> names.contains(n) || n == name,
    decreases names.len(),
{
    if names.len() == 0 {
        assert(seq![name][0] == name);
        seq![name]
    } else if names.last() == name {
        assert(names.contains(name));
        names
    } else {
        let last = names.last();
        let front = names.drop_last();
        name_order_is_strict_and_total(last, name, name);
        let start = if name_before(last, name) {
            names
        } else {
            with_name(front, name)
        };
        let end = if name_before(last, name) {
            name
        } else {
            last
        };
        let r = start.push(end);
        assert forall|i: int| 0 <= i < start.len() implies name_before(#[trigger] start[i], end) by {
            assert(start.contains(start[i]));
            if name_before(last, name) {
                name_order_is_strict_and_total(start[i], last, name);
            } else if start[i] != name {
                let j = choose|j: int| 0 <= j < front.len() && front[j] == start[i];
                assert(names[j] == start[i]);
            }
        }
        assert forall|n: Seq<char>| #[trigger] r.contains(n) <==> names.contains(n) || n == name by {
            lemma_push_contains(start, end, n);
            lemma_push_contains(front, last, n);
            assert(front.push(last) =~= names);
            assert(start.contains(n) <==> if name_before(last, name) {
                names.contains(n)
            } else {
                front.contains(n) || n == name
            });
        }
        r
    }
}

proof fn lemma_push_contains(names: Seq<Seq<char>>, name: Seq<char>, n: Seq<char>)
    ensures
        names.push(name).contains(n) <==> names.contains(n) || n == name,
{
    let r = names.push(name);
    if names.contains(n) {
        let j = choose|j: int| 0 <= j < names.len() && names[j] == n;
        assert(r[j] == n);
    }
    if n == name {
        assert(r[names.len() as int] == n);
    }
    if r.contains(n) {
        let j = choose|j: int| 0 <= j < r.len() && r[j] == n;
        if j < names.len() {
            assert(names[j] == n);
        }
    }
}

/// The names of two lists, in one.
pub proof fn with_names(a: Seq<Seq<char>>, b: Seq<Seq<char>>) -> (r: Seq<Seq<char>>)
    requires
        increasing(a),
    ensures
        increasing(r),
        forall|n: Seq<char>| #[trigger] r.contains(n) <==> a.contains(n) || b.contains(n),
    decreases b.len(),
{
    if b.len() == 0 {
        a
    } else {
        let rest = with_names(a, b.drop_last());
        let r = with_name(rest, b.last());
        assert forall|n: Seq<char>| #[trigger] r.contains(n) <==> a.contains(n) || b.contains(n) by {
            lemma_push_contains(b.drop_last(), b.last(), n);
            assert(b.drop_last().push(b.last()) =~= b);
            assert(rest.contains(n) <==> a.contains(n) || b.drop_last().contains(n));
        }
        r
    }
}

/// Whether `a` stands before `b`.
fn is_before(a: &str, b: &str) -> (r: bool)
    ensures
        r == name_before(a@, b@),
{
    let x = a.as_bytes();
    let y = b.as_bytes();
    let mut i: usize = 0;
    assert(x@.skip(0) =~= x@);
    assert(y@.skip(0) =~= y@);
    while i < x.len() && i < y.len() && x[i] == y[i]
        invariant
            i <= x@.len(),
            i <= y@.len(),
            bytes_before(x@, y@) == bytes_before(x@.skip(i as int), y@.skip(i as int)),
        decreases x@.len() - i,
    {
        assert(x@.skip(i as int).skip(1) =~= x@.skip(i + 1));
        assert(y@.skip(i as int).skip(1) =~= y@.skip(i + 1));
        i = i + 1;
    }
    if i == y.len() {
        false
    } else if i == x.len() {
        true
    } else {
        x[i] < y[i]
    }
}

/// Adds a name to an increasing list, unless it is there already.
pub(crate) fn insert_name(names: &mut Vec<String>, name: &String)
    requires
        increasing(names_of(old(names)@)),
    ensures
        increasing(names_of(final(names)@)),
        forall|n: Seq<char>| #[trigger]
            names_of(final(names)@).contains(n) <==> names_of(old(names)@).contains(n) || n == name@,
{
    let ghost before = names_of(names@);
    let mut i: usize = 0;
    while i < names.len() && is_before(names[i].as_str(), name.as_str())
        invariant
            i <= names@.len(),
            names@ == old(names)@,
            before == names_of(names@),
            forall|j: int| 0 <= j < i ==> name_before(#[trigger] before[j], name@),
        decreases names@.len() - i,
    {
        i = i + 1;
    }
    if i < names.len() && names[i] == *name {
        assert(before[i as int] == name@);
        return ;
    }
    proof {
        assert forall|j: int| i <= j < before.len() implies name_before(name@, #[trigger] before[j]) by {
            name_order_is_strict_and_total(before[i as int], name@, name@);
            name_order_is_strict_and_total(name@, before[i as int], before[j]);
        }
    }
    names.insert(i, name.clone());
    proof {
        let after = names_of(names@);
        assert(after =~= before.insert(i as int, name@));
        assert forall|n: Seq<char>| #[trigger] after.contains(n) <==> before.contains(n) || n == name@ by {
            if before.contains(n) {
                let j = choose|j: int| 0 <= j < before.len() && before[j] == n;
                assert(after[if j < i { j } else { j + 1 }] == n);
            }
            if n == name@ {
                assert(after[i as int] == n);
            }
            if after.contains(n) {
                let j = choose|j: int| 0 <= j < after.len() && after[j] == n;
                if j != i {
                    assert(before[if j < i { j } else { j - 1 }] == n);
                }
            }
        }
    }
}

/// A name stands before another if and only if, up to some place, their bytes are the same, and
/// there the first ends and the other does not, or has the smaller byte.
pub proof fn names_are_ordered_by_their_first_difference(a: Seq<char>, b: Seq<char>)
    ensures
        name_before(a, b) <==> exists|k: int|
            {
                &&& 0 <= k <= encode_utf8(a).len()
                &&& k < encode_utf8(b).len()
                &&& encode_utf8(a).take(k) == #[trigger] encode_utf8(b).take(k)
                &&& k == encode_utf8(a).len() || encode_utf8(a)[k] < encode_utf8(b)[k]
            },
{
    lemma_first_difference(encode_utf8(a), encode_utf8(b));
}

proof fn lemma_first_difference(x: Seq<u8>, y: Seq<u8>)
    ensures
        bytes_before(x, y) <==> exists|k: int|
            {
                &&& 0 <= k <= x.len()
                &&& k < y.len()
                &&& x.take(k) == #[trigger] y.take(k)
                &&& k == x.len() || x[k] < y[k]
            },
    decreases x.len(),
{
    if y.len() > 0 && x.len() == 0 {
        assert(x.take(0) =~= y.take(0));
    } else if y.len() > 0 && x[0] != y[0] {
        assert(x.take(0) =~= y.take(0));
        assert forall|k: int|
            0 <= k <= x.len() && k < y.len() && x.take(k) == #[trigger] y.take(k) implies k == 0 by {
            if k > 0 {
                assert(x.take(k)[0] == y.take(k)[0]);
            }
        }
    } else if y.len() > 0 {
        let x1 = x.skip(1);
        let y1 = y.skip(1);
        lemma_first_difference(x1, y1);
        if bytes_before(x, y) {
            let k = choose|k: int|
                {
                    &&& 0 <= k <= x1.len()
                    &&& k < y1.len()
                    &&& x1.take(k) == #[trigger] y1.take(k)
                    &&& k == x1.len() || x1[k] < y1[k]
                };
            assert(x.take(k + 1) =~= seq![x[0]] + x1.take(k));
            assert(y.take(k + 1) =~= seq![y[0]] + y1.take(k));
        }
        if exists|k: int|
            {
                &&& 0 <= k <= x.len()
                &&& k < y.len()
                &&& x.take(k) == #[trigger] y.take(k)
                &&& k == x.len() || x[k] < y[k]
            } {
            let k = choose|k: int|
                {
                    &&& 0 <= k <= x.len()
                    &&& k < y.len()
                    &&& x.take(k) == #[trigger] y.take(k)
                    &&& k == x.len() || x[k] < y[k]
                };
            assert(x1.take(k - 1) =~= x.take(k).skip(1));
            assert(y1.take(k - 1) =~= y.take(k).skip(1));
        }
    }
}

/// In an increasing list every name stands before all that follow it, so that none occurs twice.
pub proof fn increasing_names_follow_each_other(names: Seq<Seq<char>>)
    ensures
        increasing(names) <==> forall|i: int, j: int|
            0 <= i < j < names.len() ==> name_before(#[trigger] names[i], #[trigger] names[j]),
        increasing(names) ==> forall|i: int, j: int|
            0 <= i < j < names.len() ==> #[trigger] names[i] != #[trigger] names[j],
{
    if increasing(names) {
        assert forall|i: int, j: int| 0 <= i < j < names.len() implies #[trigger] names[i]
            != #[trigger] names[j] by {
            name_order_is_strict_and_total(names[i], names[j], names[i]);
        }
    }
}

/// The names that a list of strings holds are those of its strings, in order.
pub proof fn names_are_those_of_the_strings(list: Seq<String>)
    ensures
        names_of(list).len() == list.len(),
        forall|i: int| 0 <= i < list.len() ==> #[trigger] names_of(list)[i] == list[i]@,
{
}

} // verus!
