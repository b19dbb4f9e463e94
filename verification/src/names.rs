//! File names and paths as byte strings: order, prefixes, joining.

use crate::text::utf8_text;
use vstd::prelude::*;
use vstd::relations::{
    antisymmetric, reflexive, sorted_by, strongly_connected, total_ordering, transitive,
};
use vstd::utf8::{length_of_first_scalar, pop_first_scalar, valid_first_scalar, valid_utf8};

verus! {

/// The contents of a list of names.
pub open spec fn names_of(v: Seq<Vec<u8>>) -> Seq<Seq<u8>> {
    v.map_values(|n: Vec<u8>| n@)
}

/// Whether `a` comes before `b`, or is `b`, in byte-by-byte order.
pub open spec fn name_le(a: Seq<u8>, b: Seq<u8>) -> bool
    decreases a.len(),
{
    if a.len() == 0 {
        true
    } else if b.len() == 0 {
        false
    } else {
        ||| a.first() < b.first()
        ||| a.first() == b.first() && name_le(a.drop_first(), b.drop_first())
    }
}

/// The order of names.
pub open spec fn name_order() -> spec_fn(Seq<u8>, Seq<u8>) -> bool {
    |a: Seq<u8>, b: Seq<u8>| name_le(a, b)
}

/// The names in order.
pub open spec fn sorted_names(s: Seq<Seq<u8>>) -> Seq<Seq<u8>> {
    s.sort_by(name_order())
}

/// The path of the entry `name` in the directory `dir`.
pub open spec fn path_of(dir: Seq<u8>, name: Seq<u8>) -> Seq<u8> {
    dir + seq![0x2f] + name
}

/// `s` with each occurrence of `from` replaced by `to`, from the left.
pub open spec fn replaced(s: Seq<u8>, from: Seq<u8>, to: Seq<u8>) -> Seq<u8>
    decreases s.len(),
{
    if from.len() == 0 || s.len() == 0 {
        s
    } else if from.is_prefix_of(s) {
        to + replaced(s.skip(from.len() as int), from, to)
    } else {
        seq![s.first()] + replaced(s.drop_first(), from, to)
    }
}

/// Whether a name is UTF-8 text that begins with `prefix` and ends with `suffix`.
pub open spec fn name_matches(name: Seq<u8>, prefix: Seq<u8>, suffix: Seq<u8>) -> bool {
    &&& valid_utf8(name)
    &&& prefix.is_prefix_of(name)
    &&& suffix.is_suffix_of(name)
}

pub(crate) proof fn lemma_name_le_reflexive(a: Seq<u8>)
    ensures
        name_le(a, a),
    decreases a.len(),
{
    if a.len() > 0 {
        lemma_name_le_reflexive(a.drop_first());
    }
}

pub(crate) proof fn lemma_name_le_antisymmetric(a: Seq<u8>, b: Seq<u8>)
    requires
        name_le(a, b),
        name_le(b, a),
    ensures
        a == b,
    decreases a.len(),
{
    if a.len() > 0 && b.len() > 0 {
        lemma_name_le_antisymmetric(a.drop_first(), b.drop_first());
        assert(a == seq![a.first()] + a.drop_first());
        assert(b == seq![b.first()] + b.drop_first());
    } else {
        assert(a == b);
    }
}

proof fn lemma_name_le_transitive(a: Seq<u8>, b: Seq<u8>, c: Seq<u8>)
    requires
        name_le(a, b),
        name_le(b, c),
    ensures
        name_le(a, c),
    decreases a.len(),
{
    if a.len() > 0 && b.len() > 0 && c.len() > 0 {
        if a.first() == b.first() && b.first() == c.first() {
            lemma_name_le_transitive(a.drop_first(), b.drop_first(), c.drop_first());
        }
    }
}

proof fn lemma_name_le_total(a: Seq<u8>, b: Seq<u8>)
    ensures
        name_le(a, b) || name_le(b, a),
    decreases a.len(),
{
    if a.len() > 0 && b.len() > 0 {
        lemma_name_le_total(a.drop_first(), b.drop_first());
    }
}

/// Names are totally ordered.
proof fn lemma_name_order_total()
    ensures
        total_ordering(name_order()),
{
    let le = name_order();
    assert(reflexive(le)) by {
        assert forall|x: Seq<u8>| #[trigger] le(x, x) by {
            lemma_name_le_reflexive(x);
        }
    }
    assert(antisymmetric(le)) by {
        assert forall|x: Seq<u8>, y: Seq<u8>| #[trigger] le(x, y) && #[trigger] le(y, x) implies x
            == y by {
            lemma_name_le_antisymmetric(x, y);
        }
    }
    assert(transitive(le)) by {
        assert forall|x: Seq<u8>, y: Seq<u8>, z: Seq<u8>| #[trigger]
            le(x, y) && #[trigger] le(y, z) implies le(x, z) by {
            lemma_name_le_transitive(x, y, z);
        }
    }
    assert(strongly_connected(le)) by {
        assert forall|x: Seq<u8>, y: Seq<u8>| #[trigger] le(x, y) || #[trigger] le(y, x) by {
            lemma_name_le_total(x, y);
        }
    }
}

/// Sorting keeps every name as often as it was there, and puts the names in
/// order.
pub proof fn law_sorted_names(s: Seq<Seq<u8>>)
    ensures
        sorted_names(s).to_multiset() == s.to_multiset(),
        forall|i: int, j: int|
            0 <= i < j < sorted_names(s).len() ==> #[trigger] name_le(
                sorted_names(s)[i],
                sorted_names(s)[j],
            ),
{
    lemma_name_order_total();
    s.lemma_sort_by_ensures(name_order());
    let t = sorted_names(s);
    assert forall|i: int, j: int| 0 <= i < j < t.len() implies #[trigger] name_le(t[i], t[j]) by {
        assert(name_order()(t[i], t[j]));
    }
}

/// Whether `a` comes before `b`, or is `b`.
fn in_order(a: &Vec<u8>, b: &Vec<u8>) -> (r: bool)
    ensures
        r == name_le(a@, b@),
{
    let mut i: usize = 0;
    assert(a@.skip(0) == a@);
    assert(b@.skip(0) == b@);
    while i < a.len()
        invariant
            i <= a@.len(),
            i <= b@.len(),
            name_le(a@, b@) == name_le(a@.skip(i as int), b@.skip(i as int)),
        decreases a@.len() - i,
    {
        if i >= b.len() {
            return false;
        }
        if a[i] < b[i] {
            return true;
        }
        if a[i] > b[i] {
            return false;
        }
        assert(a@.skip(i as int).drop_first() == a@.skip(i + 1));
        assert(b@.skip(i as int).drop_first() == b@.skip(i + 1));
        i += 1;
    }
    true
}

/// The names in order.
pub fn sort_names(names: Vec<Vec<u8>>) -> (r: Vec<Vec<u8>>)
    ensures
        names_of(r@) == sorted_names(names_of(names@)),
{
    broadcast use vstd::seq_lib::group_to_multiset_ensures;

    let ghost all = names_of(names@);
    let mut todo = names;
    let mut out: Vec<Vec<u8>> = Vec::new();
    proof {
        lemma_name_order_total();
        assert(names_of(out@).to_multiset() =~= vstd::multiset::Multiset::<Seq<u8>>::empty());
    }
    while todo.len() > 0
        invariant
            total_ordering(name_order()),
            sorted_by(names_of(out@), name_order()),
            names_of(todo@).to_multiset().add(names_of(out@).to_multiset()) == all.to_multiset(),
        decreases todo@.len(),
    {
        let ghost before = todo@;
        let name = todo.pop().unwrap();
        let mut at: usize = 0;
        while at < out.len() && in_order(&out[at], &name)
            invariant
                at <= out@.len(),
                forall|i: int| 0 <= i < at ==> name_le(#[trigger] names_of(out@)[i], name@),
            decreases out@.len() - at,
        {
            at += 1;
        }
        let ghost placed = names_of(out@);
        out.insert(at, name);
        proof {
            let now = names_of(out@);
            assert(now == placed.insert(at as int, name@));
            assert(names_of(before) == names_of(todo@).push(name@));
            vstd::seq_lib::to_multiset_build(names_of(todo@), name@);
            vstd::seq_lib::to_multiset_insert(placed, at as int, name@);
            assert(names_of(todo@).to_multiset().add(now.to_multiset()) =~= names_of(
                before,
            ).to_multiset().add(placed.to_multiset()));
            assert(sorted_by(now, name_order())) by {
                let le = name_order();
                if at < placed.len() {
                    assert(le(name@, placed[at as int])) by {
                        lemma_name_le_total(name@, placed[at as int]);
                    }
                }
                assert forall|i: int, j: int| 0 <= i < j < now.len() implies #[trigger] le(
                    now[i],
                    now[j],
                ) by {
                    if i < at && j == at {
                        assert(name_le(placed[i], name@));
                    } else if i == at {
                        assert(now[j] == placed[j - 1]);
                        if j - 1 > at {
                            assert(le(placed[at as int], placed[j - 1]));
                            lemma_name_le_transitive(name@, placed[at as int], placed[j - 1]);
                        }
                    } else {
                        let pi = if i < at { i } else { i - 1 };
                        let pj = if j < at { j } else { j - 1 };
                        assert(le(placed[pi], placed[pj]));
                    }
                }
            }
        }
    }
    proof {
        assert(names_of(todo@).to_multiset() =~= vstd::multiset::Multiset::<Seq<u8>>::empty());
        assert(names_of(out@).to_multiset() =~= all.to_multiset());
        all.lemma_sort_by_ensures(name_order());
        vstd::seq_lib::lemma_sorted_unique(names_of(out@), sorted_names(all), name_order());
    }
    out
}

/// A copy of `bytes`.
pub fn copy_of(bytes: &[u8]) -> (r: Vec<u8>)
    ensures
        r@ == bytes@,
{
    let mut r: Vec<u8> = Vec::new();
    let n: usize = bytes.len();
    for i in 0..n
        invariant
            n == bytes@.len(),
            r@ == bytes@.take(i as int),
    {
        r.push(bytes[i]);
    }
    r
}

/// Adds `bytes` to the end of `r`.
fn append(r: &mut Vec<u8>, bytes: &[u8])
    ensures
        final(r)@ == old(r)@ + bytes@,
{
    let n: usize = bytes.len();
    for i in 0..n
        invariant
            n == bytes@.len(),
            r@ == old(r)@ + bytes@.take(i as int),
    {
        r.push(bytes[i]);
    }
}

/// The path of the entry `name` in the directory `dir`.
pub fn join(dir: &[u8], name: &[u8]) -> (r: Vec<u8>)
    ensures
        r@ == path_of(dir@, name@),
{
    let mut r = copy_of(dir);
    r.push(0x2f);
    append(&mut r, name);
    r
}

/// Whether `part` stands in `s` at the index `at`.
fn stands_at(s: &[u8], part: &[u8], at: usize) -> (r: bool)
    requires
        at <= s@.len(),
    ensures
        r == part@.is_prefix_of(s@.skip(at as int)),
{
    let n: usize = part.len();
    let total: usize = s.len();
    if total - at < n {
        return false;
    }
    for i in 0..n
        invariant
            n == part@.len(),
            total == s@.len(),
            at + n <= total,
            forall|j: int| 0 <= j < i ==> s@[at + j] == part@[j],
    {
        if s[at + i] != part[i] {
            assert(s@.skip(at as int).subrange(0, n as int)[i as int] != part@[i as int]);
            return false;
        }
    }
    true
}

/// Whether `name` is UTF-8 text that begins with `prefix` and ends with `suffix`.
pub fn has_form(name: &[u8], prefix: &[u8], suffix: &[u8]) -> (r: bool)
    ensures
        r == name_matches(name@, prefix@, suffix@),
{
    if utf8_text(name).is_none() {
        return false;
    }
    assert(name@.skip(0) == name@);
    if !stands_at(name, prefix, 0) || name.len() < suffix.len() {
        return false;
    }
    let at: usize = name.len() - suffix.len();
    proof {
        let tail = name@.skip(at as int);
        assert(tail.subrange(0, tail.len() as int) == tail);
        assert(tail == name@.subrange(at as int, name@.len() as int));
    }
    stands_at(name, suffix, at)
}

/// `s` with each occurrence of `from` replaced by `to`, from the left.
pub fn replace(s: &[u8], from: &[u8], to: &[u8]) -> (r: Vec<u8>)
    ensures
        r@ == replaced(s@, from@, to@),
{
    if from.len() == 0 {
        return copy_of(s);
    }
    let mut r: Vec<u8> = Vec::new();
    let mut i: usize = 0;
    let n: usize = s.len();
    assert(s@.skip(0) == s@);
    while i < n
        invariant
            n == s@.len(),
            i <= n,
            from@.len() > 0,
            replaced(s@, from@, to@) == r@ + replaced(s@.skip(i as int), from@, to@),
        decreases n - i,
    {
        let ghost rest = s@.skip(i as int);
        let ghost done = r@;
        if stands_at(s, from, i) {
            append(&mut r, to);
            proof {
                assert(rest.skip(from@.len() as int) == s@.skip(i + from@.len()));
                assert(done + (to@ + replaced(s@.skip(i + from@.len()), from@, to@)) == done + to@
                    + replaced(s@.skip(i + from@.len()), from@, to@));
            }
            i += from.len();
        } else {
            r.push(s[i]);
            proof {
                assert(rest.drop_first() == s@.skip(i + 1));
                assert(done + (seq![rest.first()] + replaced(s@.skip(i + 1), from@, to@)) == r@
                    + replaced(s@.skip(i + 1), from@, to@));
            }
            i += 1;
        }
    }
    assert(r@ + s@.skip(n as int) == r@);
    r
}

/// Replacement changes the one occurrence at the end of a name, if the name
/// holds the first byte of `from` nowhere before.
pub proof fn law_replaced_at_end(stem: Seq<u8>, from: Seq<u8>, to: Seq<u8>)
    requires
        from.len() > 0,
        forall|i: int| 0 <= i < stem.len() ==> stem[i] != from.first(),
    ensures
        replaced(stem + from, from, to) == stem + to,
    decreases stem.len(),
{
    let s = stem + from;
    if stem.len() == 0 {
        assert(s == from);
        assert(from.is_prefix_of(s));
        assert(s.skip(from.len() as int) == Seq::<u8>::empty());
        assert(replaced(Seq::<u8>::empty(), from, to) == Seq::<u8>::empty());
        assert(to + Seq::<u8>::empty() == stem + to);
    } else {
        let rest = stem.drop_first();
        assert(s.first() == stem[0]);
        assert(!from.is_prefix_of(s)) by {
            assert(s.subrange(0, from.len() as int)[0] == stem[0]);
        }
        assert(s.drop_first() == rest + from);
        law_replaced_at_end(rest, from, to);
        assert(seq![s.first()] + (rest + to) == stem + to);
    }
}

/// Replacement leaves bytes at the front of a name that are not the first byte
/// of `from`.
pub proof fn law_replaced_keeps_front(s: Seq<u8>, n: int, from: Seq<u8>, to: Seq<u8>)
    requires
        0 <= n <= s.len(),
        from.len() > 0,
        forall|i: int| 0 <= i < n ==> s[i] != from.first(),
    ensures
        replaced(s, from, to).len() >= n,
        replaced(s, from, to).take(n) == s.take(n),
    decreases n,
{
    if n > 0 {
        assert(!from.is_prefix_of(s)) by {
            if from.len() <= s.len() {
                assert(s.subrange(0, from.len() as int)[0] == s[0]);
            }
        }
        let rest = s.drop_first();
        law_replaced_keeps_front(rest, n - 1, from, to);
        let r = replaced(rest, from, to);
        assert(replaced(s, from, to) == seq![s.first()] + r);
        assert forall|i: int| 0 <= i < n implies replaced(s, from, to)[i] == s[i] by {
            if i > 0 {
                assert(r.take(n - 1)[i - 1] == rest.take(n - 1)[i - 1]);
            }
        }
        assert(replaced(s, from, to).take(n) =~= s.take(n));
    } else {
        assert(replaced(s, from, to).take(0) =~= s.take(0));
    }
}

/// A name that ends in `from` ends in `to` after replacement, where `from` holds its
/// first byte only once, so that no two occurrences overlap.
pub proof fn law_replaced_ending(stem: Seq<u8>, from: Seq<u8>, to: Seq<u8>)
    requires
        from.len() > 0,
        forall|i: int| 0 < i < from.len() ==> from[i] != from.first(),
    ensures
        to.is_suffix_of(replaced(stem + from, from, to)),
    decreases stem.len(),
{
    let s = stem + from;
    let n = from.len() as int;
    if stem.len() == 0 {
        assert(s == from);
        assert(from.is_prefix_of(s));
        assert(s.skip(n) == Seq::<u8>::empty());
        assert(replaced(s.skip(n), from, to) == Seq::<u8>::empty());
        assert(replaced(s, from, to) =~= to);
    } else if from.is_prefix_of(s) {
        if stem.len() < n {
            assert(s.subrange(0, n)[stem.len() as int] == from.first());
        }
        assert(s.skip(n) == stem.skip(n) + from);
        law_replaced_ending(stem.skip(n), from, to);
        lemma_suffix_behind(to, replaced(s.skip(n), from, to), to);
    } else {
        assert(s.drop_first() == stem.drop_first() + from);
        law_replaced_ending(stem.drop_first(), from, to);
        lemma_suffix_behind(seq![s.first()], replaced(s.drop_first(), from, to), to);
    }
}

proof fn lemma_suffix_behind(front: Seq<u8>, s: Seq<u8>, suffix: Seq<u8>)
    requires
        suffix.is_suffix_of(s),
    ensures
        suffix.is_suffix_of(front + s),
{
    let whole = front + s;
    assert(whole.subrange(whole.len() - suffix.len(), whole.len() as int) =~= s.subrange(
        s.len() - suffix.len(),
        s.len() as int,
    ));
}

/// Whether `a` and `b` differ in ASCII bytes only.
spec fn same_but_ascii(a: Seq<u8>, b: Seq<u8>) -> bool {
    &&& a.len() == b.len()
    &&& forall|i: int|
        0 <= i < a.len() ==> #[trigger] a[i] == #[trigger] b[i] || a[i] < 0x80 && b[i] < 0x80
}

proof fn lemma_replaced_same_but_ascii(s: Seq<u8>, from: Seq<u8>, to: Seq<u8>)
    requires
        from.len() == to.len(),
        forall|i: int| 0 <= i < from.len() ==> from[i] < 0x80,
        forall|i: int| 0 <= i < to.len() ==> to[i] < 0x80,
    ensures
        same_but_ascii(s, replaced(s, from, to)),
    decreases s.len(),
{
    let r = replaced(s, from, to);
    if from.len() == 0 || s.len() == 0 {
    } else if from.is_prefix_of(s) {
        let n = from.len() as int;
        let rest = s.skip(n);
        lemma_replaced_same_but_ascii(rest, from, to);
        assert forall|i: int| 0 <= i < s.len() implies #[trigger] s[i] == #[trigger] r[i] || s[i]
            < 0x80 && r[i] < 0x80 by {
            if i < n {
                assert(s.subrange(0, n)[i] == from[i]);
            } else {
                assert(s[i] == rest[i - n]);
                assert(r[i] == replaced(rest, from, to)[i - n]);
            }
        }
    } else {
        let rest = s.drop_first();
        lemma_replaced_same_but_ascii(rest, from, to);
        assert forall|i: int| 0 <= i < s.len() implies #[trigger] s[i] == #[trigger] r[i] || s[i]
            < 0x80 && r[i] < 0x80 by {
            if i > 0 {
                assert(s[i] == rest[i - 1]);
                assert(r[i] == replaced(rest, from, to)[i - 1]);
            }
        }
    }
}

proof fn lemma_same_but_ascii_valid(a: Seq<u8>, b: Seq<u8>)
    requires
        same_but_ascii(a, b),
        valid_utf8(a),
    ensures
        valid_utf8(b),
    decreases a.len(),
{
    if a.len() > 0 {
        let n = length_of_first_scalar(a);
        assert(valid_first_scalar(a));
        if a[0] < 0x80 {
            assert(n == 1);
            assert(b[0] < 0x80);
        } else {
            assert forall|i: int| 0 <= i < n implies a[i] == b[i] by {}
        }
        assert(valid_first_scalar(b));
        assert(length_of_first_scalar(b) == n);
        let x = pop_first_scalar(a);
        let y = pop_first_scalar(b);
        assert forall|i: int| 0 <= i < x.len() implies #[trigger] x[i] == #[trigger] y[i] || x[i]
            < 0x80 && y[i] < 0x80 by {
            assert(x[i] == a[i + n]);
            assert(y[i] == b[i + n]);
        }
        lemma_same_but_ascii_valid(x, y);
    }
}

/// Replacing ASCII text by as much other ASCII text keeps the length of a name,
/// and keeps it UTF-8.
pub proof fn law_replaced_ascii(s: Seq<u8>, from: Seq<u8>, to: Seq<u8>)
    requires
        from.len() == to.len(),
        forall|i: int| 0 <= i < from.len() ==> from[i] < 0x80,
        forall|i: int| 0 <= i < to.len() ==> to[i] < 0x80,
    ensures
        replaced(s, from, to).len() == s.len(),
        valid_utf8(s) ==> valid_utf8(replaced(s, from, to)),
{
    lemma_replaced_same_but_ascii(s, from, to);
    if valid_utf8(s) {
        lemma_same_but_ascii_valid(s, replaced(s, from, to));
    }
}

/// Whether `a` and `b` agree up to the place `k`, where `a` ends or has the smaller
/// byte.
pub open spec fn precedes_at(a: Seq<u8>, b: Seq<u8>, k: int) -> bool {
    &&& 0 <= k <= a.len()
    &&& k <= b.len()
    &&& forall|i: int| 0 <= i < k ==> #[trigger] a[i] == b[i]
    &&& k == a.len() || k < b.len() && a[k] < b[k]
}

/// A name comes before another, or is the same, exactly if it ends or has the
/// smaller byte at the first place where the two differ, however long they are.
pub proof fn law_name_order(a: Seq<u8>, b: Seq<u8>)
    ensures
        name_le(a, b) <==> exists|k: int| precedes_at(a, b, k),
    decreases a.len(),
{
    if a.len() == 0 {
        assert(precedes_at(a, b, 0));
    } else if b.len() > 0 {
        let x = a.drop_first();
        let y = b.drop_first();
        law_name_order(x, y);
        if a.first() < b.first() {
            assert(precedes_at(a, b, 0));
        } else if name_le(a, b) {
            let k = choose|k: int| precedes_at(x, y, k);
            assert forall|i: int| 0 <= i < k + 1 implies #[trigger] a[i] == b[i] by {
                if i > 0 {
                    assert(a[i] == x[i - 1]);
                    assert(b[i] == y[i - 1]);
                }
            }
            assert(precedes_at(a, b, k + 1));
        }
        if exists|k: int| precedes_at(a, b, k) {
            let k = choose|k: int| precedes_at(a, b, k);
            if k > 0 {
                assert(a[0] == b[0]);
                assert forall|i: int| 0 <= i < k - 1 implies #[trigger] x[i] == y[i] by {
                    assert(a[i + 1] == b[i + 1]);
                }
                assert(precedes_at(x, y, k - 1));
            }
        }
    }
}

/// A path is the directory, one slash and the name.
pub proof fn law_path(dir: Seq<u8>, name: Seq<u8>)
    ensures
        path_of(dir, name).len() == dir.len() + 1 + name.len(),
        path_of(dir, name).take(dir.len() as int) == dir,
        path_of(dir, name)[dir.len() as int] == 0x2f,
        path_of(dir, name).skip(dir.len() as int + 1) == name,
{
    assert(path_of(dir, name).take(dir.len() as int) =~= dir);
    assert(path_of(dir, name).skip(dir.len() as int + 1) =~= name);
}

/// What stands before the first occurrence of `from` stays, the occurrence becomes
/// `to`, and what follows it is replaced in the same way, however many
/// occurrences there are.
pub proof fn law_replaced_first(s: Seq<u8>, k: int, from: Seq<u8>, to: Seq<u8>)
    requires
        from.len() > 0,
        0 <= k <= s.len(),
        from.is_prefix_of(s.skip(k)),
        forall|i: int| 0 <= i < k ==> !from.is_prefix_of(#[trigger] s.skip(i)),
    ensures
        replaced(s, from, to) == s.take(k) + to + replaced(s.skip(k + from.len()), from, to),
    decreases k,
{
    assert(s.skip(0) == s);
    if k == 0 {
        assert(s.take(0) + to == to);
    } else {
        let rest = s.drop_first();
        assert(rest.skip(k - 1) == s.skip(k));
        assert forall|i: int| 0 <= i < k - 1 implies !from.is_prefix_of(#[trigger] rest.skip(i)) by {
            assert(rest.skip(i) == s.skip(i + 1));
        }
        law_replaced_first(rest, k - 1, from, to);
        assert(!from.is_prefix_of(s.skip(0)));
        assert(rest.skip(k - 1 + from.len()) == s.skip(k + from.len()));
        let tail = replaced(s.skip(k + from.len()), from, to);
        assert(seq![s.first()] + (rest.take(k - 1) + to + tail) == s.take(k) + to + tail);
    }
}

/// A name in which `from` does not occur stays as it is, as it does where `from` is
/// empty.
pub proof fn law_replaced_nothing(s: Seq<u8>, from: Seq<u8>, to: Seq<u8>)
    requires
        from.len() == 0 || forall|i: int|
            0 <= i < s.len() ==> !from.is_prefix_of(#[trigger] s.skip(i)),
    ensures
        replaced(s, from, to) == s,
    decreases s.len(),
{
    if s.len() > 0 && from.len() > 0 {
        let rest = s.drop_first();
        assert(s.skip(0) == s);
        assert(!from.is_prefix_of(s.skip(0)));
        assert forall|i: int| 0 <= i < rest.len() implies !from.is_prefix_of(
            #[trigger] rest.skip(i),
        ) by {
            assert(rest.skip(i) == s.skip(i + 1));
        }
        law_replaced_nothing(rest, from, to);
        assert(seq![s.first()] + rest == s);
    }
}

/// A name has a form exactly if it is UTF-8, is no shorter than the beginning and the
/// ending, and has their bytes in front and at its end.
pub proof fn law_form_of_names(name: Seq<u8>, prefix: Seq<u8>, suffix: Seq<u8>)
    ensures
        name_matches(name, prefix, suffix) <==> {
            &&& valid_utf8(name)
            &&& prefix.len() <= name.len()
            &&& suffix.len() <= name.len()
            &&& name.take(prefix.len() as int) == prefix
            &&& name.skip(name.len() - suffix.len()) == suffix
        },
{
    if prefix.len() <= name.len() {
        assert(name.subrange(0, prefix.len() as int) == name.take(prefix.len() as int));
    }
    if suffix.len() <= name.len() {
        assert(name.subrange(name.len() - suffix.len(), name.len() as int) == name.skip(
            name.len() - suffix.len(),
        ));
    }
}

/// The contents of a list of names are those of each of them, in their order.
pub proof fn law_contents_of_names(v: Seq<Vec<u8>>)
    ensures
        names_of(v).len() == v.len(),
        forall|i: int| 0 <= i < v.len() ==> #[trigger] names_of(v)[i] == v[i]@,
{
}

} // verus!
