//! Lexicographic order on character strings (the order of `String`'s `Ord`,
//! which compares UTF-8 bytes and so code points).
use vstd::prelude::*;

verus! {

/// `x` sorts strictly before `y`.
pub open spec fn chars_lt(x: Seq<char>, y: Seq<char>) -> bool
    decreases x.len(),
{
    if x.len() == 0 {
        y.len() > 0
    } else if y.len() == 0 {
        false
    } else if x[0] != y[0] {
        x[0] < y[0]
    } else {
        chars_lt(x.drop_first(), y.drop_first())
    }
}

pub proof fn lemma_chars_lt_irreflexive(x: Seq<char>)
    ensures
        !chars_lt(x, x),
    decreases x.len(),
{
    if x.len() > 0 {
        lemma_chars_lt_irreflexive(x.drop_first());
    }
}

pub proof fn lemma_chars_lt_asymmetric(x: Seq<char>, y: Seq<char>)
    ensures
        chars_lt(x, y) ==> !chars_lt(y, x),
    decreases x.len(),
{
    if x.len() > 0 && y.len() > 0 && x[0] == y[0] {
        lemma_chars_lt_asymmetric(x.drop_first(), y.drop_first());
    }
}

pub proof fn lemma_chars_lt_transitive(x: Seq<char>, y: Seq<char>, z: Seq<char>)
    ensures
        chars_lt(x, y) && chars_lt(y, z) ==> chars_lt(x, z),
    decreases x.len(),
{
    if x.len() > 0 && y.len() > 0 && z.len() > 0 && x[0] == y[0] && y[0] == z[0] {
        lemma_chars_lt_transitive(x.drop_first(), y.drop_first(), z.drop_first());
    }
}

pub proof fn lemma_chars_lt_total(x: Seq<char>, y: Seq<char>)
    ensures
        x == y || chars_lt(x, y) || chars_lt(y, x),
    decreases x.len(),
{
    if x.len() > 0 && y.len() > 0 && x[0] == y[0] {
        lemma_chars_lt_total(x.drop_first(), y.drop_first());
        if x.drop_first() == y.drop_first() {
            assert(x.drop_first().len() == y.drop_first().len());
            assert(x.len() == x.drop_first().len() + 1);
            assert(y.len() == y.drop_first().len() + 1);
            assert(x =~= y) by {
                assert forall|i: int| 0 <= i < x.len() implies x[i] == y[i] by {
                    if i > 0 {
                        assert(x[i] == x.drop_first()[i - 1]);
                        assert(y[i] == y.drop_first()[i - 1]);
                    }
                }
            }
        }
    } else if x.len() == 0 && y.len() == 0 {
        assert(x =~= y);
    }
}

/// The outcome of comparing two values.
#[derive(PartialEq, Eq, Structural, Clone, Copy)]
pub enum Order {
    Less,
    Equal,
    Greater,
}

/// Compares two strings lexicographically.
pub fn compare_chars(a: &[char], b: &[char]) -> (r: Order)
    ensures
        r == Order::Less <==> chars_lt(a@, b@),
        r == Order::Equal <==> a@ == b@,
        r == Order::Greater <==> chars_lt(b@, a@),
{
    proof {
        lemma_chars_lt_irreflexive(a@);
        lemma_chars_lt_asymmetric(a@, b@);
        lemma_chars_lt_total(a@, b@);
    }
    let mut i: usize = 0;
    assert(a@.skip(0) =~= a@ && b@.skip(0) =~= b@);
    while i < a.len() && i < b.len() && a[i] == b[i]
        invariant
            i <= a.len(),
            i <= b.len(),
            chars_lt(a@, b@) == chars_lt(a@.skip(i as int), b@.skip(i as int)),
            chars_lt(b@, a@) == chars_lt(b@.skip(i as int), a@.skip(i as int)),
            a@.take(i as int) == b@.take(i as int),
        decreases a.len() - i,
    {
        assert(a@.skip(i as int).drop_first() =~= a@.skip(i + 1));
        assert(b@.skip(i as int).drop_first() =~= b@.skip(i + 1));
        assert(a@.take(i + 1) =~= a@.take(i as int).push(a@[i as int]));
        assert(b@.take(i + 1) =~= b@.take(i as int).push(b@[i as int]));
        i += 1;
    }
    if i == a.len() && i == b.len() {
        assert(a@ =~= a@.take(i as int));
        assert(b@ =~= b@.take(i as int));
        Order::Equal
    } else if i == a.len() {
        assert(a@ != b@);
        Order::Less
    } else if i == b.len() {
        assert(a@ != b@);
        Order::Greater
    } else if a[i] < b[i] {
        assert(a@ != b@) by {
            if a@ == b@ {
                assert(a@[i as int] == b@[i as int]);
            }
        }
        Order::Less
    } else {
        assert(a@ != b@) by {
            if a@ == b@ {
                assert(a@[i as int] == b@[i as int]);
            }
        }
        Order::Greater
    }
}

} // verus!

verus! {

/// A sort key of up to four fields, compared field by field.
pub type Key4 = (Seq<char>, Seq<char>, u32, Seq<char>);

/// `x` sorts strictly before `y`, comparing the fields in order.
pub open spec fn key_lt(x: Key4, y: Key4) -> bool {
    ||| chars_lt(x.0, y.0)
    ||| x.0 == y.0 && chars_lt(x.1, y.1)
    ||| x.0 == y.0 && x.1 == y.1 && x.2 < y.2
    ||| x.0 == y.0 && x.1 == y.1 && x.2 == y.2 && chars_lt(x.3, y.3)
}

pub proof fn lemma_key_lt_order(x: Key4, y: Key4, z: Key4)
    ensures
        !key_lt(x, x),
        key_lt(x, y) ==> !key_lt(y, x),
        key_lt(x, y) && key_lt(y, z) ==> key_lt(x, z),
        x == y || key_lt(x, y) || key_lt(y, x),
{
    lemma_chars_lt_irreflexive(x.0);
    lemma_chars_lt_irreflexive(x.1);
    lemma_chars_lt_irreflexive(x.3);
    lemma_chars_lt_asymmetric(x.0, y.0);
    lemma_chars_lt_asymmetric(x.1, y.1);
    lemma_chars_lt_asymmetric(x.3, y.3);
    lemma_chars_lt_transitive(x.0, y.0, z.0);
    lemma_chars_lt_transitive(x.1, y.1, z.1);
    lemma_chars_lt_transitive(x.3, y.3, z.3);
    lemma_chars_lt_total(x.0, y.0);
    lemma_chars_lt_total(x.1, y.1);
    lemma_chars_lt_total(x.3, y.3);
    lemma_chars_lt_irreflexive(y.0);
    lemma_chars_lt_irreflexive(y.1);
}

/// The executable form of a `Key4`.
pub struct SortKey {
    pub a: Vec<char>,
    pub b: Vec<char>,
    pub n: u32,
    pub c: Vec<char>,
}

impl SortKey {
    pub open spec fn view(&self) -> Key4 {
        (self.a@, self.b@, self.n, self.c@)
    }
}

/// Whether `x` sorts strictly before `y`.
pub fn key_less(x: &SortKey, y: &SortKey) -> (r: bool)
    ensures
        r == key_lt(x.view(), y.view()),
{
    match compare_chars(x.a.as_slice(), y.a.as_slice()) {
        Order::Less => true,
        Order::Greater => false,
        Order::Equal => match compare_chars(x.b.as_slice(), y.b.as_slice()) {
            Order::Less => true,
            Order::Greater => false,
            Order::Equal => {
                if x.n != y.n {
                    x.n < y.n
                } else {
                    match compare_chars(x.c.as_slice(), y.c.as_slice()) {
                        Order::Less => true,
                        _ => false,
                    }
                }
            },
        },
    }
}

/// `s` is in order by `key`: no element sorts strictly before an earlier one.
pub open spec fn sorted_by<T>(s: Seq<T>, key: spec_fn(T) -> Key4) -> bool {
    forall|i: int, j: int| 0 <= i < j < s.len() ==> !key_lt(key(s[j]), key(s[i]))
}

/// Elements of `s` with the key `k`, in their order.
pub open spec fn with_key<T>(s: Seq<T>, key: spec_fn(T) -> Key4, k: Key4) -> Seq<T> {
    s.filter(|t: T| key(t) == k)
}

/// `r` is `s` stably sorted by `key`: in order, and the elements of each key
/// keep their relative order (which makes `r` unique).
pub open spec fn stably_sorted<T>(s: Seq<T>, r: Seq<T>, key: spec_fn(T) -> Key4) -> bool {
    &&& r.len() == s.len()
    &&& sorted_by(r, key)
    &&& forall|k: Key4| with_key(r, key, k) == with_key(s, key, k)
}

} // verus!

verus! {

proof fn lemma_with_key_concat<T>(a: Seq<T>, b: Seq<T>, key: spec_fn(T) -> Key4, k: Key4)
    ensures
        with_key(a + b, key, k) == with_key(a, key, k) + with_key(b, key, k),
    decreases b.len(),
{
    reveal(Seq::filter);
    if b.len() == 0 {
        assert(a + b =~= a);
        assert(with_key(b, key, k) == b);
        assert(with_key(a, key, k) + with_key(b, key, k) =~= with_key(a, key, k));
    } else {
        lemma_with_key_concat(a, b.drop_last(), key, k);
        assert((a + b).drop_last() =~= a + b.drop_last());
        assert((a + b).last() == b.last());
        assert(with_key(a + b, key, k) == (if key(b.last()) == k {
            with_key((a + b).drop_last(), key, k).push(b.last())
        } else {
            with_key((a + b).drop_last(), key, k)
        }));
        assert(with_key(b, key, k) == (if key(b.last()) == k {
            with_key(b.drop_last(), key, k).push(b.last())
        } else {
            with_key(b.drop_last(), key, k)
        }));
        if key(b.last()) == k {
            assert(with_key(a, key, k) + with_key(b.drop_last(), key, k).push(b.last()) =~= (
            with_key(a, key, k) + with_key(b.drop_last(), key, k)).push(b.last()));
        }
    }
}

proof fn lemma_with_key_split<T>(a: Seq<T>, x: T, b: Seq<T>, key: spec_fn(T) -> Key4, k: Key4)
    ensures
        with_key(a + seq![x] + b, key, k) == with_key(a, key, k) + with_key(seq![x], key, k)
            + with_key(b, key, k),
{
    lemma_with_key_concat(a + seq![x], b, key, k);
    lemma_with_key_concat(a, seq![x], key, k);
}

proof fn lemma_with_key_none<T>(a: Seq<T>, key: spec_fn(T) -> Key4, k: Key4)
    requires
        forall|i: int| 0 <= i < a.len() ==> key(a[i]) != k,
    ensures
        with_key(a, key, k) == Seq::<T>::empty(),
    decreases a.len(),
{
    reveal(Seq::filter);
    if a.len() > 0 {
        assert forall|i: int| 0 <= i < a.drop_last().len() implies key(a.drop_last()[i]) != k by {
            assert(a.drop_last()[i] == a[i]);
        }
        lemma_with_key_none(a.drop_last(), key, k);
        assert(key(a[a.len() - 1]) != k);
        assert(a.filter(|t: T| key(t) == k) == a.drop_last().filter(|t: T| key(t) == k));
    } else {
        assert(a.filter(|t: T| key(t) == k) == a);
    }
}

proof fn lemma_with_key_single<T>(x: T, key: spec_fn(T) -> Key4, k: Key4)
    ensures
        with_key(seq![x], key, k) == (if key(x) == k {
            seq![x]
        } else {
            Seq::<T>::empty()
        }),
{
    reveal(Seq::filter);
    let e = Seq::<T>::empty();
    assert(seq![x].drop_last() =~= e);
    assert(with_key(e, key, k) == e);
    assert(with_key(seq![x], key, k) == (if key(x) == k {
        with_key(seq![x].drop_last(), key, k).push(x)
    } else {
        with_key(seq![x].drop_last(), key, k)
    }));
    assert(e.push(x) =~= seq![x]);
}

/// Sorts `items` stably by `key`, given each item's key in `keys`.
pub(crate) fn sort_stable<T>(items: Vec<T>, keys: Vec<SortKey>, Ghost(key): Ghost<spec_fn(T) -> Key4>) -> (r: Vec<T>)
    requires
        keys.len() == items.len(),
        forall|i: int| 0 <= i < items.len() ==> #[trigger] keys@[i].view() == key(items@[i]),
    ensures
        stably_sorted(items@, r@, key),
{
    let ghost orig = items@;
    let mut items = items;
    let mut keys = keys;
    let mut out: Vec<T> = Vec::new();
    let mut okeys: Vec<SortKey> = Vec::new();
    assert(orig.skip(orig.len() as int) =~= Seq::<T>::empty());
    assert forall|k: Key4| with_key(out@, key, k) == with_key(orig.skip(items.len() as int), key, k) by {
        assert(out@ =~= orig.skip(items.len() as int));
    }
    while items.len() > 0
        invariant
            keys.len() == items.len() <= orig.len(),
            items@ == orig.take(items.len() as int),
            forall|i: int| 0 <= i < items.len() ==> #[trigger] keys@[i].view() == key(items@[i]),
            okeys.len() == out.len() == orig.len() - items.len(),
            forall|i: int| 0 <= i < out.len() ==> #[trigger] okeys@[i].view() == key(out@[i]),
            sorted_by(out@, key),
            forall|k: Key4| with_key(out@, key, k) == with_key(orig.skip(items.len() as int), key, k),
        decreases items.len(),
    {
        let ghost i = items.len() - 1;
        let ghost old_out = out@;
        let ghost old_keys = okeys@;
        assert(keys@[i].view() == key(items@[i]));
        let x = items.pop().unwrap();
        let kx = keys.pop().unwrap();
        assert(x == orig[i]);
        let mut j: usize = 0;
        while j < out.len() && key_less(&okeys[j], &kx)
            invariant
                j <= out.len() == okeys.len(),
                out@ == old_out,
                okeys@ == old_keys,
                forall|a: int| 0 <= a < out.len() ==> #[trigger] okeys@[a].view() == key(out@[a]),
                forall|a: int| 0 <= a < j ==> key_lt(key(out@[a]), kx.view()),
            decreases out.len() - j,
        {
            j += 1;
        }
        proof {
            assert forall|b: int| j <= b < old_out.len() implies !key_lt(key(old_out[b]), kx.view()) by {
                lemma_key_lt_order(key(old_out[j as int]), key(old_out[b]), kx.view());
                lemma_key_lt_order(key(old_out[b]), key(old_out[j as int]), kx.view());
                lemma_key_lt_order(key(old_out[b]), kx.view(), kx.view());
                assert(okeys@[j as int].view() == key(old_out[j as int]));
            }
        }
        out.insert(j, x);
        okeys.insert(j, kx);
        proof {
            let a = old_out.take(j as int);
            let b = old_out.skip(j as int);
            assert(out@ =~= a + seq![x] + b);
            assert forall|p: int| 0 <= p < out.len() implies #[trigger] okeys@[p].view() == key(out@[p]) by {
                if p > j {
                    assert(okeys@[p] == old_keys[p - 1]);
                    assert(old_keys[p - 1].view() == key(old_out[p - 1]));
                } else if p < j {
                    assert(old_keys[p].view() == key(old_out[p]));
                }
            }
            assert forall|p: int, q: int| 0 <= p < q < out@.len() implies !key_lt(key(out@[q]), key(out@[p])) by {
                let kp = key(out@[p]);
                let kq = key(out@[q]);
                if q < j {
                    assert(out@[p] == old_out[p] && out@[q] == old_out[q]);
                } else if q == j {
                    assert(key_lt(kp, key(x)));
                    lemma_key_lt_order(kp, key(x), key(x));
                } else if p == j {
                    assert(out@[q] == old_out[q - 1]);
                } else if p < j {
                    assert(out@[q] == old_out[q - 1]);
                    assert(out@[p] == old_out[p]);
                    assert(key_lt(kp, key(x)));
                    lemma_key_lt_order(kq, kp, key(x));
                    lemma_key_lt_order(kp, key(x), kq);
                    lemma_key_lt_order(kq, key(x), kq);
                } else {
                    assert(out@[q] == old_out[q - 1]);
                    assert(out@[p] == old_out[p - 1]);
                }
            }
            assert(orig.skip(i) =~= seq![x] + orig.skip(i + 1));
            assert forall|k: Key4| with_key(out@, key, k) == with_key(orig.skip(i), key, k) by {
                lemma_with_key_split(a, x, b, key, k);
                lemma_with_key_single(x, key, k);
                lemma_with_key_concat(seq![x], orig.skip(i + 1), key, k);
                assert(old_out =~= a + b);
                lemma_with_key_concat(a, b, key, k);
                if key(x) == k {
                    assert forall|p: int| 0 <= p < a.len() implies key(a[p]) != k by {
                        assert(key_lt(key(old_out[p]), key(x)));
                        lemma_key_lt_order(key(x), key(x), key(x));
                    }
                    lemma_with_key_none(a, key, k);
                }
            }
        }
    }
    assert(orig.skip(0) =~= orig);
    out
}

} // verus!

verus! {

proof fn lemma_with_key_last<T>(s: Seq<T>, key: spec_fn(T) -> Key4)
    requires
        s.len() > 0,
    ensures
        with_key(s, key, key(s.last())) == with_key(s.drop_last(), key, key(s.last())).push(s.last()),
        forall|k: Key4| k != key(s.last()) ==> #[trigger] with_key(s, key, k) == with_key(s.drop_last(), key, k),
{
    reveal(Seq::filter);
    assert forall|k: Key4| k != key(s.last()) implies #[trigger] with_key(s, key, k) == with_key(s.drop_last(), key, k) by {
        assert(s.filter(|t: T| key(t) == k) == s.drop_last().filter(|t: T| key(t) == k));
    }
}

proof fn lemma_with_key_witness<T>(s: Seq<T>, key: spec_fn(T) -> Key4, k: Key4)
    requires
        with_key(s, key, k).len() > 0,
    ensures
        exists|j: int| 0 <= j < s.len() && key(s[j]) == k,
    decreases s.len(),
{
    reveal(Seq::filter);
    if s.len() > 0 {
        if key(s.last()) == k {
            assert(key(s[s.len() - 1]) == k);
        } else {
            assert(with_key(s, key, k) == with_key(s.drop_last(), key, k));
            lemma_with_key_witness(s.drop_last(), key, k);
            let j = choose|j: int| 0 <= j < s.drop_last().len() && key(s.drop_last()[j]) == k;
            assert(s[j] == s.drop_last()[j]);
        }
    } else {
        assert(with_key(s, key, k) == s);
    }
}

proof fn lemma_last_key_is_max<T>(s: Seq<T>, key: spec_fn(T) -> Key4, k: Key4)
    requires
        s.len() > 0,
        sorted_by(s, key),
        with_key(s, key, k).len() > 0,
    ensures
        !key_lt(key(s.last()), k),
{
    lemma_with_key_witness(s, key, k);
    let j = choose|j: int| 0 <= j < s.len() && key(s[j]) == k;
    if j < s.len() - 1 {
        assert(!key_lt(key(s[s.len() - 1]), key(s[j])));
    } else {
        lemma_key_lt_order(k, k, k);
    }
}

proof fn lemma_same_groups_same_seq<T>(r1: Seq<T>, r2: Seq<T>, key: spec_fn(T) -> Key4)
    requires
        r1.len() == r2.len(),
        sorted_by(r1, key),
        sorted_by(r2, key),
        forall|k: Key4| #[trigger] with_key(r1, key, k) == with_key(r2, key, k),
    ensures
        r1 == r2,
    decreases r1.len(),
{
    if r1.len() == 0 {
        assert(r1 =~= r2);
    } else {
        let (x1, x2) = (r1.last(), r2.last());
        let (k1, k2) = (key(x1), key(x2));
        lemma_with_key_last(r1, key);
        lemma_with_key_last(r2, key);
        assert(with_key(r2, key, k1) == with_key(r1, key, k1));
        assert(with_key(r1, key, k2) == with_key(r2, key, k2));
        lemma_last_key_is_max(r2, key, k1);
        lemma_last_key_is_max(r1, key, k2);
        lemma_key_lt_order(k1, k2, k1);
        assert(k1 == k2);
        assert(with_key(r1, key, k1).last() == x1);
        assert(with_key(r2, key, k1).last() == x2);
        let (d1, d2) = (r1.drop_last(), r2.drop_last());
        assert forall|k: Key4| #[trigger] with_key(d1, key, k) == with_key(d2, key, k) by {
            if k == k1 {
                assert(with_key(d1, key, k) =~= with_key(r1, key, k).drop_last());
                assert(with_key(d2, key, k) =~= with_key(r2, key, k).drop_last());
            } else {
                assert(with_key(r1, key, k) == with_key(d1, key, k));
                assert(with_key(r2, key, k) == with_key(d2, key, k));
            }
        }
        assert(sorted_by(d1, key)) by {
            assert forall|i: int, j: int| 0 <= i < j < d1.len() implies !key_lt(key(d1[j]), key(d1[i])) by {
                assert(d1[i] == r1[i] && d1[j] == r1[j]);
            }
        }
        assert(sorted_by(d2, key)) by {
            assert forall|i: int, j: int| 0 <= i < j < d2.len() implies !key_lt(key(d2[j]), key(d2[i])) by {
                assert(d2[i] == r2[i] && d2[j] == r2[j]);
            }
        }
        lemma_same_groups_same_seq(d1, d2, key);
        assert(r1 =~= d1.push(x1));
        assert(r2 =~= d2.push(x2));
    }
}

/// A stable sort has one result: any two stable sorts of the same items by
/// the same key agree.
pub proof fn law_stable_sort_unique<T>(s: Seq<T>, r1: Seq<T>, r2: Seq<T>, key: spec_fn(T) -> Key4)
    requires
        stably_sorted(s, r1, key),
        stably_sorted(s, r2, key),
    ensures
        r1 == r2,
{
    assert forall|k: Key4| #[trigger] with_key(r1, key, k) == with_key(r2, key, k) by {
        assert(with_key(r1, key, k) == with_key(s, key, k));
        assert(with_key(r2, key, k) == with_key(s, key, k));
    }
    lemma_same_groups_same_seq(r1, r2, key);
}

/// Sorting what is already in order changes nothing; in particular sorting
/// twice gives what sorting once gave.
pub proof fn law_sort_idempotent<T>(s: Seq<T>, r: Seq<T>, key: spec_fn(T) -> Key4)
    requires
        sorted_by(s, key),
        stably_sorted(s, r, key),
    ensures
        r == s,
{
    law_stable_sort_unique(s, r, s, key);
}

} // verus!
