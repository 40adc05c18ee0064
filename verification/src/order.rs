//! Stable sorting by a three-part key, used to put snapshot records in
//! display order.

use vstd::prelude::*;

verus! {

/// `a` comes before `b` in string order: characters compared by code
/// point, a proper prefix first. This is the order of `String`'s `Ord`,
/// since UTF-8 keeps code point order.
pub open spec fn chars_lt(a: Seq<char>, b: Seq<char>) -> bool
    decreases a.len(),
{
    if a.len() == 0 {
        b.len() > 0
    } else if b.len() == 0 {
        false
    } else if (a[0] as u32) < (b[0] as u32) {
        true
    } else if a[0] != b[0] {
        false
    } else {
        chars_lt(a.drop_first(), b.drop_first())
    }
}

/// A sort key: two numbers, then a string, compared in that order.
pub struct SortKey {
    pub major: i64,
    pub minor: i64,
    pub name: Vec<char>,
}

impl View for SortKey {
    type V = (i64, i64, Seq<char>);

    open spec fn view(&self) -> (i64, i64, Seq<char>) {
        (self.major, self.minor, self.name@)
    }
}

/// `a` sorts strictly before `b`.
pub open spec fn key_lt(a: (i64, i64, Seq<char>), b: (i64, i64, Seq<char>)) -> bool {
    a.0 < b.0 || (a.0 == b.0 && (a.1 < b.1 || (a.1 == b.1 && chars_lt(a.2, b.2))))
}

/// `sorted` with index `i` inserted after every index whose key is not
/// greater than that of `i`: one step of a stable insertion sort.
pub open spec fn insert_idx(sorted: Seq<usize>, i: usize, keys: Seq<(i64, i64, Seq<char>)>) -> Seq<usize>
    decreases sorted.len(),
{
    if sorted.len() == 0 {
        seq![i]
    } else if key_lt(keys[i as int], keys[sorted.last() as int]) {
        insert_idx(sorted.drop_last(), i, keys).push(sorted.last())
    } else {
        sorted.push(i)
    }
}

/// The positions `0..n` of `keys`, stably sorted by key: equal keys keep
/// their relative order.
pub open spec fn sort_idx(keys: Seq<(i64, i64, Seq<char>)>, n: nat) -> Seq<usize>
    decreases n,
{
    if n == 0 {
        Seq::empty()
    } else {
        insert_idx(sort_idx(keys, (n - 1) as nat), (n - 1) as usize, keys)
    }
}

/// Whether `a` is before `b` in string order.
pub(crate) fn chars_less(a: &Vec<char>, b: &Vec<char>) -> (r: bool)
    ensures
        r == chars_lt(a@, b@),
{
    let mut i: usize = 0;
    assert(a@.skip(0) =~= a@ && b@.skip(0) =~= b@);
    while i < a.len() && i < b.len()
        invariant
            i <= a.len(),
            i <= b.len(),
            chars_lt(a@, b@) == chars_lt(a@.skip(i as int), b@.skip(i as int)),
        decreases a.len() - i,
    {
        let ghost sa = a@.skip(i as int);
        let ghost sb = b@.skip(i as int);
        assert(sa[0] == a@[i as int] && sb[0] == b@[i as int]);
        if (a[i] as u32) < (b[i] as u32) {
            return true;
        }
        if a[i] != b[i] {
            return false;
        }
        assert(sa.drop_first() =~= a@.skip(i + 1));
        assert(sb.drop_first() =~= b@.skip(i + 1));
        i = i + 1;
    }
    assert(a@.skip(i as int).len() == 0 || b@.skip(i as int).len() == 0);
    i >= a.len() && i < b.len()
}

/// Whether key `a` sorts strictly before key `b`.
pub(crate) fn key_less(a: &SortKey, b: &SortKey) -> (r: bool)
    ensures
        r == key_lt(a@, b@),
{
    if a.major != b.major {
        return a.major < b.major;
    }
    if a.minor != b.minor {
        return a.minor < b.minor;
    }
    chars_less(&a.name, &b.name)
}

proof fn lemma_insert_at(sorted: Seq<usize>, i: usize, keys: Seq<(i64, i64, Seq<char>)>, j: int)
    requires
        0 <= j <= sorted.len(),
        forall|m: int| j <= m < sorted.len() ==> key_lt(keys[i as int], #[trigger] keys[sorted[m] as int]),
        j > 0 ==> !key_lt(keys[i as int], keys[sorted[j - 1] as int]),
    ensures
        insert_idx(sorted, i, keys) == sorted.take(j) + seq![i] + sorted.skip(j),
    decreases sorted.len(),
{
    if sorted.len() == 0 {
        assert(sorted.take(j) + seq![i] + sorted.skip(j) =~= seq![i]);
    } else if j == sorted.len() {
        assert(sorted.take(j) + seq![i] + sorted.skip(j) =~= sorted.push(i));
    } else {
        let m = sorted.len() - 1;
        assert(key_lt(keys[i as int], keys[sorted[m] as int]));
        lemma_insert_at(sorted.drop_last(), i, keys, j);
        assert(sorted.drop_last().take(j) + seq![i] + sorted.drop_last().skip(j)
            =~= (sorted.take(j) + seq![i] + sorted.skip(j)).drop_last());
        assert((sorted.take(j) + seq![i] + sorted.skip(j)).last() == sorted.last());
        assert(sorted.drop_last().take(j) + seq![i] + sorted.drop_last().skip(j)
            == (sorted.take(j) + seq![i] + sorted.skip(j)).drop_last());
        assert((sorted.take(j) + seq![i] + sorted.skip(j)) =~= (sorted.take(j) + seq![i] + sorted.skip(j)).drop_last().push(sorted.last()));
    }
}

/// The positions of `keys` in stable sorted order.
pub(crate) fn sort_order(keys: &Vec<SortKey>) -> (r: Vec<usize>)
    ensures
        r@ == sort_idx(keys@.map_values(|k: SortKey| k@), keys.len() as nat),
        r.len() == keys.len(),
        forall|m: int| 0 <= m < r.len() ==> #[trigger] r@[m] < keys.len(),
{
    let ghost kv = keys@.map_values(|k: SortKey| k@);
    let mut r: Vec<usize> = Vec::new();
    let mut i: usize = 0;
    while i < keys.len()
        invariant
            kv == keys@.map_values(|k: SortKey| k@),
            i <= keys.len(),
            r@ == sort_idx(kv, i as nat),
            r.len() == i,
            forall|m: int| 0 <= m < r.len() ==> #[trigger] r@[m] < i,
        decreases keys.len() - i,
    {
        let mut j: usize = r.len();
        while j > 0 && key_less(&keys[i], &keys[r[j - 1]])
            invariant
                kv == keys@.map_values(|k: SortKey| k@),
                i < keys.len(),
                j <= r.len(),
                r.len() == i,
                forall|m: int| 0 <= m < r.len() ==> #[trigger] r@[m] < i,
                forall|m: int| j <= m < r.len() ==> key_lt(kv[i as int], #[trigger] kv[r@[m] as int]),
            decreases j,
        {
            j = j - 1;
        }
        proof {
            lemma_insert_at(r@, i, kv, j as int);
        }
        r.insert(j, i);
        assert(r@ =~= sort_idx(kv, i as nat).take(j as int) + seq![i] + sort_idx(kv, i as nat).skip(j as int));
        i = i + 1;
        assert forall|m: int| 0 <= m < r.len() implies #[trigger] r@[m] < i by {
            if m < j {
            } else if m == j {
            } else {
                assert(r@[m] == sort_idx(kv, (i - 1) as nat)[m - 1]);
            }
        }
    }
    r
}

proof fn lemma_chars_lt_order(a: Seq<char>, b: Seq<char>, c: Seq<char>)
    ensures
        !chars_lt(a, a),
        chars_lt(a, b) && chars_lt(b, c) ==> chars_lt(a, c),
        chars_lt(a, b) || chars_lt(b, a) || a == b,
    decreases a.len(),
{
    if a.len() > 0 {
        lemma_chars_lt_order(a.drop_first(), b.drop_first(), c.drop_first());
        if b.len() > 0 && a[0] == b[0] && a.drop_first() == b.drop_first() {
            assert(a =~= b) by {
                assert forall|k: int| 0 <= k < a.len() implies a[k] == b[k] by {
                    if k > 0 {
                        assert(a[k] == a.drop_first()[k - 1]);
                        assert(b[k] == b.drop_first()[k - 1]);
                    }
                }
            }
        }
        vstd::utf8::char_u32_cast(a[0], a[0] as u32);
        if b.len() > 0 {
            vstd::utf8::char_u32_cast(b[0], b[0] as u32);
        }
        if c.len() > 0 {
            vstd::utf8::char_u32_cast(c[0], c[0] as u32);
        }
    } else if b.len() == 0 {
        assert(a =~= b);
    }
}

/// `key_lt` is a strict total order.
pub proof fn lemma_key_order(a: (i64, i64, Seq<char>), b: (i64, i64, Seq<char>), c: (i64, i64, Seq<char>))
    ensures
        !key_lt(a, a),
        key_lt(a, b) && key_lt(b, c) ==> key_lt(a, c),
        key_lt(a, b) || key_lt(b, a) || a == b,
{
    lemma_chars_lt_order(a.2, b.2, c.2);
    lemma_chars_lt_order(b.2, a.2, c.2);
}

/// Where `insert_idx` puts `i`: after the last position whose key is not
/// greater than that of `i`.
pub open spec fn insert_pos(sorted: Seq<usize>, i: usize, keys: Seq<(i64, i64, Seq<char>)>) -> int
    decreases sorted.len(),
{
    if sorted.len() == 0 {
        0
    } else if key_lt(keys[i as int], keys[sorted.last() as int]) {
        insert_pos(sorted.drop_last(), i, keys)
    } else {
        sorted.len() as int
    }
}

proof fn lemma_insert_pos(sorted: Seq<usize>, i: usize, keys: Seq<(i64, i64, Seq<char>)>)
    ensures
        0 <= insert_pos(sorted, i, keys) <= sorted.len(),
        forall|m: int| insert_pos(sorted, i, keys) <= m < sorted.len() ==> key_lt(keys[i as int], #[trigger] keys[sorted[m] as int]),
        insert_pos(sorted, i, keys) > 0 ==> !key_lt(keys[i as int], keys[sorted[insert_pos(sorted, i, keys) - 1] as int]),
        insert_idx(sorted, i, keys) == sorted.take(insert_pos(sorted, i, keys)) + seq![i] + sorted.skip(insert_pos(sorted, i, keys)),
    decreases sorted.len(),
{
    if sorted.len() > 0 {
        let p = sorted.drop_last();
        lemma_insert_pos(p, i, keys);
        let j = insert_pos(sorted, i, keys);
        if key_lt(keys[i as int], keys[sorted.last() as int]) {
            assert forall|m: int| j <= m < sorted.len() implies key_lt(keys[i as int], #[trigger] keys[sorted[m] as int]) by {
                if m < p.len() {
                    assert(sorted[m] == p[m]);
                }
            }
            if j > 0 {
                assert(sorted[j - 1] == p[j - 1]);
            }
        }
        lemma_insert_at(sorted, i, keys, j);
    } else {
        lemma_insert_at(sorted, i, keys, 0);
    }
}

/// `s` lists the positions `0..n`, each once.
pub open spec fn is_order_of(s: Seq<usize>, n: nat) -> bool {
    &&& s.len() == n
    &&& forall|m: int| 0 <= m < s.len() ==> #[trigger] s[m] < n
    &&& s.no_duplicates()
}

/// The keys of the positions in `s` never decrease.
pub open spec fn keys_sorted(s: Seq<usize>, keys: Seq<(i64, i64, Seq<char>)>) -> bool {
    forall|a: int, b: int| 0 <= a < b < s.len() ==> !key_lt(keys[#[trigger] s[b] as int], keys[#[trigger] s[a] as int])
}

/// Positions whose keys are equal stay in their order.
pub open spec fn keeps_ties(s: Seq<usize>, keys: Seq<(i64, i64, Seq<char>)>) -> bool {
    forall|a: int, b: int|
        0 <= a < b < s.len() && !key_lt(keys[#[trigger] s[a] as int], keys[#[trigger] s[b] as int]) ==> s[a] < s[b]
}

/// The order that sorts snapshot records is a stable sort: it lists every
/// position once, by non-decreasing key, and records with equal keys keep
/// the order they had.
pub proof fn law_sort_idx_is_a_stable_sort(keys: Seq<(i64, i64, Seq<char>)>, n: nat)
    requires
        n <= keys.len(),
        n <= usize::MAX,
    ensures
        is_order_of(sort_idx(keys, n), n),
        keys_sorted(sort_idx(keys, n), keys),
        keeps_ties(sort_idx(keys, n), keys),
    decreases n,
{
    if n > 0 {
        let i = (n - 1) as usize;
        let t = sort_idx(keys, (n - 1) as nat);
        law_sort_idx_is_a_stable_sort(keys, (n - 1) as nat);
        lemma_insert_pos(t, i, keys);
        let j = insert_pos(t, i, keys);
        let r = sort_idx(keys, n);
        assert(r == t.take(j) + seq![i] + t.skip(j));
        assert(r.len() == n);
        assert forall|m: int| 0 <= m < r.len() implies
            (m < j ==> r[m] == t[m]) && (m == j ==> r[m] == i) && (m > j ==> r[m] == t[m - 1]) by {}
        assert forall|m: int| 0 <= m < r.len() implies #[trigger] r[m] < n by {
            if m < j {} else if m == j {} else { assert(r[m] == t[m - 1]); }
        }
        assert forall|a: int, b: int| 0 <= a < r.len() && 0 <= b < r.len() && a != b implies r[a] != r[b] by {
            if a != j && b != j {
                let a2 = if a < j { a } else { a - 1 };
                let b2 = if b < j { b } else { b - 1 };
                assert(r[a] == t[a2] && r[b] == t[b2]);
            } else if a == j {
                let b2 = if b < j { b } else { b - 1 };
                assert(t[b2] < i);
            } else {
                let a2 = if a < j { a } else { a - 1 };
                assert(t[a2] < i);
            }
        }
        assert forall|a: int, b: int| 0 <= a < b < r.len() implies !key_lt(keys[#[trigger] r[b] as int], keys[#[trigger] r[a] as int]) by {
            if b < j {
                assert(r[a] == t[a] && r[b] == t[b]);
            } else if b == j {
                let x = keys[t[a] as int];
                let y = keys[t[j - 1] as int];
                let z = keys[i as int];
                lemma_key_order(z, x, y);
                lemma_key_order(x, y, z);
                lemma_key_order(z, y, x);
                if a < j - 1 {
                    assert(!key_lt(keys[t[j - 1] as int], keys[t[a] as int]));
                }
                assert(r[a] == t[a]);
            } else if a == j {
                assert(r[b] == t[b - 1]);
                lemma_key_order(keys[i as int], keys[t[b - 1] as int], keys[i as int]);
            } else if a < j {
                assert(r[a] == t[a] && r[b] == t[b - 1]);
            } else {
                assert(r[a] == t[a - 1] && r[b] == t[b - 1]);
            }
        }
        assert forall|a: int, b: int|
            0 <= a < b < r.len() && !key_lt(keys[#[trigger] r[a] as int], keys[#[trigger] r[b] as int]) implies r[a] < r[b] by {
            if b < j {
                assert(r[a] == t[a] && r[b] == t[b]);
            } else if b == j {
                assert(r[a] == t[a]);
            } else if a == j {
                assert(r[b] == t[b - 1]);
            } else if a < j {
                assert(r[a] == t[a] && r[b] == t[b - 1]);
            } else {
                assert(r[a] == t[a - 1] && r[b] == t[b - 1]);
            }
        }
    }
}

} // verus!
