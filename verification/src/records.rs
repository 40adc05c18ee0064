//! Snapshot records keyed by id, and the list operations the model builds
//! on: keep the last record per id, find by id, pick in a given order.

use vstd::prelude::*;

verus! {

/// The views of the elements of `s`.
pub open spec fn seq_view<T: View>(s: Seq<T>) -> Seq<T::V> {
    s.map_values(|x: T| x@)
}

/// A snapshot record that Herdr identifies by one id.
pub trait Record: View + Sized {
    /// The id of a record, by its view.
    spec fn key_of(v: Self::V) -> Seq<char>;

    fn key(&self) -> (k: &String)
        ensures
            k@ == Self::key_of(self@),
    ;

    fn duplicate(&self) -> (r: Self)
        ensures
            r@ == self@,
    ;
}

/// `s` without the records whose id is `k`.
pub open spec fn drop_key<T: Record>(s: Seq<T::V>, k: Seq<char>) -> Seq<T::V>
    decreases s.len(),
{
    if s.len() == 0 {
        s
    } else {
        let r = drop_key::<T>(s.drop_last(), k);
        if T::key_of(s.last()) == k {
            r
        } else {
            r.push(s.last())
        }
    }
}

/// The records of `s` keyed by id, as a map built by inserting them in
/// order: a later record with the same id replaces an earlier one, and each
/// id sits where it was last inserted.
pub open spec fn dedup_last<T: Record>(s: Seq<T::V>) -> Seq<T::V>
    decreases s.len(),
{
    if s.len() == 0 {
        s
    } else {
        drop_key::<T>(dedup_last::<T>(s.drop_last()), T::key_of(s.last())).push(s.last())
    }
}

/// No two records of `s` have the same id.
pub open spec fn unique_keys<T: Record>(s: Seq<T::V>) -> bool {
    forall|i: int, j: int| 0 <= i < j < s.len() ==> T::key_of(#[trigger] s[i]) != T::key_of(#[trigger] s[j])
}

/// Dropping an id keeps the other records, in order, and leaves none with
/// that id.
proof fn lemma_drop_key<T: Record>(s: Seq<T::V>, k: Seq<char>)
    ensures
        forall|i: int| 0 <= i < drop_key::<T>(s, k).len() ==> T::key_of(#[trigger] drop_key::<T>(s, k)[i]) != k,
        unique_keys::<T>(s) ==> unique_keys::<T>(drop_key::<T>(s, k)),
        forall|i: int| 0 <= i < drop_key::<T>(s, k).len() ==> s.contains(#[trigger] drop_key::<T>(s, k)[i]),
        drop_key::<T>(s, k).len() <= s.len(),
    decreases s.len(),
{
    if s.len() > 0 {
        let p = s.drop_last();
        lemma_drop_key::<T>(p, k);
        let r = drop_key::<T>(p, k);
        assert(unique_keys::<T>(s) ==> unique_keys::<T>(p));
        assert forall|i: int| 0 <= i < r.len() implies s.contains(#[trigger] r[i]) by {
            let j = choose|j: int| 0 <= j < p.len() && p[j] == r[i];
            assert(s[j] == r[i]);
        }
        assert(s[s.len() - 1] == s.last());
        if T::key_of(s.last()) != k {
            let t = r.push(s.last());
            assert forall|i: int| 0 <= i < t.len() implies s.contains(#[trigger] t[i]) by {
                if i < r.len() {
                    assert(t[i] == r[i]);
                }
            }
            if unique_keys::<T>(s) {
                assert forall|i: int, j: int| 0 <= i < j < t.len() implies T::key_of(#[trigger] t[i]) != T::key_of(#[trigger] t[j]) by {
                    if j == r.len() {
                        assert(t[i] == r[i]);
                        let m = choose|m: int| 0 <= m < p.len() && p[m] == r[i];
                        assert(s[m] == r[i]);
                    } else {
                        assert(t[i] == r[i]);
                        assert(t[j] == r[j]);
                    }
                }
            }
        }
    }
}

/// Keeping the last record per id leaves one record per id.
pub proof fn lemma_dedup_unique<T: Record>(s: Seq<T::V>)
    ensures
        unique_keys::<T>(dedup_last::<T>(s)),
    decreases s.len(),
{
    if s.len() > 0 {
        let k = T::key_of(s.last());
        lemma_dedup_unique::<T>(s.drop_last());
        let r = drop_key::<T>(dedup_last::<T>(s.drop_last()), k);
        lemma_drop_key::<T>(dedup_last::<T>(s.drop_last()), k);
        let t = r.push(s.last());
        assert forall|i: int, j: int| 0 <= i < j < t.len() implies T::key_of(#[trigger] t[i]) != T::key_of(#[trigger] t[j]) by {
            assert(t[i] == r[i]);
            if j < r.len() {
                assert(t[j] == r[j]);
            }
        }
    }
}

/// Keeping the last record per id keeps only records of `s`, and no more
/// of them than `s` has.
pub proof fn lemma_dedup_members<T: Record>(s: Seq<T::V>)
    ensures
        dedup_last::<T>(s).len() <= s.len(),
        forall|i: int| 0 <= i < dedup_last::<T>(s).len() ==> s.contains(#[trigger] dedup_last::<T>(s)[i]),
    decreases s.len(),
{
    if s.len() > 0 {
        let p = s.drop_last();
        lemma_dedup_members::<T>(p);
        let d = dedup_last::<T>(p);
        let r = drop_key::<T>(d, T::key_of(s.last()));
        lemma_drop_key::<T>(d, T::key_of(s.last()));
        let t = r.push(s.last());
        assert(s[s.len() - 1] == s.last());
        assert forall|i: int| 0 <= i < t.len() implies s.contains(#[trigger] t[i]) by {
            if i < r.len() {
                assert(t[i] == r[i]);
                assert(d.contains(r[i]));
                let a = choose|a: int| 0 <= a < d.len() && d[a] == r[i];
                assert(p.contains(d[a]));
                let b = choose|b: int| 0 <= b < p.len() && p[b] == d[a];
                assert(s[b] == p[b]);
            }
        }
    }
}

/// The records of one workspace are records of `s` in that workspace, no
/// more of them than `s` has, and they keep distinct ids distinct.
pub proof fn lemma_in_workspace_members<T: Member>(s: Seq<T::V>, ws: Seq<char>)
    ensures
        in_workspace::<T>(s, ws).len() <= s.len(),
        forall|i: int| 0 <= i < in_workspace::<T>(s, ws).len() ==> s.contains(#[trigger] in_workspace::<T>(s, ws)[i]),
        forall|i: int| 0 <= i < in_workspace::<T>(s, ws).len() ==> T::workspace_of(#[trigger] in_workspace::<T>(s, ws)[i]) == ws,
        unique_keys::<T>(s) ==> unique_keys::<T>(in_workspace::<T>(s, ws)),
    decreases s.len(),
{
    if s.len() > 0 {
        let p = s.drop_last();
        lemma_in_workspace_members::<T>(p, ws);
        let r = in_workspace::<T>(p, ws);
        assert(s[s.len() - 1] == s.last());
        assert(unique_keys::<T>(s) ==> unique_keys::<T>(p));
        assert forall|i: int| 0 <= i < r.len() implies s.contains(#[trigger] r[i]) by {
            let b = choose|b: int| 0 <= b < p.len() && p[b] == r[i];
            assert(s[b] == p[b]);
        }
        if T::workspace_of(s.last()) == ws {
            let t = r.push(s.last());
            assert forall|i: int| 0 <= i < t.len() implies s.contains(#[trigger] t[i]) && T::workspace_of(t[i]) == ws by {
                if i < r.len() {
                    assert(t[i] == r[i]);
                }
            }
            if unique_keys::<T>(s) {
                assert forall|i: int, j: int| 0 <= i < j < t.len() implies T::key_of(#[trigger] t[i]) != T::key_of(#[trigger] t[j]) by {
                    assert(t[i] == r[i]);
                    if j == r.len() {
                        let b = choose|b: int| 0 <= b < p.len() && p[b] == r[i];
                        assert(s[b] == p[b]);
                    } else {
                        assert(t[j] == r[j]);
                    }
                }
            }
        }
    }
}

/// The views of a prefix are the prefix of the views.
pub proof fn lemma_seq_view_take<T: View>(s: Seq<T>, i: int)
    requires
        0 <= i < s.len(),
    ensures
        seq_view(s.take(i + 1)) == seq_view(s.take(i)).push(s[i]@),
        seq_view(s.take(i + 1)).drop_last() == seq_view(s.take(i)),
        seq_view(s.take(i + 1)).last() == s[i]@,
{
    assert(seq_view(s.take(i + 1)) =~= seq_view(s.take(i)).push(s[i]@));
    assert(seq_view(s.take(i + 1)).drop_last() =~= seq_view(s.take(i)));
}

/// The views of a sequence with one more element.
pub proof fn lemma_seq_view_push<T: View>(s: Seq<T>, x: T)
    ensures
        seq_view(s.push(x)) == seq_view(s).push(x@),
{
    assert(seq_view(s.push(x)) =~= seq_view(s).push(x@));
}

fn without_key<T: Record>(v: Vec<T>, k: &String) -> (r: Vec<T>)
    ensures
        seq_view(r@) == drop_key::<T>(seq_view(v@), k@),
{
    let mut r: Vec<T> = Vec::new();
    let mut i: usize = 0;
    while i < v.len()
        invariant
            i <= v.len(),
            seq_view(r@) == drop_key::<T>(seq_view(v@.take(i as int)), k@),
        decreases v.len() - i,
    {
        proof {
            lemma_seq_view_take(v@, i as int);
        }
        let kk = v[i].key();
        if *kk != *k {
            let d = v[i].duplicate();
            r.push(d);
            assert(seq_view(r@) =~= drop_key::<T>(seq_view(v@.take(i as int)), k@).push(v@[i as int]@));
        }
        i = i + 1;
    }
    assert(v@.take(v.len() as int) =~= v@);
    r
}

/// The records of `v` keyed by id, a later record replacing an earlier one.
pub(crate) fn dedup_records<T: Record>(v: &Vec<T>) -> (r: Vec<T>)
    ensures
        seq_view(r@) == dedup_last::<T>(seq_view(v@)),
{
    let mut r: Vec<T> = Vec::new();
    let mut i: usize = 0;
    assert(seq_view(v@.take(0)) =~= Seq::<T::V>::empty());
    while i < v.len()
        invariant
            i <= v.len(),
            seq_view(r@) == dedup_last::<T>(seq_view(v@.take(i as int))),
        decreases v.len() - i,
    {
        proof {
            lemma_seq_view_take(v@, i as int);
        }
        let kk = v[i].key();
        r = without_key(r, kk);
        let d = v[i].duplicate();
        r.push(d);
        assert(seq_view(r@) =~= drop_key::<T>(dedup_last::<T>(seq_view(v@.take(i as int))), T::key_of(v@[i as int]@)).push(v@[i as int]@));
        i = i + 1;
    }
    assert(v@.take(v.len() as int) =~= v@);
    r
}


/// The first record of `s` whose id is `id`.
pub open spec fn find_record<T: Record>(s: Seq<T::V>, id: Seq<char>) -> Option<T::V>
    decreases s.len(),
{
    if s.len() == 0 {
        None
    } else if T::key_of(s[0]) == id {
        Some(s[0])
    } else {
        find_record::<T>(s.drop_first(), id)
    }
}

/// Position of the first record of `v` whose id is `id`.
pub(crate) fn find_index<T: Record>(v: &Vec<T>, id: &String) -> (r: Option<usize>)
    ensures
        r matches Some(i) ==> i < v.len() && find_record::<T>(seq_view(v@), id@) == Some(v@[i as int]@),
        r is None ==> find_record::<T>(seq_view(v@), id@) is None,
{
    let mut i: usize = 0;
    assert(seq_view(v@).skip(0) =~= seq_view(v@));
    while i < v.len()
        invariant
            i <= v.len(),
            find_record::<T>(seq_view(v@), id@) == find_record::<T>(seq_view(v@).skip(i as int), id@),
        decreases v.len() - i,
    {
        let ghost rest = seq_view(v@).skip(i as int);
        assert(rest[0] == v@[i as int]@);
        if *v[i].key() == *id {
            return Some(i);
        }
        assert(rest.drop_first() =~= seq_view(v@).skip(i + 1));
        i = i + 1;
    }
    None
}

/// A record that belongs to a workspace.
pub trait Member: Record {
    /// The workspace of a record, by its view.
    spec fn workspace_of(v: Self::V) -> Seq<char>;

    fn workspace(&self) -> (w: &String)
        ensures
            w@ == Self::workspace_of(self@),
    ;
}

/// The records of `s` that belong to workspace `ws`, in order.
pub open spec fn in_workspace<T: Member>(s: Seq<T::V>, ws: Seq<char>) -> Seq<T::V>
    decreases s.len(),
{
    if s.len() == 0 {
        s
    } else {
        let r = in_workspace::<T>(s.drop_last(), ws);
        if T::workspace_of(s.last()) == ws {
            r.push(s.last())
        } else {
            r
        }
    }
}

/// The records of `v` that belong to workspace `ws`, in order.
pub(crate) fn members_of<T: Member>(v: &Vec<T>, ws: &String) -> (r: Vec<T>)
    ensures
        seq_view(r@) == in_workspace::<T>(seq_view(v@), ws@),
{
    let mut r: Vec<T> = Vec::new();
    let mut i: usize = 0;
    while i < v.len()
        invariant
            i <= v.len(),
            seq_view(r@) == in_workspace::<T>(seq_view(v@.take(i as int)), ws@),
        decreases v.len() - i,
    {
        proof {
            lemma_seq_view_take(v@, i as int);
        }
        if *v[i].workspace() == *ws {
            let d = v[i].duplicate();
            r.push(d);
            assert(seq_view(r@) =~= in_workspace::<T>(seq_view(v@.take(i as int)), ws@).push(v@[i as int]@));
        }
        i = i + 1;
    }
    assert(v@.take(v.len() as int) =~= v@);
    r
}

/// The elements of `s` at the positions `idx`, in that order.
pub open spec fn pick<V>(s: Seq<V>, idx: Seq<usize>) -> Seq<V> {
    Seq::new(idx.len(), |m: int| s[idx[m] as int])
}

/// The records of `v` at the positions `idx`, in that order.
pub(crate) fn pick_records<T: Record>(v: &Vec<T>, idx: &Vec<usize>) -> (r: Vec<T>)
    requires
        forall|m: int| 0 <= m < idx.len() ==> #[trigger] idx@[m] < v.len(),
    ensures
        seq_view(r@) == pick(seq_view(v@), idx@),
{
    let mut r: Vec<T> = Vec::new();
    let mut i: usize = 0;
    while i < idx.len()
        invariant
            i <= idx.len(),
            forall|m: int| 0 <= m < idx.len() ==> #[trigger] idx@[m] < v.len(),
            seq_view(r@) == pick(seq_view(v@), idx@.take(i as int)),
        decreases idx.len() - i,
    {
        let ghost before = seq_view(r@);
        let d = v[idx[i]].duplicate();
        r.push(d);
        assert(seq_view(r@) =~= before.push(v@[idx@[i as int] as int]@));
        i = i + 1;
        assert(seq_view(r@) =~= pick(seq_view(v@), idx@.take(i as int)));
    }
    assert(idx@.take(idx.len() as int) =~= idx@);
    r
}

/// Position of the first occurrence of `x` in `s`.
pub open spec fn first_index<A>(s: Seq<A>, x: A) -> Option<int>
    decreases s.len(),
{
    if s.len() == 0 {
        None
    } else if s[0] == x {
        Some(0)
    } else {
        match first_index(s.drop_first(), x) {
            Some(i) => Some(i + 1),
            None => None,
        }
    }
}

/// The first occurrence is where the scan stops: at `i` if `x` is there and
/// nowhere before, nowhere if it is not in the first `i` places and `i` is
/// the end.
pub proof fn lemma_first_index<A>(s: Seq<A>, x: A, i: int)
    requires
        0 <= i <= s.len(),
        forall|j: int| 0 <= j < i ==> s[j] != x,
    ensures
        i < s.len() && s[i] == x ==> first_index(s, x) == Some(i),
        i == s.len() ==> first_index(s, x) is None,
    decreases i,
{
    if i > 0 {
        lemma_first_index(s.drop_first(), x, i - 1);
    } else if s.len() > 0 {
    }
}

/// The first occurrence, if any, is a position of `x`.
pub proof fn lemma_first_index_found<A>(s: Seq<A>, x: A)
    ensures
        first_index(s, x) matches Some(i) ==> 0 <= i < s.len() && s[i] == x,
        first_index(s, x) is None ==> !s.contains(x),
    decreases s.len(),
{
    if s.len() > 0 {
        lemma_first_index_found(s.drop_first(), x);
        if s[0] != x && !s.drop_first().contains(x) {
            assert forall|j: int| 0 <= j < s.len() implies s[j] != x by {
                if j > 0 {
                    assert(s[j] == s.drop_first()[j - 1]);
                }
            }
        }
    }
}

} // verus!
