//! The canonical listing order for entries: ascending by
//! `(published_ts, updated_ts, id)`, with absent timestamps sorting first
//! and the id as the final tie-break. This makes rendering order stable and
//! reproducible regardless of insertion or directory order.

use vstd::prelude::*;
use vstd::seq_lib::lemma_multiset_commutative;
use vstd::multiset::Multiset;
use crate::model::{Entry, EntryView, Feed};

verus! {

/// Lexicographic order on character sequences, by code point; on UTF-8
/// encoded strings this agrees with byte order.
pub open spec fn seq_le(a: Seq<char>, b: Seq<char>) -> bool
    decreases a.len(),
{
    if a.len() == 0 {
        true
    } else if b.len() == 0 {
        false
    } else if (a[0] as u32) < (b[0] as u32) {
        true
    } else if (a[0] as u32) > (b[0] as u32) {
        false
    } else {
        seq_le(a.drop_first(), b.drop_first())
    }
}

/// The sort key of an optional timestamp: absent values sort before every
/// present value.
pub open spec fn opt_ts_key(o: Option<i64>) -> int {
    match o {
        None => i64::MIN as int - 1,
        Some(v) => v as int,
    }
}

/// The listing order: `(published_ts, updated_ts, id)` ascending, absent
/// timestamps first, id as the final tie-break.
pub open spec fn entry_le(a: EntryView, b: EntryView) -> bool {
    opt_ts_key(a.published_ts) < opt_ts_key(b.published_ts) || (opt_ts_key(a.published_ts)
        == opt_ts_key(b.published_ts) && (opt_ts_key(a.updated_ts) < opt_ts_key(b.updated_ts) || (
    opt_ts_key(a.updated_ts) == opt_ts_key(b.updated_ts) && seq_le(a.id, b.id))))
}

/// Entries in listing order: every earlier element is at or before every
/// later one.
pub open spec fn sorted_entries(s: Seq<Entry>) -> bool {
    forall|i: int, j: int| 0 <= i < j < s.len() ==> entry_le(#[trigger] s[i]@, #[trigger] s[j]@)
}

proof fn lemma_seq_le_total(a: Seq<char>, b: Seq<char>)
    ensures
        seq_le(a, b) || seq_le(b, a),
    decreases a.len(),
{
    if a.len() > 0 && b.len() > 0 && (a[0] as u32) == (b[0] as u32) {
        lemma_seq_le_total(a.drop_first(), b.drop_first());
    }
}

proof fn lemma_seq_le_trans(a: Seq<char>, b: Seq<char>, c: Seq<char>)
    requires
        seq_le(a, b),
        seq_le(b, c),
    ensures
        seq_le(a, c),
    decreases a.len(),
{
    if a.len() > 0 && b.len() > 0 && c.len() > 0 && (a[0] as u32) == (b[0] as u32) && (b[0] as u32)
        == (c[0] as u32) {
        lemma_seq_le_trans(a.drop_first(), b.drop_first(), c.drop_first());
    }
}

/// The listing order is total: any two entries are comparable.
pub proof fn lemma_entry_le_total(a: EntryView, b: EntryView)
    ensures
        entry_le(a, b) || entry_le(b, a),
{
    lemma_seq_le_total(a.id, b.id);
}

/// The listing order is transitive.
pub proof fn lemma_entry_le_trans(a: EntryView, b: EntryView, c: EntryView)
    requires
        entry_le(a, b),
        entry_le(b, c),
    ensures
        entry_le(a, c),
{
    if opt_ts_key(a.published_ts) == opt_ts_key(c.published_ts) && opt_ts_key(a.updated_ts)
        == opt_ts_key(c.updated_ts) && !(opt_ts_key(a.published_ts) < opt_ts_key(b.published_ts))
        && !(opt_ts_key(b.published_ts) < opt_ts_key(c.published_ts)) && !(opt_ts_key(a.updated_ts)
        < opt_ts_key(b.updated_ts)) && !(opt_ts_key(b.updated_ts) < opt_ts_key(c.updated_ts)) {
        lemma_seq_le_trans(a.id, b.id, c.id);
    }
}

/// Lexicographic order on strings, by code point.
pub fn str_le(a: &str, b: &str) -> (r: bool)
    ensures
        r == seq_le(a@, b@),
{
    let an = a.unicode_len();
    let bn = b.unicode_len();
    let mut i: usize = 0;
    proof {
        assert(a@.skip(0) =~= a@);
        assert(b@.skip(0) =~= b@);
    }
    loop
        invariant
            0 <= i <= an,
            i <= bn,
            an == a@.len(),
            bn == b@.len(),
            seq_le(a@, b@) == seq_le(a@.skip(i as int), b@.skip(i as int)),
            seq_le(b@, a@) == seq_le(b@.skip(i as int), a@.skip(i as int)),
        decreases an - i,
    {
        if i == an {
            proof {
                assert(a@.skip(i as int).len() == 0);
            }
            return true;
        }
        if i == bn {
            proof {
                assert(b@.skip(i as int).len() == 0);
                assert(a@.skip(i as int).len() > 0);
            }
            return false;
        }
        let ca = a.get_char(i) as u32;
        let cb = b.get_char(i) as u32;
        proof {
            assert(a@.skip(i as int)[0] == a@[i as int]);
            assert(b@.skip(i as int)[0] == b@[i as int]);
            assert(a@.skip(i as int).drop_first() =~= a@.skip(i + 1));
            assert(b@.skip(i as int).drop_first() =~= b@.skip(i + 1));
        }
        if ca < cb {
            return true;
        }
        if ca > cb {
            return false;
        }
        i += 1;
    }
}

/// Whether `a` comes at or before `b` in the listing order.
pub fn entry_le_exec(a: &Entry, b: &Entry) -> (r: bool)
    ensures
        r == entry_le(a@, b@),
{
    let pa = ts_cmp_key(&a.published_ts);
    let pb = ts_cmp_key(&b.published_ts);
    if pa.0 != pb.0 || (pa.0 && pa.1 != pb.1) {
        return opt_ts_lt_exec(&a.published_ts, &b.published_ts);
    }
    let ua = ts_cmp_key(&a.updated_ts);
    let ub = ts_cmp_key(&b.updated_ts);
    if ua.0 != ub.0 || (ua.0 && ua.1 != ub.1) {
        return opt_ts_lt_exec(&a.updated_ts, &b.updated_ts);
    }
    str_le(a.id.as_str(), b.id.as_str())
}

/// Presence flag and value of an optional timestamp, for comparisons.
fn ts_cmp_key(o: &Option<i64>) -> (r: (bool, i64))
    ensures
        r.0 == (o is Some),
        o matches Some(v) ==> r.1 == v,
{
    match o {
        None => (false, 0),
        Some(v) => (true, *v),
    }
}

fn opt_ts_lt_exec(a: &Option<i64>, b: &Option<i64>) -> (r: bool)
    ensures
        r == (opt_ts_key(*a) < opt_ts_key(*b)),
{
    match (a, b) {
        (None, None) => false,
        (None, Some(_)) => true,
        (Some(_), None) => false,
        (Some(x), Some(y)) => *x < *y,
    }
}

proof fn lemma_to_multiset_insert(s: Seq<Entry>, p: int, x: Entry)
    requires
        0 <= p <= s.len(),
    ensures
        s.insert(p, x).to_multiset() =~= s.to_multiset().insert(x),
{
    broadcast use vstd::seq_lib::group_to_multiset_ensures;

    let a = s.subrange(0, p);
    let b = s.subrange(p, s.len() as int);
    assert(s =~= a + b);
    assert(s.insert(p, x) =~= a + (seq![x] + b));
    lemma_multiset_commutative(a, b);
    lemma_multiset_commutative(a, seq![x] + b);
    lemma_multiset_commutative(seq![x], b);
    assert(seq![x] =~= Seq::<Entry>::empty().push(x));
    assert(Seq::<Entry>::empty().to_multiset() =~= Multiset::<Entry>::empty());
    assert(seq![x].to_multiset() =~= Multiset::<Entry>::empty().insert(x));
}

/// Sort entries into the listing order. The result holds exactly the given
/// entries (as a multiset) and is sorted by `(published_ts, updated_ts, id)`
/// ascending.
pub fn sort_entries(entries: Vec<Entry>) -> (r: Vec<Entry>)
    ensures
        r@.to_multiset() == entries@.to_multiset(),
        sorted_entries(r@),
        r@.len() == entries@.len(),
{
    broadcast use vstd::seq_lib::group_to_multiset_ensures;

    let mut v = entries;
    let n = v.len();
    if n <= 1 {
        return v;
    }
    let mut i: usize = 1;
    while i < n
        invariant
            1 <= i <= n,
            n == v@.len(),
            v@.to_multiset() == entries@.to_multiset(),
            forall|a: int, b: int|
                0 <= a < b < i ==> entry_le(#[trigger] v@[a]@, #[trigger] v@[b]@),
        decreases n - i,
    {
        let ghost v1 = v@;
        let x = v.remove(i);
        proof {
            broadcast use vstd::seq_lib::group_to_multiset_ensures;

            assert(v@.to_multiset() =~= v1.to_multiset().remove(x));
        }
        let ghost v2 = v@;
        let mut p: usize = i;
        while p > 0 && !entry_le_exec(&v[p - 1], &x)
            invariant
                0 <= p <= i < n,
                n == v2.len() + 1,
                v@ == v2,
                x == v1[i as int],
                forall|j: int| p <= j < i ==> !entry_le(#[trigger] v2[j]@, x@),
            decreases p,
        {
            p -= 1;
        }
        proof {
            if p > 0 {
                lemma_entry_le_total(v2[p - 1]@, x@);
            }
        }
        v.insert(p, x);
        proof {
            broadcast use vstd::seq_lib::group_to_multiset_ensures;

            lemma_to_multiset_insert(v2, p as int, x);
            assert(v1.to_multiset().contains(x)) by {
                assert(v1[i as int] == x);
                assert(v1.contains(x));
            }
            assert(v@.to_multiset() =~= v1.to_multiset()) by {
                assert(v@.to_multiset() =~= v1.to_multiset().remove(x).insert(x));
                assert forall|y: Entry|
                    v1.to_multiset().remove(x).insert(x).count(y) == v1.to_multiset().count(
                        y,
                    ) by {}
            }
            // the new prefix is sorted: kept pairs were sorted, the inserted
            // element sits at or after everything at or before it and
            // strictly before everything it displaced
            assert(forall|j: int| 0 <= j < i ==> v2[j] == v1[j]);
            assert(forall|j: int| 0 <= j < p ==> v@[j] == v2[j]);
            assert(v@[p as int] == x);
            assert(forall|j: int| p < j <= i ==> v@[j] == v2[j - 1]);
            assert forall|a: int, b: int|
                0 <= a < b < i + 1 implies entry_le(#[trigger] v@[a]@, #[trigger] v@[b]@) by {
                if b < p as int {
                } else if b == p as int {
                    // v@[b] is x; a < p so v2[a] <= v2[p-1] <= x
                    if a < p - 1 {
                        lemma_entry_le_trans(v2[a]@, v2[p - 1]@, x@);
                    }
                } else {
                    // v@[b] is v2[b-1] with b-1 >= p
                    assert(!entry_le(v2[b - 1]@, x@));
                    lemma_entry_le_total(v2[b - 1]@, x@);
                    assert(entry_le(x@, v2[b - 1]@));
                    if a == p as int {
                    } else if a < p as int {
                        if p > 0 {
                            if a < p - 1 {
                                lemma_entry_le_trans(v2[a]@, v2[p - 1]@, x@);
                            }
                            lemma_entry_le_trans(v2[a]@, x@, v2[b - 1]@);
                        }
                    } else {
                        // both displaced: an old sorted pair
                        assert(entry_le(v2[a - 1]@, v2[b - 1]@));
                    }
                }
            }
        }
        i += 1;
    }
    v
}


/// Feeds in listing order: ascending by id.
pub open spec fn sorted_feeds(s: Seq<Feed>) -> bool {
    forall|i: int, j: int| 0 <= i < j < s.len() ==> seq_le(#[trigger] s[i]@.id, #[trigger] s[j]@.id)
}

proof fn lemma_to_multiset_insert_feed(s: Seq<Feed>, p: int, x: Feed)
    requires
        0 <= p <= s.len(),
    ensures
        s.insert(p, x).to_multiset() =~= s.to_multiset().insert(x),
{
    broadcast use vstd::seq_lib::group_to_multiset_ensures;

    let a = s.subrange(0, p);
    let b = s.subrange(p, s.len() as int);
    assert(s =~= a + b);
    assert(s.insert(p, x) =~= a + (seq![x] + b));
    lemma_multiset_commutative(a, b);
    lemma_multiset_commutative(a, seq![x] + b);
    lemma_multiset_commutative(seq![x], b);
    assert(seq![x] =~= Seq::<Feed>::empty().push(x));
    assert(Seq::<Feed>::empty().to_multiset() =~= Multiset::<Feed>::empty());
    assert(seq![x].to_multiset() =~= Multiset::<Feed>::empty().insert(x));
}

/// Sort feeds by id ascending. The result holds exactly the given feeds
/// (as a multiset).
pub fn sort_feeds(feeds: Vec<Feed>) -> (r: Vec<Feed>)
    ensures
        r@.to_multiset() == feeds@.to_multiset(),
        sorted_feeds(r@),
        r@.len() == feeds@.len(),
{
    broadcast use vstd::seq_lib::group_to_multiset_ensures;

    let mut v = feeds;
    let n = v.len();
    if n <= 1 {
        return v;
    }
    let mut i: usize = 1;
    while i < n
        invariant
            1 <= i <= n,
            n == v@.len(),
            v@.to_multiset() == feeds@.to_multiset(),
            forall|a: int, b: int|
                0 <= a < b < i ==> seq_le(#[trigger] v@[a]@.id, #[trigger] v@[b]@.id),
        decreases n - i,
    {
        let ghost v1 = v@;
        let x = v.remove(i);
        proof {
            broadcast use vstd::seq_lib::group_to_multiset_ensures;

            assert(v@.to_multiset() =~= v1.to_multiset().remove(x));
        }
        let ghost v2 = v@;
        let mut p: usize = i;
        while p > 0 && !str_le(v[p - 1].id.as_str(), x.id.as_str())
            invariant
                0 <= p <= i < n,
                n == v2.len() + 1,
                v@ == v2,
                x == v1[i as int],
                forall|j: int| p <= j < i ==> !seq_le(#[trigger] v2[j]@.id, x@.id),
            decreases p,
        {
            p -= 1;
        }
        proof {
            if p > 0 {
                lemma_seq_le_total(v2[p - 1]@.id, x@.id);
            }
        }
        v.insert(p, x);
        proof {
            broadcast use vstd::seq_lib::group_to_multiset_ensures;

            lemma_to_multiset_insert_feed(v2, p as int, x);
            assert(v1.to_multiset().contains(x)) by {
                assert(v1[i as int] == x);
                assert(v1.contains(x));
            }
            assert(v@.to_multiset() =~= v1.to_multiset()) by {
                assert(v@.to_multiset() =~= v1.to_multiset().remove(x).insert(x));
                assert forall|y: Feed|
                    v1.to_multiset().remove(x).insert(x).count(y) == v1.to_multiset().count(
                        y,
                    ) by {}
            }
            assert(forall|j: int| 0 <= j < i ==> v2[j] == v1[j]);
            assert(forall|j: int| 0 <= j < p ==> v@[j] == v2[j]);
            assert(v@[p as int] == x);
            assert(forall|j: int| p < j <= i ==> v@[j] == v2[j - 1]);
            assert forall|a: int, b: int|
                0 <= a < b < i + 1 implies seq_le(#[trigger] v@[a]@.id, #[trigger] v@[b]@.id) by {
                if b < p as int {
                } else if b == p as int {
                    if a < p - 1 {
                        lemma_seq_le_trans(v2[a]@.id, v2[p - 1]@.id, x@.id);
                    }
                } else {
                    assert(!seq_le(v2[b - 1]@.id, x@.id));
                    lemma_seq_le_total(v2[b - 1]@.id, x@.id);
                    assert(seq_le(x@.id, v2[b - 1]@.id));
                    if a == p as int {
                    } else if a < p as int {
                        if p > 0 {
                            if a < p - 1 {
                                lemma_seq_le_trans(v2[a]@.id, v2[p - 1]@.id, x@.id);
                            }
                            lemma_seq_le_trans(v2[a]@.id, x@.id, v2[b - 1]@.id);
                        }
                    } else {
                        assert(seq_le(v2[a - 1]@.id, v2[b - 1]@.id));
                    }
                }
            }
        }
        i += 1;
    }
    v
}

} // verus!
