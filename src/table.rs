//! Records held in a `Vec` with unique keys, seen as a map from key to value.
use vstd::prelude::*;
use crate::order::{lemma_seqs_lt_total, lemma_seqs_lt_trans, seqs_lt};

verus! {

/// A record with a key that identifies it and a value that describes it.
pub trait Record: Sized {
    type K;

    type V;

    spec fn key(&self) -> Self::K;

    spec fn value(&self) -> Self::V;

    /// The components by which records are ordered, most significant first.
    spec fn rank(&self) -> Seq<Seq<char>>;

    proof fn lemma_rank_key(a: &Self, b: &Self)
        ensures
            a.rank() == b.rank() <==> a.key() == b.key(),
    ;

    fn before(&self, other: &Self) -> (r: bool)
        ensures
            r == seqs_lt(self.rank(), other.rank()),
    ;
}

/// The records come in strictly ascending order of rank.
pub open spec fn sorted<T: Record>(s: Seq<T>) -> bool {
    forall|i: int, j: int| 0 <= i < j < s.len() ==> seqs_lt(s[i].rank(), s[j].rank())
}

/// Replacing a record by one with the same key keeps the order.
pub proof fn lemma_sorted_update<T: Record>(s: Seq<T>, i: int, x: T)
    requires
        sorted(s),
        0 <= i < s.len(),
        s[i].key() == x.key(),
    ensures
        sorted(s.update(i, x)),
{
    T::lemma_rank_key(&s[i], &x);
    let t = s.update(i, x);
    assert forall|a: int, b: int| 0 <= a < b < t.len() implies seqs_lt(t[a].rank(), t[b].rank()) by {
        assert(seqs_lt(s[a].rank(), s[b].rank()));
    }
}

/// Puts `x`, whose key is new, where the order wants it.
pub fn insert_sorted<T: Record>(v: &mut Vec<T>, x: T)
    requires
        sorted(old(v)@),
        keys_unique(old(v)@),
        !table(old(v)@).contains_key(x.key()),
    ensures
        sorted(final(v)@),
        keys_unique(final(v)@),
        table(final(v)@) == table(old(v)@).insert(x.key(), x.value()),
{
    let ghost s = v@;
    proof {
        lemma_table_dom(s, x.key());
    }
    let mut i: usize = 0;
    while i < v.len() && v[i].before(&x)
        invariant
            v@ == s,
            i <= s.len(),
            forall|j: int| 0 <= j < i ==> seqs_lt(#[trigger] s[j].rank(), x.rank()),
        decreases s.len() - i,
    {
        i = i + 1;
    }
    v.insert(i, x);
    let ghost t = v@;
    proof {
        assert forall|a: int, b: int| 0 <= a < b < t.len() implies seqs_lt(t[a].rank(), t[b].rank()) by {
            if i < s.len() {
                T::lemma_rank_key(&s[i as int], &x);
                lemma_seqs_lt_total(s[i as int].rank(), x.rank());
            }
            if b == i {
                assert(t[a] == s[a]);
            } else if a == i {
                assert(t[b] == s[b - 1]);
                if b - 1 > i {
                    assert(seqs_lt(s[i as int].rank(), s[b - 1].rank()));
                    lemma_seqs_lt_trans(x.rank(), s[i as int].rank(), s[b - 1].rank());
                }
            } else if a < i && b > i {
                assert(t[a] == s[a] && t[b] == s[b - 1]);
                assert(seqs_lt(s[a].rank(), x.rank()));
                if i < s.len() {
                    if b - 1 > i {
                        assert(seqs_lt(s[i as int].rank(), s[b - 1].rank()));
                        lemma_seqs_lt_trans(x.rank(), s[i as int].rank(), s[b - 1].rank());
                    }
                    lemma_seqs_lt_trans(s[a].rank(), x.rank(), s[b - 1].rank());
                }
            } else if b < i {
                assert(t[a] == s[a] && t[b] == s[b]);
            } else {
                assert(t[a] == s[a - 1] && t[b] == s[b - 1]);
            }
        }
        assert forall|a: int, b: int| 0 <= a < b < t.len() implies t[a].key() != t[b].key() by {
            T::lemma_rank_key(&t[a], &t[b]);
            lemma_seqs_lt_total(t[a].rank(), t[b].rank());
        }
        assert forall|k: T::K| #[trigger] table(t).contains_key(k) == table(s).insert(x.key(), x.value()).contains_key(k) by {
            lemma_table_dom(t, k);
            lemma_table_dom(s, k);
            if table(s).contains_key(k) {
                let j = choose|j: int| 0 <= j < s.len() && s[j].key() == k;
                if j < i {
                    assert(t[j] == s[j]);
                } else {
                    assert(t[j + 1] == s[j]);
                }
            }
            if k == x.key() {
                assert(t[i as int] == x);
            }
            if table(t).contains_key(k) {
                let j = choose|j: int| 0 <= j < t.len() && t[j].key() == k;
                if j < i {
                    assert(t[j] == s[j]);
                } else if j > i {
                    assert(t[j] == s[j - 1]);
                }
            }
        }
        assert forall|k: T::K| #[trigger] table(t).contains_key(k) implies table(t)[k] == table(s).insert(x.key(), x.value())[k] by {
            lemma_table_dom(t, k);
            let j = choose|j: int| 0 <= j < t.len() && t[j].key() == k;
            lemma_table_index(t, j);
            if j < i {
                assert(t[j] == s[j]);
                lemma_table_index(s, j);
            } else if j > i {
                assert(t[j] == s[j - 1]);
                lemma_table_index(s, j - 1);
            }
        }
        assert(table(t) =~= table(s).insert(x.key(), x.value()));
    }
}

/// The map that a sequence of records stands for; a later record wins over an earlier
/// one with the same key.
pub open spec fn table<T: Record>(s: Seq<T>) -> Map<T::K, T::V>
    decreases s.len(),
{
    if s.len() == 0 {
        Map::empty()
    } else {
        table(s.drop_last()).insert(s.last().key(), s.last().value())
    }
}

/// No two records share a key.
pub open spec fn keys_unique<T: Record>(s: Seq<T>) -> bool {
    forall|i: int, j: int| 0 <= i < j < s.len() ==> s[i].key() != s[j].key()
}

/// The keys of the map are exactly the keys of the records.
pub proof fn lemma_table_dom<T: Record>(s: Seq<T>, k: T::K)
    ensures
        table(s).contains_key(k) <==> exists|i: int| 0 <= i < s.len() && s[i].key() == k,
    decreases s.len(),
{
    if s.len() > 0 {
        lemma_table_dom(s.drop_last(), k);
        if table(s).contains_key(k) && k != s.last().key() {
            let i = choose|i: int| 0 <= i < s.len() - 1 && s.drop_last()[i].key() == k;
            assert(s[i].key() == k);
        }
        if exists|i: int| 0 <= i < s.len() && s[i].key() == k {
            let i = choose|i: int| 0 <= i < s.len() && s[i].key() == k;
            if i < s.len() - 1 {
                assert(s.drop_last()[i].key() == k);
            }
        }
    }
}

/// With unique keys, each record's value is what the map holds at its key.
pub proof fn lemma_table_index<T: Record>(s: Seq<T>, i: int)
    requires
        keys_unique(s),
        0 <= i < s.len(),
    ensures
        table(s).contains_key(s[i].key()),
        table(s)[s[i].key()] == s[i].value(),
    decreases s.len(),
{
    if i < s.len() - 1 {
        assert(keys_unique(s.drop_last()));
        assert(s.drop_last()[i] == s[i]);
        lemma_table_index(s.drop_last(), i);
        assert(s[i].key() != s.last().key());
    }
}

/// Appending a record whose key is new inserts it into the map.
pub proof fn lemma_table_push<T: Record>(s: Seq<T>, x: T)
    requires
        keys_unique(s),
        !table(s).contains_key(x.key()),
    ensures
        keys_unique(s.push(x)),
        table(s.push(x)) == table(s).insert(x.key(), x.value()),
{
    assert(s.push(x).drop_last() =~= s);
    assert forall|i: int, j: int| 0 <= i < j < s.push(x).len() implies s.push(x)[i].key()
        != s.push(x)[j].key() by {
        if j == s.len() {
            if s[i].key() == x.key() {
                lemma_table_dom(s, x.key());
            }
        }
    }
}

/// Replacing a record by one with the same key updates the map at that key.
pub proof fn lemma_table_update<T: Record>(s: Seq<T>, i: int, x: T)
    requires
        keys_unique(s),
        0 <= i < s.len(),
        s[i].key() == x.key(),
    ensures
        keys_unique(s.update(i, x)),
        table(s.update(i, x)) == table(s).insert(x.key(), x.value()),
    decreases s.len(),
{
    let t = s.update(i, x);
    assert forall|a: int, b: int| 0 <= a < b < t.len() implies t[a].key() != t[b].key() by {
        assert(s[a].key() != s[b].key());
    }
    if i == s.len() - 1 {
        assert(t.drop_last() =~= s.drop_last());
        assert(table(s).insert(x.key(), x.value()) =~= table(t.drop_last()).insert(
            x.key(),
            x.value(),
        ));
    } else {
        assert(keys_unique(s.drop_last()));
        lemma_table_update(s.drop_last(), i, x);
        assert(t.drop_last() =~= s.drop_last().update(i, x));
        assert(s.last().key() != x.key());
        assert(table(t) =~= table(s).insert(x.key(), x.value()));
    }
}

} // verus!
