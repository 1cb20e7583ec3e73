//! Lexicographic order on texts and on sequences of texts.
use vstd::prelude::*;

verus! {

/// `a` comes strictly before `b`, character by character.
pub open spec fn str_lt(a: Seq<char>, b: Seq<char>) -> bool
    decreases a.len(),
{
    if a.len() == 0 {
        b.len() > 0
    } else if b.len() == 0 {
        false
    } else if a[0] != b[0] {
        a[0] < b[0]
    } else {
        str_lt(a.drop_first(), b.drop_first())
    }
}

/// `a` comes strictly before `b`, component by component.
pub open spec fn seqs_lt(a: Seq<Seq<char>>, b: Seq<Seq<char>>) -> bool
    decreases a.len(),
{
    if a.len() == 0 {
        b.len() > 0
    } else if b.len() == 0 {
        false
    } else if a[0] != b[0] {
        str_lt(a[0], b[0])
    } else {
        seqs_lt(a.drop_first(), b.drop_first())
    }
}

pub proof fn lemma_str_lt_total(a: Seq<char>, b: Seq<char>)
    ensures
        !str_lt(a, a),
        a != b ==> (str_lt(a, b) || str_lt(b, a)),
        !(str_lt(a, b) && str_lt(b, a)),
    decreases a.len(),
{
    if a.len() > 0 {
        lemma_str_lt_total(a.drop_first(), a.drop_first());
    }
    if a.len() > 0 && b.len() > 0 {
        lemma_str_lt_total(a.drop_first(), b.drop_first());
        if a[0] == b[0] && a != b {
            assert(a =~= seq![a[0]] + a.drop_first());
            assert(b =~= seq![b[0]] + b.drop_first());
        }
    } else if a.len() > 0 {
    } else if b.len() > 0 {
    } else {
        assert(a =~= b);
    }
}

pub proof fn lemma_str_lt_trans(a: Seq<char>, b: Seq<char>, c: Seq<char>)
    requires
        str_lt(a, b),
        str_lt(b, c),
    ensures
        str_lt(a, c),
    decreases a.len(),
{
    if a.len() > 0 && b.len() > 0 && c.len() > 0 && a[0] == b[0] && b[0] == c[0] {
        lemma_str_lt_trans(a.drop_first(), b.drop_first(), c.drop_first());
    }
}

pub proof fn lemma_seqs_lt_total(a: Seq<Seq<char>>, b: Seq<Seq<char>>)
    ensures
        !seqs_lt(a, a),
        a != b ==> (seqs_lt(a, b) || seqs_lt(b, a)),
        !(seqs_lt(a, b) && seqs_lt(b, a)),
    decreases a.len(),
{
    if a.len() > 0 {
        lemma_seqs_lt_total(a.drop_first(), a.drop_first());
    }
    if a.len() > 0 && b.len() > 0 {
        lemma_str_lt_total(a[0], b[0]);
        lemma_seqs_lt_total(a.drop_first(), b.drop_first());
        if a[0] == b[0] && a != b {
            assert(a =~= seq![a[0]] + a.drop_first());
            assert(b =~= seq![b[0]] + b.drop_first());
        }
    } else if a.len() == 0 && b.len() == 0 {
        assert(a =~= b);
    }
}

pub proof fn lemma_seqs_lt_trans(a: Seq<Seq<char>>, b: Seq<Seq<char>>, c: Seq<Seq<char>>)
    requires
        seqs_lt(a, b),
        seqs_lt(b, c),
    ensures
        seqs_lt(a, c),
    decreases a.len(),
{
    if a.len() > 0 && b.len() > 0 && c.len() > 0 {
        if a[0] == b[0] && b[0] == c[0] {
            lemma_seqs_lt_trans(a.drop_first(), b.drop_first(), c.drop_first());
        } else if a[0] != b[0] && b[0] != c[0] {
            lemma_str_lt_trans(a[0], b[0], c[0]);
            lemma_str_lt_total(a[0], c[0]);
        }
    }
}

/// Whether `a` comes strictly before `b`.
pub fn str_less(a: &String, b: &String) -> (r: bool)
    ensures
        r == str_lt(a@, b@),
{
    let x = a.as_str();
    let y = b.as_str();
    let n = x.unicode_len();
    let m = y.unicode_len();
    let mut i: usize = 0;
    assert(a@.subrange(0, n as int) =~= a@);
    assert(b@.subrange(0, m as int) =~= b@);
    while i < n && i < m
        invariant
            x@ == a@,
            y@ == b@,
            n == a@.len(),
            m == b@.len(),
            i <= n,
            i <= m,
            a@.subrange(0, i as int) == b@.subrange(0, i as int),
            str_lt(a@, b@) == str_lt(a@.subrange(i as int, n as int), b@.subrange(i as int, m as int)),
        decreases n - i,
    {
        let c = x.get_char(i);
        let d = y.get_char(i);
        let ghost sa = a@.subrange(i as int, n as int);
        let ghost sb = b@.subrange(i as int, m as int);
        assert(sa[0] == c && sb[0] == d);
        if c != d {
            return c < d;
        }
        assert(sa.drop_first() =~= a@.subrange(i + 1, n as int));
        assert(sb.drop_first() =~= b@.subrange(i + 1, m as int));
        assert(a@.subrange(0, i + 1) =~= a@.subrange(0, i as int).push(c));
        assert(b@.subrange(0, i + 1) =~= b@.subrange(0, i as int).push(d));
        i = i + 1;
    }
    i < m && i == n
}

/// Whether `a` comes strictly before `b`, component by component.
pub fn strs_less(a: &Vec<&String>, b: &Vec<&String>) -> (r: bool)
    ensures
        r == seqs_lt(a@.map_values(|s: &String| s@), b@.map_values(|s: &String| s@)),
{
    let ghost av = a@.map_values(|s: &String| s@);
    let ghost bv = b@.map_values(|s: &String| s@);
    assert(av.subrange(0, av.len() as int) =~= av);
    assert(bv.subrange(0, bv.len() as int) =~= bv);
    let mut i: usize = 0;
    while i < a.len() && i < b.len()
        invariant
            av == a@.map_values(|s: &String| s@),
            bv == b@.map_values(|s: &String| s@),
            i <= a@.len(),
            i <= b@.len(),
            av.len() == a@.len(),
            bv.len() == b@.len(),
            seqs_lt(av, bv) == seqs_lt(av.subrange(i as int, av.len() as int), bv.subrange(i as int, bv.len() as int)),
        decreases a@.len() - i,
    {
        let ghost sa = av.subrange(i as int, av.len() as int);
        let ghost sb = bv.subrange(i as int, bv.len() as int);
        assert(sa[0] == a@[i as int]@ && sb[0] == b@[i as int]@);
        if *a[i] != *b[i] {
            return str_less(a[i], b[i]);
        }
        assert(sa.drop_first() =~= av.subrange(i + 1, av.len() as int));
        assert(sb.drop_first() =~= bv.subrange(i + 1, bv.len() as int));
        i = i + 1;
    }
    i < b.len() && i == a.len()
}

} // verus!
