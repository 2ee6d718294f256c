//! Lists of named values kept in increasing name order, one value per name.
use vstd::prelude::*;
use crate::registry::{lemma_lex_total, lemma_lex_transitive, lex_lt, lex_less};

verus! {

/// The characters of each name and value.
pub open spec fn pairs_view(p: Seq<(String, String)>) -> Seq<(Seq<char>, Seq<char>)> {
    Seq::new(p.len(), |i: int| (p[i].0@, p[i].1@))
}

pub open spec fn chars_pairs_view(p: Seq<(Vec<char>, Vec<char>)>) -> Seq<(Seq<char>, Seq<char>)> {
    Seq::new(p.len(), |i: int| (p[i].0@, p[i].1@))
}

/// `s` with `(k, v)` put in its place by name: in place of the pair named
/// `k`, else before the first pair whose name is greater.
pub open spec fn insert_by_key(s: Seq<(Seq<char>, Seq<char>)>, k: Seq<char>, v: Seq<char>) -> Seq<
    (Seq<char>, Seq<char>),
>
    decreases s.len(),
{
    if s.len() == 0 {
        seq![(k, v)]
    } else if s[0].0 == k {
        seq![(k, v)] + s.drop_first()
    } else if lex_lt(k, s[0].0) {
        seq![(k, v)] + s
    } else {
        seq![s[0]] + insert_by_key(s.drop_first(), k, v)
    }
}

/// The pairs of `p` ordered by name, each name once with its last value.
pub open spec fn by_key(p: Seq<(Seq<char>, Seq<char>)>) -> Seq<(Seq<char>, Seq<char>)>
    decreases p.len(),
{
    if p.len() == 0 {
        Seq::empty()
    } else {
        insert_by_key(by_key(p.drop_last()), p.last().0, p.last().1)
    }
}

/// Names strictly increasing, hence each once.
pub open spec fn strictly_keyed(s: Seq<(Seq<char>, Seq<char>)>) -> bool {
    forall|i: int, j: int| 0 <= i < j < s.len() ==> lex_lt(#[trigger] s[i].0, #[trigger] s[j].0)
}

/// The value of the last pair named `k`.
pub open spec fn last_value(p: Seq<(Seq<char>, Seq<char>)>, k: Seq<char>) -> Option<Seq<char>>
    decreases p.len(),
{
    if p.len() == 0 {
        None
    } else if p.last().0 == k {
        Some(p.last().1)
    } else {
        last_value(p.drop_last(), k)
    }
}

/// The value of the first pair named `k`.
pub open spec fn first_value(s: Seq<(Seq<char>, Seq<char>)>, k: Seq<char>) -> Option<Seq<char>>
    decreases s.len(),
{
    if s.len() == 0 {
        None
    } else if s[0].0 == k {
        Some(s[0].1)
    } else {
        first_value(s.drop_first(), k)
    }
}

proof fn lemma_insert_value(s: Seq<(Seq<char>, Seq<char>)>, k: Seq<char>, v: Seq<char>, key: Seq<char>)
    ensures
        first_value(insert_by_key(s, k, v), key) == if key == k {
            Some(v)
        } else {
            first_value(s, key)
        },
    decreases s.len(),
{
    let r = insert_by_key(s, k, v);
    if s.len() == 0 {
        assert(r =~= seq![(k, v)]);
        assert(r.drop_first() =~= Seq::<(Seq<char>, Seq<char>)>::empty());
        assert(first_value(r.drop_first(), key) is None);
    } else if s[0].0 == k {
        assert(r =~= seq![(k, v)] + s.drop_first());
        assert(r.drop_first() =~= s.drop_first());
    } else if lex_lt(k, s[0].0) {
        assert(r =~= seq![(k, v)] + s);
        assert(r.drop_first() =~= s);
    } else {
        lemma_insert_value(s.drop_first(), k, v, key);
        assert(r =~= seq![s[0]] + insert_by_key(s.drop_first(), k, v));
        assert(r.drop_first() =~= insert_by_key(s.drop_first(), k, v));
    }
}

proof fn lemma_insert_bound(s: Seq<(Seq<char>, Seq<char>)>, k: Seq<char>, v: Seq<char>, b: Seq<char>)
    requires
        lex_lt(b, k),
        forall|j: int| 0 <= j < s.len() ==> lex_lt(b, #[trigger] s[j].0),
    ensures
        forall|i: int|
            0 <= i < insert_by_key(s, k, v).len() ==> lex_lt(b, #[trigger] insert_by_key(s, k, v)[i].0),
    decreases s.len(),
{
    let r = insert_by_key(s, k, v);
    if s.len() == 0 {
    } else if s[0].0 == k {
        assert forall|i: int| 0 <= i < r.len() implies lex_lt(b, #[trigger] r[i].0) by {
            if i > 0 {
                assert(r[i] == s[i]);
            }
        }
    } else if lex_lt(k, s[0].0) {
        assert forall|i: int| 0 <= i < r.len() implies lex_lt(b, #[trigger] r[i].0) by {
            if i > 0 {
                assert(r[i] == s[i - 1]);
            }
        }
    } else {
        let t = s.drop_first();
        assert forall|j: int| 0 <= j < t.len() implies lex_lt(b, #[trigger] t[j].0) by {
            assert(t[j] == s[j + 1]);
        }
        lemma_insert_bound(t, k, v, b);
        assert forall|i: int| 0 <= i < r.len() implies lex_lt(b, #[trigger] r[i].0) by {
            if i > 0 {
                assert(r[i] == insert_by_key(t, k, v)[i - 1]);
            }
        }
    }
}

proof fn lemma_insert_sorted(s: Seq<(Seq<char>, Seq<char>)>, k: Seq<char>, v: Seq<char>)
    requires
        strictly_keyed(s),
    ensures
        strictly_keyed(insert_by_key(s, k, v)),
    decreases s.len(),
{
    let r = insert_by_key(s, k, v);
    if s.len() == 0 {
    } else if s[0].0 == k {
        assert forall|i: int, j: int| 0 <= i < j < r.len() implies lex_lt(
            #[trigger] r[i].0,
            #[trigger] r[j].0,
        ) by {
            assert(r[j] == s[j]);
            if i > 0 {
                assert(r[i] == s[i]);
            } else {
                assert(lex_lt(s[0].0, s[j].0));
            }
        }
    } else if lex_lt(k, s[0].0) {
        assert forall|i: int, j: int| 0 <= i < j < r.len() implies lex_lt(
            #[trigger] r[i].0,
            #[trigger] r[j].0,
        ) by {
            assert(r[j] == s[j - 1]);
            if i > 0 {
                assert(r[i] == s[i - 1]);
            } else if j > 1 {
                assert(lex_lt(s[0].0, s[j - 1].0));
                lemma_lex_transitive(k, s[0].0, s[j - 1].0);
            }
        }
    } else {
        let t = s.drop_first();
        lemma_lex_total(k, s[0].0);
        assert forall|i: int, j: int| 0 <= i < j < t.len() implies lex_lt(
            #[trigger] t[i].0,
            #[trigger] t[j].0,
        ) by {
            assert(lex_lt(s[i + 1].0, s[j + 1].0));
        }
        assert forall|j: int| 0 <= j < t.len() implies lex_lt(s[0].0, #[trigger] t[j].0) by {
            assert(lex_lt(s[0].0, s[j + 1].0));
        }
        lemma_insert_sorted(t, k, v);
        lemma_insert_bound(t, k, v, s[0].0);
        let rt = insert_by_key(t, k, v);
        assert forall|i: int, j: int| 0 <= i < j < r.len() implies lex_lt(
            #[trigger] r[i].0,
            #[trigger] r[j].0,
        ) by {
            assert(r[j] == rt[j - 1]);
            if i > 0 {
                assert(r[i] == rt[i - 1]);
            }
        }
    }
}

/// The pairs ordered by name hold each name once, in increasing order, with
/// the value of its last pair in the given list.
pub proof fn lemma_by_key(p: Seq<(Seq<char>, Seq<char>)>)
    ensures
        strictly_keyed(by_key(p)),
        forall|k: Seq<char>| #[trigger] first_value(by_key(p), k) == last_value(p, k),
    decreases p.len(),
{
    if p.len() > 0 {
        lemma_by_key(p.drop_last());
        lemma_insert_sorted(by_key(p.drop_last()), p.last().0, p.last().1);
        assert forall|k: Seq<char>| #[trigger] first_value(by_key(p), k) == last_value(p, k) by {
            lemma_insert_value(by_key(p.drop_last()), p.last().0, p.last().1, k);
        }
    }
}

proof fn lemma_insert_at(s: Seq<(Seq<char>, Seq<char>)>, k: Seq<char>, v: Seq<char>, p: int)
    requires
        0 <= p <= s.len(),
        forall|i: int| 0 <= i < p ==> #[trigger] s[i].0 != k && !lex_lt(k, s[i].0),
        p == s.len() || s[p].0 == k || lex_lt(k, s[p].0),
    ensures
        insert_by_key(s, k, v) == if p < s.len() && s[p].0 == k {
            s.take(p) + seq![(k, v)] + s.skip(p + 1)
        } else {
            s.take(p) + seq![(k, v)] + s.skip(p)
        },
    decreases p,
{
    if p > 0 {
        let t = s.drop_first();
        assert forall|i: int| 0 <= i < p - 1 implies #[trigger] t[i].0 != k && !lex_lt(k, t[i].0) by {
            assert(t[i] == s[i + 1]);
        }
        lemma_insert_at(t, k, v, p - 1);
        if p < s.len() && s[p].0 == k {
            assert(seq![s[0]] + (t.take(p - 1) + seq![(k, v)] + t.skip(p)) =~= s.take(p) + seq![(k, v)]
                + s.skip(p + 1));
        } else {
            assert(seq![s[0]] + (t.take(p - 1) + seq![(k, v)] + t.skip(p - 1)) =~= s.take(p) + seq![
                (k, v),
            ] + s.skip(p));
        }
    } else {
        if s.len() > 0 && s[0].0 == k {
            assert(seq![(k, v)] + s.drop_first() =~= s.take(0) + seq![(k, v)] + s.skip(1));
        } else {
            assert(seq![(k, v)] + s =~= s.take(0) + seq![(k, v)] + s.skip(0));
        }
    }
}

fn chars_eq(a: &Vec<char>, b: &Vec<char>) -> (r: bool)
    ensures
        r == (a@ == b@),
{
    if a.len() != b.len() {
        return false;
    }
    let mut i: usize = 0;
    while i < a.len()
        invariant
            a@.len() == b@.len(),
            i <= a@.len(),
            forall|j: int| 0 <= j < i ==> a@[j] == b@[j],
        decreases a@.len() - i,
    {
        if a[i] != b[i] {
            return false;
        }
        i = i + 1;
    }
    assert(a@ =~= b@);
    true
}

/// Puts `(k, v)` in its place by name.
pub fn insert_by_key_exec(s: &mut Vec<(Vec<char>, Vec<char>)>, k: Vec<char>, v: Vec<char>)
    ensures
        chars_pairs_view(final(s)@) == insert_by_key(chars_pairs_view(old(s)@), k@, v@),
{
    let ghost sv = chars_pairs_view(s@);
    let mut p: usize = 0;
    while p < s.len() && !chars_eq(&s[p].0, &k) && !lex_less(&k, &s[p].0)
        invariant
            p <= s@.len(),
            sv == chars_pairs_view(s@),
            forall|i: int| 0 <= i < p ==> #[trigger] sv[i].0 != k@ && !lex_lt(k@, sv[i].0),
        decreases s@.len() - p,
    {
        assert(sv[p as int].0 == s@[p as int].0@);
        p = p + 1;
    }
    let ghost kv = k@;
    let ghost vv = v@;
    if p < s.len() && chars_eq(&s[p].0, &k) {
        proof {
            lemma_insert_at(sv, kv, vv, p as int);
        }
        s.remove(p);
        s.insert(p, (k, v));
        assert(chars_pairs_view(s@) =~= sv.take(p as int) + seq![(kv, vv)] + sv.skip(p + 1));
    } else {
        proof {
            if p < s.len() {
                assert(sv[p as int].0 == s@[p as int].0@);
            }
            lemma_insert_at(sv, kv, vv, p as int);
        }
        s.insert(p, (k, v));
        assert(chars_pairs_view(s@) =~= sv.take(p as int) + seq![(kv, vv)] + sv.skip(p as int));
    }
}

} // verus!
