//! Tri stable par horodatage.
//!
//! Un rang est un horodatage, absent ou en secondes, et l'indice de ce
//! qu'il range. Le tri est stable : à horodatage égal, l'ordre d'arrivée
//! demeure, comme avec `sort_by_key` de la bibliothèque standard.

use vstd::prelude::*;

use crate::overrides::instant_inf;

verus! {

pub type Rang = (Option<i64>, usize);

/// `x` se range après tout ce qui ne le précède pas strictement.
pub open spec fn inserer_rang(s: Seq<Rang>, x: Rang) -> Seq<Rang>
    decreases s.len(),
{
    if s.len() == 0 {
        seq![x]
    } else if instant_inf(x.0, s[0].0) {
        seq![x] + s
    } else {
        seq![s[0]] + inserer_rang(s.drop_first(), x)
    }
}

/// Le tri stable des rangs, par horodatage, l'absence en premier.
pub open spec fn tri_rangs(t: Seq<Rang>) -> Seq<Rang>
    decreases t.len(),
{
    if t.len() == 0 {
        t
    } else {
        inserer_rang(tri_rangs(t.drop_last()), t.last())
    }
}

proof fn lemme_inserer_rang(s: Seq<Rang>, x: Rang, p: int)
    requires
        0 <= p <= s.len(),
        forall|q: int| 0 <= q < p ==> !instant_inf(x.0, (#[trigger] s[q]).0),
        p < s.len() ==> instant_inf(x.0, s[p].0),
    ensures
        inserer_rang(s, x) == s.insert(p, x),
    decreases s.len(),
{
    if s.len() == 0 {
        assert(s.insert(p, x) =~= seq![x]);
    } else if p == 0 {
        assert(s.insert(0, x) =~= seq![x] + s);
    } else {
        assert(!instant_inf(x.0, s[0].0));
        assert forall|q: int| 0 <= q < p - 1 implies !instant_inf(x.0, (#[trigger] s.drop_first()[q]).0) by {
            assert(s.drop_first()[q] == s[q + 1]);
        }
        lemme_inserer_rang(s.drop_first(), x, p - 1);
        assert(s.insert(p, x) =~= seq![s[0]] + s.drop_first().insert(p - 1, x));
    }
}

fn instant_inf_exec(a: Option<i64>, b: Option<i64>) -> (r: bool)
    ensures
        r == instant_inf(a, b),
{
    match (a, b) {
        (None, Some(_)) => true,
        (Some(x), Some(y)) => x < y,
        _ => false,
    }
}

/// Range les rangs par horodatage, stablement.
pub fn trier_rangs(v: Vec<Rang>) -> (r: Vec<Rang>)
    ensures
        r@ == tri_rangs(v@),
{
    let ghost s = v@;
    let mut r: Vec<Rang> = Vec::new();
    let mut i: usize = 0;
    while i < v.len()
        invariant
            i <= v.len(),
            s == v@,
            r@ == tri_rangs(s.take(i as int)),
        decreases v.len() - i,
    {
        let x = v[i];
        let ghost avant = r@;
        let mut p: usize = 0;
        while p < r.len() && !instant_inf_exec(x.0, r[p].0)
            invariant
                p <= r.len(),
                r@ == avant,
                forall|q: int| 0 <= q < p ==> !instant_inf(x.0, (#[trigger] r@[q]).0),
            decreases r.len() - p,
        {
            p += 1;
        }
        proof {
            lemme_inserer_rang(r@, x, p as int);
            assert(s.take(i + 1).drop_last() =~= s.take(i as int));
            assert(s.take(i + 1).last() == x);
        }
        r.insert(p, x);
        i += 1;
    }
    assert(s.take(s.len() as int) =~= s);
    r
}

proof fn lemme_inserer_rang_contenu(s: Seq<Rang>, x: Rang)
    ensures
        inserer_rang(s, x).len() == s.len() + 1,
        inserer_rang(s, x).to_multiset() == s.to_multiset().insert(x),
    decreases s.len(),
{
    broadcast use vstd::seq_lib::group_to_multiset_ensures;
    if s.len() == 0 {
        assert(inserer_rang(s, x) =~= seq![x]);
        assert(seq![x] =~= Seq::<Rang>::empty().push(x));
    } else if instant_inf(x.0, s[0].0) {
        assert(inserer_rang(s, x) =~= seq![x] + s);
        vstd::seq_lib::lemma_multiset_commutative(seq![x], s);
        assert(seq![x] =~= Seq::<Rang>::empty().push(x));
    } else {
        lemme_inserer_rang_contenu(s.drop_first(), x);
        vstd::seq_lib::lemma_multiset_commutative(seq![s[0]], inserer_rang(s.drop_first(), x));
        vstd::seq_lib::lemma_multiset_commutative(seq![s[0]], s.drop_first());
        assert(seq![s[0]] + s.drop_first() =~= s);
        assert(seq![s[0]] =~= Seq::<Rang>::empty().push(s[0]));
    }
}

/// Le tri ne perd ni n'invente aucun rang.
pub proof fn lemme_tri_rangs_contenu(t: Seq<Rang>)
    ensures
        tri_rangs(t).len() == t.len(),
        tri_rangs(t).to_multiset() == t.to_multiset(),
    decreases t.len(),
{
    broadcast use vstd::seq_lib::group_to_multiset_ensures;
    if t.len() > 0 {
        lemme_tri_rangs_contenu(t.drop_last());
        lemme_inserer_rang_contenu(tri_rangs(t.drop_last()), t.last());
        assert(t.drop_last().push(t.last()) =~= t);
    }
}

/// Aucun rang ne précède strictement un rang placé avant lui.
pub open spec fn rangs_ranges(s: Seq<Rang>) -> bool {
    forall|i: int, j: int| 0 <= i < j < s.len() ==> !instant_inf((#[trigger] s[j]).0, (#[trigger] s[i]).0)
}

proof fn lemme_inserer_rang_range(s: Seq<Rang>, x: Rang)
    requires
        rangs_ranges(s),
    ensures
        rangs_ranges(inserer_rang(s, x)),
    decreases s.len(),
{
    broadcast use vstd::seq_lib::group_to_multiset_ensures;
    if s.len() == 0 {
        assert(inserer_rang(s, x) =~= seq![x]);
    } else if instant_inf(x.0, s[0].0) {
        let r = seq![x] + s;
        assert(inserer_rang(s, x) =~= r);
        assert forall|i: int, j: int| 0 <= i < j < r.len() implies !instant_inf((#[trigger] r[j]).0, (#[trigger] r[i]).0) by {
            if i > 0 {
                assert(r[i] == s[i - 1] && r[j] == s[j - 1]);
            } else {
                assert(r[j] == s[j - 1]);
                if j - 1 > 0 {
                    assert(!instant_inf(s[j - 1].0, s[0].0));
                }
            }
        }
    } else {
        let reste = s.drop_first();
        assert(rangs_ranges(reste)) by {
            assert forall|i: int, j: int| 0 <= i < j < reste.len() implies !instant_inf((#[trigger] reste[j]).0, (#[trigger] reste[i]).0) by {
                assert(reste[i] == s[i + 1] && reste[j] == s[j + 1]);
            }
        }
        lemme_inserer_rang_range(reste, x);
        lemme_inserer_rang_contenu(reste, x);
        let q = inserer_rang(reste, x);
        assert(inserer_rang(s, x) =~= seq![s[0]] + q);
        assert forall|k: int| 0 <= k < q.len() implies !instant_inf((#[trigger] q[k]).0, s[0].0) by {
            let e = q[k];
            assert(q.contains(e));
            vstd::seq_lib::to_multiset_contains(q, e);
            assert(q.to_multiset().count(e) > 0);
            if e != x {
                assert(reste.to_multiset().count(e) > 0);
                vstd::seq_lib::to_multiset_contains(reste, e);
                let m = choose|m: int| 0 <= m < reste.len() && reste[m] == e;
                assert(s[m + 1] == e);
            }
        }
        let r = seq![s[0]] + q;
        assert forall|i: int, j: int| 0 <= i < j < r.len() implies !instant_inf((#[trigger] r[j]).0, (#[trigger] r[i]).0) by {
            if i > 0 {
                assert(r[i] == q[i - 1] && r[j] == q[j - 1]);
            } else {
                assert(r[j] == q[j - 1]);
            }
        }
    }
}

/// Les rangs triés sont rangés par horodatage, l'absence en premier, et ce
/// sont les mêmes.
pub proof fn loi_rangs_ranges(t: Seq<Rang>)
    ensures
        rangs_ranges(tri_rangs(t)),
        tri_rangs(t).to_multiset() == t.to_multiset(),
    decreases t.len(),
{
    lemme_tri_rangs_contenu(t);
    if t.len() > 0 {
        loi_rangs_ranges(t.drop_last());
        lemme_inserer_rang_range(tri_rangs(t.drop_last()), t.last());
    }
}

} // verus!
