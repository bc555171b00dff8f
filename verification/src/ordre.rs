//! Ordre lexicographique des chaînes, celui de `String` et de `BTreeMap`.

use vstd::prelude::*;

use crate::texte::en_caracteres;

verus! {

/// `a` précède strictement `b`, caractère par caractère, un préfixe
/// précédant ce qu'il préfixe.
pub open spec fn lex_inf(a: Seq<char>, b: Seq<char>) -> bool
    decreases a.len(),
{
    if a.len() == 0 {
        b.len() > 0
    } else if b.len() == 0 {
        false
    } else if a[0] != b[0] {
        a[0] < b[0]
    } else {
        lex_inf(a.drop_first(), b.drop_first())
    }
}

pub proof fn lemme_irreflexif(a: Seq<char>)
    ensures
        !lex_inf(a, a),
    decreases a.len(),
{
    if a.len() > 0 {
        lemme_irreflexif(a.drop_first());
    }
}

pub proof fn lemme_trichotomie(a: Seq<char>, b: Seq<char>)
    ensures
        a == b || lex_inf(a, b) || lex_inf(b, a),
        !(lex_inf(a, b) && lex_inf(b, a)),
    decreases a.len(),
{
    if a.len() > 0 && b.len() > 0 {
        if a[0] == b[0] {
            lemme_trichotomie(a.drop_first(), b.drop_first());
            if a.drop_first() == b.drop_first() {
                assert(a =~= seq![a[0]] + a.drop_first());
                assert(b =~= seq![b[0]] + b.drop_first());
            }
        } else {
        }
    } else if a.len() == 0 && b.len() == 0 {
        assert(a =~= b);
    }
}

pub proof fn lemme_transitif(a: Seq<char>, b: Seq<char>, c: Seq<char>)
    requires
        lex_inf(a, b),
        lex_inf(b, c),
    ensures
        lex_inf(a, c),
    decreases a.len(),
{
    if a.len() > 0 && b.len() > 0 && c.len() > 0 {
        if a[0] == b[0] && b[0] == c[0] {
            lemme_transitif(a.drop_first(), b.drop_first(), c.drop_first());
        }
    }
}

/// Comparaison exécutable.
pub fn lex_inf_exec(a: &str, b: &str) -> (r: bool)
    ensures
        r == lex_inf(a@, b@),
{
    let x = en_caracteres(a);
    let y = en_caracteres(b);
    let mut i: usize = 0;
    assert(x@.skip(0) =~= x@);
    assert(y@.skip(0) =~= y@);
    while i < x.len() && i < y.len() && x[i] == y[i]
        invariant
            i <= x.len(),
            i <= y.len(),
            x@.subrange(0, i as int) == y@.subrange(0, i as int),
            lex_inf(x@, y@) == lex_inf(x@.skip(i as int), y@.skip(i as int)),
        decreases x.len() - i,
    {
        assert(x@.skip(i as int).drop_first() =~= x@.skip(i + 1));
        assert(y@.skip(i as int).drop_first() =~= y@.skip(i + 1));
        assert(x@.subrange(0, i + 1) =~= x@.subrange(0, i as int).push(x@[i as int]));
        assert(y@.subrange(0, i + 1) =~= y@.subrange(0, i as int).push(y@[i as int]));
        i += 1;
    }
    if i == x.len() {
        i < y.len()
    } else if i == y.len() {
        false
    } else {
        x[i] < y[i]
    }
}

} // verus!
