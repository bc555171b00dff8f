//! Motifs de fichiers avec les jokers `*` et `?`, sans distinction de casse.
//!
//! `*` couvre une suite quelconque de caractères, vide comprise ; `?` un
//! caractère quelconque. Le parcours est glouton, avec retour sur la
//! dernière étoile rencontrée : il est prouvé équivalent à la définition
//! récursive du motif.

use vstd::prelude::*;

use crate::texte::{en_caracteres, minuscule};

verus! {

/// Le motif `m` couvre exactement le nom `n`.
pub open spec fn correspond(m: Seq<char>, n: Seq<char>) -> bool
    decreases m.len() + n.len(),
{
    if m.len() == 0 {
        n.len() == 0
    } else if m[0] == '*' {
        correspond(m.skip(1), n) || (n.len() > 0 && correspond(m, n.skip(1)))
    } else if n.len() == 0 {
        false
    } else if m[0] == '?' || m[0] == n[0] {
        correspond(m.skip(1), n.skip(1))
    } else {
        false
    }
}

/// Minuscules au sens d'Unicode, celles de `str::to_lowercase`.
pub uninterp spec fn minuscules(s: Seq<char>) -> Seq<char>;

/// Une chaîne tout en ASCII.
pub open spec fn ascii(s: Seq<char>) -> bool {
    forall|i: int| 0 <= i < s.len() ==> (#[trigger] s[i] as u32) < 128
}

/// Une chaîne ASCII en minuscules : A à Z deviennent a à z, le reste ne
/// change pas.
pub open spec fn minuscules_ascii(s: Seq<char>) -> Seq<char> {
    s.map_values(|c: char| minuscule(c))
}

/// `str::to_lowercase` de la bibliothèque standard : la chaîne en minuscules
/// Unicode, caractère par caractère selon les tables de la bibliothèque.
/// Pour une chaîne ASCII, la correspondance d'Unicode ne change que les
/// lettres A à Z, en a à z ; les autres caractères, `*` et `?` compris,
/// restent.
#[verifier::external_body]
fn en_minuscules(s: &str) -> (r: String)
    ensures
        r@ == minuscules(s@),
        ascii(s@) ==> r@ == minuscules_ascii(s@),
{
    s.to_lowercase()
}

/// Une étoile couvre n'importe quel suffixe du nom.
proof fn lemme_etoile(m: Seq<char>, n: Seq<char>)
    requires
        m.len() > 0,
        m[0] == '*',
    ensures
        correspond(m, n) == exists|k: int| 0 <= k <= n.len() && correspond(m.skip(1), #[trigger] n.skip(k)),
    decreases n.len(),
{
    assert(n.skip(0) =~= n);
    if n.len() > 0 {
        lemme_etoile(m, n.skip(1));
        if correspond(m, n.skip(1)) {
            let k = choose|k: int| 0 <= k <= n.skip(1).len() && correspond(m.skip(1), #[trigger] n.skip(1).skip(k));
            assert(n.skip(1).skip(k) =~= n.skip(k + 1));
        }
        if exists|k: int| 0 <= k <= n.len() && correspond(m.skip(1), #[trigger] n.skip(k)) {
            let k = choose|k: int| 0 <= k <= n.len() && correspond(m.skip(1), #[trigger] n.skip(k));
            if k > 0 {
                assert(n.skip(1).skip(k - 1) =~= n.skip(k));
            }
        }
    }
}

/// Le tronçon `m[a..b]` ne porte pas d'étoile.
pub open spec fn sans_etoile(m: Seq<char>, a: int, b: int) -> bool {
    forall|t: int| a <= t < b ==> m[t] != '*'
}

/// `m[a..b]` couvre `n[c..c + (b - a)]`, caractère par caractère.
pub open spec fn couvre_litteral(m: Seq<char>, a: int, b: int, n: Seq<char>, c: int) -> bool {
    &&& 0 <= c
    &&& c + (b - a) <= n.len()
    &&& forall|t: int| 0 <= t < b - a ==> (m[a + t] == '?' || m[a + t] == #[trigger] n[c + t])
}

/// Un tronçon sans étoile se parcourt caractère par caractère.
proof fn lemme_litteral(m: Seq<char>, a: int, b: int, n: Seq<char>, c: int)
    requires
        0 <= a <= b <= m.len(),
        0 <= c <= n.len(),
        sans_etoile(m, a, b),
    ensures
        correspond(m.skip(a), n.skip(c)) == (couvre_litteral(m, a, b, n, c) && correspond(
            m.skip(b),
            n.skip(c + (b - a)),
        )),
    decreases b - a,
{
    if a < b {
        assert(m.skip(a).skip(1) =~= m.skip(a + 1));
        assert(m.skip(a)[0] == m[a]);
        if c < n.len() {
            lemme_litteral(m, a + 1, b, n, c + 1);
            assert(n.skip(c)[0] == n[c]);
            assert(n.skip(c).skip(1) =~= n.skip(c + 1));
            if couvre_litteral(m, a + 1, b, n, c + 1) && (m[a] == '?' || m[a] == n[c]) {
                assert forall|t: int| 0 <= t < b - a implies (m[a + t] == '?' || m[a + t]
                    == #[trigger] n[c + t]) by {
                    if t > 0 {
                        assert(m[(a + 1) + (t - 1)] == '?' || m[(a + 1) + (t - 1)] == n[(c + 1) + (t
                            - 1)]);
                    }
                }
            }
            if couvre_litteral(m, a, b, n, c) {
                assert(m[a + 0] == '?' || m[a + 0] == n[c + 0]);
                assert forall|t: int| 0 <= t < b - (a + 1) implies (m[(a + 1) + t] == '?' || m[(a
                    + 1) + t] == #[trigger] n[(c + 1) + t]) by {
                    assert(m[a + (t + 1)] == '?' || m[a + (t + 1)] == n[c + (t + 1)]);
                }
            }
        }
    }
}

/// Un motif couvre le nom vide s'il n'est fait que d'étoiles.
proof fn lemme_vide(m: Seq<char>, i: int)
    requires
        0 <= i <= m.len(),
    ensures
        correspond(m.skip(i), Seq::<char>::empty()) == forall|t: int| i <= t < m.len() ==> m[t] == '*',
    decreases m.len() - i,
{
    if i < m.len() {
        lemme_vide(m, i + 1);
        assert(m.skip(i).skip(1) =~= m.skip(i + 1));
    }
}

/// Compare un nom à un motif, caractère pour caractère : la casse y compte,
/// `motif_correspond` les passe d'abord tous deux en minuscules.
pub fn correspond_car(m: &Vec<char>, n: &Vec<char>) -> (r: bool)
    ensures
        r == correspond(m@, n@),
{
    let mut i: usize = 0;
    let mut j: usize = 0;
    let mut etoile: Option<usize> = None;
    let mut reprise: usize = 0;
    assert(m@.skip(0) =~= m@);
    assert(n@.skip(0) =~= n@);
    while j < n.len()
        invariant
            i <= m.len(),
            j <= n.len(),
            reprise <= j,
            etoile is None ==> (correspond(m@, n@) == correspond(m@.skip(i as int), n@.skip(j as int))),
            etoile matches Some(e) ==> {
                &&& e < i
                &&& m@[e as int] == '*'
                &&& i - (e + 1) == j - reprise
                &&& sans_etoile(m@, e + 1, i as int)
                &&& couvre_litteral(m@, e + 1, i as int, n@, reprise as int)
                &&& correspond(m@, n@) == exists|k: int|
                    reprise <= k <= n.len() && correspond(m@.skip(e + 1), #[trigger] n@.skip(k))
            },
        decreases n.len() - reprise, n.len() - j, m.len() - i,
    {
        if i < m.len() && m[i] == '*' {
            proof {
                lemme_etoile(m@.skip(i as int), n@.skip(j as int));
                assert(m@.skip(i as int).skip(1) =~= m@.skip(i + 1));
                assert forall|k: int| 0 <= k <= n@.len() - j implies #[trigger] n@.skip(j as int).skip(k)
                    == n@.skip(j + k) by {
                    assert(n@.skip(j as int).skip(k) =~= n@.skip(j + k));
                }
                // Dans l'égalité attendue, l'existence se déplace de k vers j + k.
                let cible = exists|k: int| j <= k <= n.len() && correspond(m@.skip(i + 1), #[trigger] n@.skip(k));
                let ancienne = exists|k: int| 0 <= k <= n@.skip(j as int).len() && correspond(
                    m@.skip(i as int).skip(1),
                    #[trigger] n@.skip(j as int).skip(k),
                );
                if ancienne {
                    let k = choose|k: int| 0 <= k <= n@.skip(j as int).len() && correspond(
                        m@.skip(i as int).skip(1),
                        #[trigger] n@.skip(j as int).skip(k),
                    );
                    assert(n@.skip(j as int).skip(k) == n@.skip(j + k));
                    assert(correspond(m@.skip(i + 1), n@.skip(j + k)));
                }
                if cible {
                    let k = choose|k: int| j <= k <= n.len() && correspond(m@.skip(i + 1), #[trigger] n@.skip(k));
                    assert(n@.skip(j as int).skip(k - j) == n@.skip(k));
                }
                assert(ancienne == cible);
                match etoile {
                    None => {},
                    Some(e) => {
                        // Le tronçon entre les deux étoiles est parcouru : seul compte
                        // ce qui suit la nouvelle étoile.
                        lemme_litteral(m@, e + 1, i as int, n@, reprise as int);
                        assert(correspond(m@.skip(e + 1), n@.skip(reprise as int)) == correspond(
                            m@.skip(i as int),
                            n@.skip(j as int),
                        ));
                        if exists|k: int| reprise <= k <= n.len() && correspond(m@.skip(e + 1), #[trigger] n@.skip(k)) {
                            let k = choose|k: int| reprise <= k <= n.len() && correspond(m@.skip(e + 1), #[trigger] n@.skip(k));
                            if k > reprise {
                                lemme_litteral(m@, e + 1, i as int, n@, k);
                                lemme_etoile(m@.skip(i as int), n@.skip(k + (i - (e + 1))));
                                let k2 = choose|k2: int| 0 <= k2 <= n@.skip(k + (i - (e + 1))).len() && correspond(
                                    m@.skip(i as int).skip(1),
                                    #[trigger] n@.skip(k + (i - (e + 1))).skip(k2),
                                );
                                assert(n@.skip(k + (i - (e + 1))).skip(k2) =~= n@.skip(k + (i - (e + 1)) + k2));
                                assert(correspond(m@.skip(i + 1), n@.skip(k + (i - (e + 1)) + k2)));
                            }
                        }
                    },
                }
            }
            etoile = Some(i);
            reprise = j;
            i += 1;
        } else if i < m.len() && (m[i] == '?' || m[i] == n[j]) {
            proof {
                match etoile {
                    None => {
                        assert(m@.skip(i as int).skip(1) =~= m@.skip(i + 1));
                        assert(n@.skip(j as int).skip(1) =~= n@.skip(j + 1));
                    },
                    Some(e) => {
                        assert forall|t: int| e + 1 <= t < i + 1 implies m@[t] != '*' by {}
                        assert forall|t: int| 0 <= t < (i + 1) - (e + 1) implies (m@[(e + 1) + t] == '?'
                            || m@[(e + 1) + t] == #[trigger] n@[reprise + t]) by {
                            if t < i - (e + 1) {
                                assert(m@[(e + 1) + t] == '?' || m@[(e + 1) + t] == n@[reprise + t]);
                            }
                        }
                    },
                }
            }
            i += 1;
            j += 1;
        } else if let Some(e) = etoile {
            proof {
                // Le tronçon ne couvre pas le nom à partir de `reprise` : on
                // retente un caractère plus loin.
                lemme_litteral(m@, e + 1, i as int, n@, reprise as int);
                if i < m.len() {
                    assert(m@.skip(i as int)[0] == m@[i as int]);
                    assert(n@.skip(j as int)[0] == n@[j as int]);
                }
                assert(!correspond(m@.skip(i as int), n@.skip(j as int)));
                assert(!correspond(m@.skip(e + 1), n@.skip(reprise as int)));
                let ancienne = exists|k: int| reprise <= k <= n.len() && correspond(m@.skip(e + 1), #[trigger] n@.skip(k));
                let nouvelle = exists|k: int| reprise + 1 <= k <= n.len() && correspond(m@.skip(e + 1), #[trigger] n@.skip(k));
                if ancienne {
                    let k = choose|k: int| reprise <= k <= n.len() && correspond(m@.skip(e + 1), #[trigger] n@.skip(k));
                    assert(k != reprise);
                }
                assert(ancienne == nouvelle);
            }
            i = e + 1;
            reprise = reprise + 1;
            j = reprise;
        } else {
            proof {
                if i < m.len() {
                    assert(m@.skip(i as int)[0] == m@[i as int]);
                    assert(n@.skip(j as int)[0] == n@[j as int]);
                }
            }
            return false;
        }
    }
    proof {
        assert(n@.skip(n.len() as int) =~= Seq::<char>::empty());
        match etoile {
            None => {},
            Some(e) => {
                lemme_litteral(m@, e + 1, i as int, n@, reprise as int);
                if exists|k: int| reprise <= k <= n.len() && correspond(m@.skip(e + 1), #[trigger] n@.skip(k)) {
                    let k = choose|k: int| reprise <= k <= n.len() && correspond(m@.skip(e + 1), #[trigger] n@.skip(k));
                    if k > reprise {
                        lemme_litteral(m@, e + 1, i as int, n@, k);
                    }
                }
            },
        }
        lemme_vide(m@, i as int);
    }
    let debut_etoiles = i;
    while i < m.len() && m[i] == '*'
        invariant
            debut_etoiles <= i <= m.len(),
            forall|t: int| debut_etoiles <= t < i ==> m@[t] == '*',
        decreases m.len() - i,
    {
        i += 1;
    }
    i == m.len()
}

/// Compare un nom de fichier à un motif, avec `*` et `?`, sans distinction
/// de casse.
pub fn motif_correspond(motif: &str, nom: &str) -> (r: bool)
    ensures
        r == correspond(minuscules(motif@), minuscules(nom@)),
        ascii(motif@) ==> r == correspond(minuscules_ascii(motif@), minuscules(nom@)),
        ascii(motif@) && ascii(nom@) ==> r == correspond(minuscules_ascii(motif@), minuscules_ascii(nom@)),
{
    let m = en_caracteres(en_minuscules(motif).as_str());
    let n = en_caracteres(en_minuscules(nom).as_str());
    correspond_car(&m, &n)
}

/// Le motif fait d'une seule étoile couvre tous les noms.
pub proof fn loi_etoile_couvre_tout(n: Seq<char>)
    ensures
        correspond(minuscules_ascii(seq!['*']), n),
    decreases n.len(),
{
    let e = seq!['*'];
    assert(minuscules_ascii(e) =~= e);
    assert(e.skip(1) =~= Seq::<char>::empty());
    assert(e[0] == '*');
    if n.len() > 0 {
        loi_etoile_couvre_tout(n.skip(1));
        assert(correspond(e, n.skip(1)));
    } else {
        assert(correspond(e.skip(1), n));
    }
    assert(correspond(e, n));
}

proof fn lemme_sans_joker(m: Seq<char>, n: Seq<char>)
    requires
        forall|i: int| 0 <= i < m.len() ==> #[trigger] m[i] != '*' && m[i] != '?',
    ensures
        correspond(m, n) <==> m == n,
    decreases m.len() + n.len(),
{
    if m.len() > 0 && n.len() > 0 {
        let (a, b) = (m.skip(1), n.skip(1));
        assert forall|i: int| 0 <= i < a.len() implies #[trigger] a[i] != '*' && a[i] != '?' by {
            assert(a[i] == m[i + 1]);
        }
        lemme_sans_joker(a, b);
        if m[0] == n[0] && a == b {
            assert forall|i: int| 0 <= i < m.len() implies m[i] == n[i] by {
                if i > 0 {
                    assert(m[i] == a[i - 1]);
                    assert(n[i] == b[i - 1]);
                }
            }
            assert(m =~= n);
        }
        if m == n {
            assert(a =~= b);
        }
    } else if m.len() == 0 && n.len() == 0 {
        assert(m =~= n);
    }
}

/// Sans joker, un motif ne couvre que lui-même : la correspondance est
/// l'égalité des chaînes mises en minuscules.
pub proof fn loi_sans_joker(m: Seq<char>, n: Seq<char>)
    requires
        forall|i: int| 0 <= i < m.len() ==> #[trigger] m[i] != '*' && m[i] != '?',
    ensures
        correspond(m, n) <==> m == n,
        ascii(m) ==> (correspond(minuscules_ascii(m), n) <==> minuscules_ascii(m) == n),
{
    lemme_sans_joker(m, n);
    if ascii(m) {
        let l = minuscules_ascii(m);
        assert forall|i: int| 0 <= i < l.len() implies #[trigger] l[i] != '*' && l[i] != '?' by {
            assert((m[i] as u32) < 128);
            assert(m[i] != '*' && m[i] != '?');
        }
        lemme_sans_joker(l, n);
    }
}

} // verus!
