//! Les journées du récit : leur frontmatter.
//!
//! Le pipeline ne lit que les métadonnées. La lecture des fichiers et du YAML
//! se fait au bord ; ici se trouve ce qui délimite le frontmatter dans le
//! texte, la cohérence entre le nom d'un fichier et la date qu'il déclare,
//! et l'ordre des journées.

use vstd::prelude::*;

use crate::texte::{blanc, en_caracteres, en_chaine, est_blanc};

verus! {

/// Métadonnées d'une journée. Le jour est compté depuis le 1er janvier 1970.
#[derive(Debug, Clone)]
pub struct Journee {
    pub date: i64,
    pub titre: Option<String>,
    /// Point d'ancrage de la journée : c'est de lui qu'héritent les médias
    /// sans position. Référence un lieu du voyage.
    pub lieu: Option<String>,
    /// Lieu où l'on a dormi.
    pub camp: Option<String>,
    pub couverture: Option<String>,
}

/// Ce qui empêche de lire les journées.
#[derive(Debug, Clone)]
pub enum ErreurJours {
    /// Le dossier ou un fichier n'a pas pu être lu.
    Lecture { chemin: String, message: String },
    /// Le fichier ne commence pas par un frontmatter délimité par `---`.
    FrontmatterAbsent { chemin: String },
    /// Le frontmatter n'est pas un YAML de journée.
    Syntaxe { chemin: String, message: String },
    /// Le fichier déclare une autre date que celle de son nom.
    DateIncoherente { chemin: String, declaree: i64, attendue: i64 },
}

// ---------------------------------------------------------------------------
// Le frontmatter
// ---------------------------------------------------------------------------

/// Le texte privé de ses marques d'ordre des octets en tête.
pub open spec fn sans_bom(s: Seq<char>) -> Seq<char>
    decreases s.len(),
{
    if s.len() > 0 && s[0] == '\u{feff}' {
        sans_bom(s.drop_first())
    } else {
        s
    }
}

/// Ce qui suit le délimiteur d'ouverture `---` et son saut de ligne, si le
/// texte commence ainsi.
pub open spec fn apres_ouverture(s: Seq<char>) -> Option<Seq<char>> {
    let t = sans_bom(s);
    if t.len() >= 3 && t[0] == '-' && t[1] == '-' && t[2] == '-' {
        if t.len() >= 4 && t[3] == '\n' {
            Some(t.skip(4))
        } else if t.len() >= 5 && t[3] == '\r' && t[4] == '\n' {
            Some(t.skip(5))
        } else {
            None
        }
    } else {
        None
    }
}

/// Les caractères de `c`, à partir de `j`, sont blancs jusqu'à la fin de la
/// ligne.
pub open spec fn blanc_jusqu_en_fin_de_ligne(c: Seq<char>, j: int) -> bool
    decreases c.len() - j,
{
    if j < 0 || j >= c.len() {
        true
    } else if c[j] == '\n' {
        true
    } else {
        blanc(c[j]) && blanc_jusqu_en_fin_de_ligne(c, j + 1)
    }
}

/// Une ligne commence en `i` et se réduit à `---`, aux blancs de fin près.
pub open spec fn ligne_fermante(c: Seq<char>, i: int) -> bool {
    &&& 0 <= i
    &&& i + 3 <= c.len()
    &&& (i == 0 || c[i - 1] == '\n')
    &&& c[i] == '-' && c[i + 1] == '-' && c[i + 2] == '-'
    &&& blanc_jusqu_en_fin_de_ligne(c, i + 3)
}

/// Début de la première ligne fermante à partir de `i`, ou -1.
pub open spec fn premiere_fermante(c: Seq<char>, i: int) -> int
    decreases c.len() - i,
{
    if i < 0 || i >= c.len() {
        -1
    } else if ligne_fermante(c, i) {
        i
    } else {
        premiere_fermante(c, i + 1)
    }
}

/// Le frontmatter : ce qui sépare le délimiteur d'ouverture de la première
/// ligne réduite à `---`. Rien si le texte ne s'ouvre pas sur un délimiteur,
/// ou si aucune ligne ne le ferme.
pub open spec fn frontmatter_spec(s: Seq<char>) -> Option<Seq<char>> {
    match apres_ouverture(s) {
        None => None,
        Some(c) => {
            let f = premiere_fermante(c, 0);
            if f < 0 {
                None
            } else {
                Some(c.take(f))
            }
        },
    }
}

fn fermante_exec(c: &Vec<char>, i: usize) -> (r: bool)
    requires
        i < c@.len(),
    ensures
        r == ligne_fermante(c@, i as int),
{
    let n = c.len();
    if n - i < 3 {
        return false;
    }
    if i > 0 && c[i - 1] != '\n' {
        return false;
    }
    if c[i] != '-' || c[i + 1] != '-' || c[i + 2] != '-' {
        return false;
    }
    let mut k = i + 3;
    while k < n && c[k] != '\n'
        invariant
            i + 3 <= k <= n,
            n == c@.len(),
            blanc_jusqu_en_fin_de_ligne(c@, i + 3) == blanc_jusqu_en_fin_de_ligne(c@, k as int),
        decreases n - k,
    {
        if !est_blanc(c[k]) {
            return false;
        }
        k += 1;
    }
    true
}

/// Extrait le frontmatter d'un fichier Markdown : le texte YAML entre le
/// délimiteur d'ouverture, en tête du fichier après d'éventuelles marques
/// d'ordre des octets, et la première ligne réduite à `---`.
pub fn lire_frontmatter(texte: &str) -> (r: Option<String>)
    ensures
        match r {
            Some(y) => frontmatter_spec(texte@) == Some(y@),
            None => frontmatter_spec(texte@) is None,
        },
{
    let c = en_caracteres(texte);
    let n = c.len();
    let mut i: usize = 0;
    assert(c@.skip(0) =~= c@);
    while i < n && c[i] == '\u{feff}'
        invariant
            i <= n,
            n == c@.len(),
            c@ == texte@,
            sans_bom(c@) == sans_bom(c@.skip(i as int)),
        decreases n - i,
    {
        assert(c@.skip(i as int).drop_first() =~= c@.skip(i + 1));
        i += 1;
    }
    let ghost t = c@.skip(i as int);
    assert(sans_bom(c@) == t);
    if !(n - i >= 3 && c[i] == '-' && c[i + 1] == '-' && c[i + 2] == '-') {
        return None;
    }
    let debut: usize = if n - i > 3 && c[i + 3] == '\n' {
        i + 4
    } else if n - i > 4 && c[i + 3] == '\r' && c[i + 4] == '\n' {
        i + 5
    } else {
        return None;
    };
    let mut corps: Vec<char> = Vec::new();
    let mut k = debut;
    while k < n
        invariant
            debut <= k <= n,
            n == c@.len(),
            corps@ == c@.subrange(debut as int, k as int),
        decreases n - k,
    {
        corps.push(c[k]);
        k += 1;
    }
    assert(corps@ =~= t.skip(debut - i));
    assert(apres_ouverture(texte@) == Some(corps@));
    let m = corps.len();
    let mut j: usize = 0;
    while j < m
        invariant
            j <= m,
            m == corps@.len(),
            premiere_fermante(corps@, 0) == premiere_fermante(corps@, j as int),
            apres_ouverture(texte@) == Some(corps@),
        decreases m - j,
    {
        if fermante_exec(&corps, j) {
            let mut yaml: Vec<char> = Vec::new();
            let mut q: usize = 0;
            while q < j
                invariant
                    q <= j < m,
                    m == corps@.len(),
                    yaml@ == corps@.take(q as int),
                    apres_ouverture(texte@) == Some(corps@),
                    premiere_fermante(corps@, 0) == j,
                decreases j - q,
            {
                yaml.push(corps[q]);
                q += 1;
            }
            return Some(en_chaine(yaml.as_slice()));
        }
        j += 1;
    }
    None
}

// ---------------------------------------------------------------------------
// La date d'une journée
// ---------------------------------------------------------------------------

/// Le jour, compté depuis le 1er janvier 1970, que `chrono` lit dans un nom
/// au format `%Y-%m-%d`, ou rien.
pub uninterp spec fn date_iso(tige: Seq<char>) -> Option<i64>;

/// `NaiveDate::parse_from_str(tige, "%Y-%m-%d")` de `chrono`, la date rendue
/// par `signed_duration_since` depuis `NaiveDate::default()`, le 1er janvier
/// 1970, en jours. Le contrat nomme ce résultat sans dire quels textes
/// `chrono` accepte.
#[verifier::external_body]
fn lire_date_iso(tige: &str) -> (r: Option<i64>)
    ensures
        r == date_iso(tige@),
{
    chrono::NaiveDate::parse_from_str(tige, "%Y-%m-%d").ok().map(|d| d.signed_duration_since(chrono::NaiveDate::default()).num_days())
}

/// Le nom d'un fichier de journée est sa date : quand sa tige se lit comme
/// une date et que ce n'est pas celle que déclare le frontmatter, le récit
/// serait rangé au mauvais jour. Une tige qui ne se lit pas comme une date
/// n'engage à rien.
pub fn verifier_date(chemin: &str, tige: &str, journee: &Journee) -> (r: Result<(), ErreurJours>)
    ensures
        r is Err <==> (date_iso(tige@) matches Some(a) && a != journee.date),
        r matches Err(e) ==> (e matches ErreurJours::DateIncoherente { chemin: c, declaree, attendue }
            && c@ == chemin@ && declaree == journee.date && date_iso(tige@) == Some(attendue)),
{
    comparer_date(chemin, lire_date_iso(tige), journee)
}

/// La date lue dans le nom, s'il y en a une, confrontée à celle du
/// frontmatter.
pub fn comparer_date(chemin: &str, lue: Option<i64>, journee: &Journee) -> (r: Result<(), ErreurJours>)
    ensures
        r is Err <==> (lue matches Some(a) && a != journee.date),
        r matches Err(e) ==> (e matches ErreurJours::DateIncoherente { chemin: c, declaree, attendue }
            && c@ == chemin@ && declaree == journee.date && lue == Some(attendue)),
{
    match lue {
        Some(attendue) => {
            if attendue != journee.date {
                Err(ErreurJours::DateIncoherente { chemin: chemin.to_string(), declaree: journee.date, attendue })
            } else {
                Ok(())
            }
        },
        None => Ok(()),
    }
}

// ---------------------------------------------------------------------------
// L'ordre des journées
// ---------------------------------------------------------------------------

/// `x` se range après toutes les journées qui ne sont pas strictement
/// postérieures.
pub open spec fn inserer_journee(s: Seq<Journee>, x: Journee) -> Seq<Journee>
    decreases s.len(),
{
    if s.len() == 0 {
        seq![x]
    } else if x.date < s[0].date {
        seq![x] + s
    } else {
        seq![s[0]] + inserer_journee(s.drop_first(), x)
    }
}

/// Les journées rangées par date, stablement.
pub open spec fn tri_journees(t: Seq<Journee>) -> Seq<Journee>
    decreases t.len(),
{
    if t.len() == 0 {
        t
    } else {
        inserer_journee(tri_journees(t.drop_last()), t.last())
    }
}

proof fn lemme_inserer_journee(s: Seq<Journee>, x: Journee, p: int)
    requires
        0 <= p <= s.len(),
        forall|q: int| 0 <= q < p ==> !(x.date < (#[trigger] s[q]).date),
        p < s.len() ==> x.date < s[p].date,
    ensures
        inserer_journee(s, x) == s.insert(p, x),
    decreases s.len(),
{
    if s.len() == 0 {
        assert(s.insert(p, x) =~= seq![x]);
    } else if p == 0 {
        assert(s.insert(0, x) =~= seq![x] + s);
    } else {
        assert forall|q: int| 0 <= q < p - 1 implies !(x.date < (#[trigger] s.drop_first()[q]).date) by {
            assert(s.drop_first()[q] == s[q + 1]);
        }
        lemme_inserer_journee(s.drop_first(), x, p - 1);
        assert(s.insert(p, x) =~= seq![s[0]] + s.drop_first().insert(p - 1, x));
    }
}

/// Les journées sont rangées par date.
pub open spec fn journees_rangees(s: Seq<Journee>) -> bool {
    forall|i: int, j: int| 0 <= i < j < s.len() ==> (#[trigger] s[i]).date <= (#[trigger] s[j]).date
}

proof fn lemme_inserer_journee_rangee(s: Seq<Journee>, x: Journee)
    requires
        journees_rangees(s),
    ensures
        journees_rangees(inserer_journee(s, x)),
        inserer_journee(s, x).to_multiset() == s.to_multiset().insert(x),
    decreases s.len(),
{
    broadcast use vstd::seq_lib::group_to_multiset_ensures;
    if s.len() == 0 {
        assert(inserer_journee(s, x) =~= seq![x]);
        assert(seq![x] =~= Seq::<Journee>::empty().push(x));
    } else if x.date < s[0].date {
        assert(inserer_journee(s, x) =~= seq![x] + s);
        vstd::seq_lib::lemma_multiset_commutative(seq![x], s);
        assert(seq![x] =~= Seq::<Journee>::empty().push(x));
        let r = seq![x] + s;
        assert forall|i: int, j: int| 0 <= i < j < r.len() implies (#[trigger] r[i]).date <= (#[trigger] r[j]).date by {
            if i > 0 {
                assert(r[i] == s[i - 1] && r[j] == s[j - 1]);
            } else {
                assert(r[j] == s[j - 1]);
                if j - 1 > 0 {
                    assert(s[0].date <= s[j - 1].date);
                }
            }
        }
    } else {
        let reste = s.drop_first();
        assert(journees_rangees(reste)) by {
            assert forall|i: int, j: int| 0 <= i < j < reste.len() implies (#[trigger] reste[i]).date <= (#[trigger] reste[j]).date by {
                assert(reste[i] == s[i + 1] && reste[j] == s[j + 1]);
            }
        }
        lemme_inserer_journee_rangee(reste, x);
        let q = inserer_journee(reste, x);
        assert(inserer_journee(s, x) =~= seq![s[0]] + q);
        vstd::seq_lib::lemma_multiset_commutative(seq![s[0]], q);
        vstd::seq_lib::lemma_multiset_commutative(seq![s[0]], reste);
        assert(seq![s[0]] + reste =~= s);
        assert(seq![s[0]] =~= Seq::<Journee>::empty().push(s[0]));
        assert forall|k: int| 0 <= k < q.len() implies s[0].date <= (#[trigger] q[k]).date by {
            let e = q[k];
            assert(q.contains(e));
            vstd::seq_lib::to_multiset_contains(q, e);
            assert(q.to_multiset().count(e) > 0);
            if e != x {
                assert(reste.to_multiset().count(e) > 0);
                vstd::seq_lib::to_multiset_contains(reste, e);
                let m = choose|m: int| 0 <= m < reste.len() && reste[m] == e;
                assert(s[m + 1] == e);
            }
        }
        let r = seq![s[0]] + q;
        assert forall|i: int, j: int| 0 <= i < j < r.len() implies (#[trigger] r[i]).date <= (#[trigger] r[j]).date by {
            if i > 0 {
                assert(r[i] == q[i - 1] && r[j] == q[j - 1]);
            } else {
                assert(r[j] == q[j - 1]);
            }
        }
    }
}

/// Les journées triées sont rangées par date, et ce sont les mêmes : aucune
/// ne se perd, aucune ne s'ajoute.
pub proof fn loi_journees_rangees(t: Seq<Journee>)
    ensures
        journees_rangees(tri_journees(t)),
        tri_journees(t).to_multiset() == t.to_multiset(),
    decreases t.len(),
{
    broadcast use vstd::seq_lib::group_to_multiset_ensures;
    if t.len() > 0 {
        loi_journees_rangees(t.drop_last());
        lemme_inserer_journee_rangee(tri_journees(t.drop_last()), t.last());
        assert(t.drop_last().push(t.last()) =~= t);
    }
}

/// Range les journées par date. À date égale, l'ordre de lecture demeure.
pub fn trier_journees(v: Vec<Journee>) -> (r: Vec<Journee>)
    ensures
        r@ == tri_journees(v@),
{
    let ghost s = v@;
    let mut r: Vec<Journee> = Vec::new();
    let n = v.len();
    for x in it: v.into_iter()
        invariant
            it.seq() == s,
            n == s.len(),
            r@ == tri_journees(s.take(it.index() as int)),
    {
        let ghost i = it.index() as int;
        let ghost avant = r@;
        let mut p: usize = 0;
        while p < r.len() && !(x.date < r[p].date)
            invariant
                p <= r.len(),
                r@ == avant,
                forall|q: int| 0 <= q < p ==> !(x.date < (#[trigger] r@[q]).date),
            decreases r.len() - p,
        {
            p += 1;
        }
        proof {
            lemme_inserer_journee(r@, x, p as int);
            assert(s.take(i + 1).drop_last() =~= s.take(i));
            assert(s.take(i + 1).last() == x);
        }
        r.insert(p, x);
    }
    assert(s.take(s.len() as int) =~= s);
    r
}

} // verus!
