//! Choix des médias publiés.
//!
//! Le dossier source est une archive, le site est un récit. Trois règles :
//! tout média cité par une directive du récit est retenu d'office ;
//! `retenus` et `exclus` complètent le choix à la main, par identifiant ou
//! par motif ; en l'absence de liste et de directive, tout est retenu.
//! L'exclusion l'emporte sur tout.

use vstd::prelude::*;

use crate::noms::{inserer_trie, strictement_croissants, vues};
use crate::motif::{correspond, minuscules, motif_correspond};
use crate::texte::blanc;
use crate::overrides::identifiants;
use crate::scan::Media;

verus! {

/// La sélection déclarée à la main.
#[derive(Debug, Clone)]
pub struct Selection {
    /// Médias retenus. Vide, la liste ne restreint rien.
    pub retenus: Vec<String>,
    /// Médias écartés, quelle que soit leur présence ailleurs.
    pub exclus: Vec<String>,
}

impl Default for Selection {
    fn default() -> (r: Selection)
        ensures
            r.retenus@.len() == 0,
            r.exclus@.len() == 0,
    {
        Selection { retenus: Vec::new(), exclus: Vec::new() }
    }
}

#[derive(Debug, Clone)]
pub struct Bilan {
    pub publies: usize,
    pub ecartes: usize,
    /// Identifiants cités par le récit, donc retenus d'office.
    pub cites_par_le_recit: usize,
    /// Entrées de la sélection qui ne visent aucun média.
    pub inutilisees: Vec<String>,
    /// Vrai si aucune restriction n'est déclarée : tout est publié.
    pub tout_retenu: bool,
}

/// Aucune restriction : ni liste de retenus, ni citation.
pub open spec fn tout_retenu(selection: Selection, cites: Seq<Seq<char>>) -> bool {
    selection.retenus@.len() == 0 && cites.len() == 0
}

/// Une entrée écrite avec `*` ou `?` est un motif.
pub open spec fn est_motif(e: Seq<char>) -> bool {
    e.contains('*') || e.contains('?')
}

/// Une entrée de la sélection désigne un média par son identifiant, ou par
/// un motif qui le couvre, sans distinction de casse.
pub open spec fn designe(e: Seq<char>, id: Seq<char>) -> bool {
    e == id || (est_motif(e) && correspond(minuscules(e), minuscules(id)))
}

/// Une des entrées désigne ce média.
pub open spec fn designe_par(entrees: Seq<Seq<char>>, id: Seq<char>) -> bool {
    exists|k: int| 0 <= k < entrees.len() && designe(#[trigger] entrees[k], id)
}

/// La règle de publication : l'exclusion l'emporte sur tout ; sinon, un
/// média est publié si rien ne restreint, s'il est cité, ou s'il est retenu.
pub open spec fn est_publie(id: Seq<char>, selection: Selection, cites: Seq<Seq<char>>) -> bool {
    !designe_par(vues(selection.exclus@), id) && (tout_retenu(selection, cites) || cites.contains(id) || designe_par(
        vues(selection.retenus@),
        id,
    ))
}

/// Nombre de médias publiés selon la règle.
pub open spec fn nb_publies(m: Seq<Media>, selection: Selection, cites: Seq<Seq<char>>) -> nat
    decreases m.len(),
{
    if m.len() == 0 {
        0
    } else if est_publie(m.last().id@, selection, cites) {
        nb_publies(m.drop_last(), selection, cites) + 1
    } else {
        nb_publies(m.drop_last(), selection, cites)
    }
}

pub open spec fn message_entree(id: Seq<char>) -> Seq<char> {
    "« "@ + id + " » : aucun média de ce nom"@
}

/// L'entrée désigne au moins un des identifiants.
pub open spec fn vise(e: Seq<char>, ids: Seq<Seq<char>>) -> bool {
    exists|k: int| 0 <= k < ids.len() && designe(e, #[trigger] ids[k])
}

/// Les messages des entrées qui ne désignent aucun média présent.
pub open spec fn messages_absents(entrees: Seq<Seq<char>>, ids: Seq<Seq<char>>) -> Seq<Seq<char>>
    decreases entrees.len(),
{
    if entrees.len() == 0 {
        seq![]
    } else if vise(entrees.last(), ids) {
        messages_absents(entrees.drop_last(), ids)
    } else {
        messages_absents(entrees.drop_last(), ids).push(message_entree(entrees.last()))
    }
}

/// Les citations forment un ensemble : chacune n'y est qu'une fois.
pub open spec fn sans_doublon(s: Seq<Seq<char>>) -> bool {
    forall|i: int, j: int| 0 <= i < j < s.len() ==> s[i] != s[j]
}

/// Ce qu'une publication ne change pas d'un média.
pub open spec fn seul_publie_change(a: Media, b: Media) -> bool {
    &&& b.id == a.id
    &&& b.type_media == a.type_media
    &&& b.fichier_source == a.fichier_source
    &&& b.prise_le == a.prise_le
    &&& b.origine_date == a.origine_date
    &&& b.jour == a.jour
    &&& b.position == a.position
    &&& b.fiabilite == a.fiabilite
    &&& b.origine_position == a.origine_position
    &&& b.lieu == a.lieu
    &&& b.derives == a.derives
    &&& b.lqip == a.lqip
    &&& b.anomalies == a.anomalies
    &&& b.largeur == a.largeur
    &&& b.hauteur == a.hauteur
    &&& b.orientation == a.orientation
    &&& b.appareil == a.appareil
    &&& b.convention == a.convention
    &&& b.octets == a.octets
}

fn contient(v: &Vec<String>, x: &String) -> (r: bool)
    ensures
        r == vues(v@).contains(x@),
{
    let mut i: usize = 0;
    while i < v.len()
        invariant
            i <= v.len(),
            forall|k: int| 0 <= k < i ==> vues(v@)[k] != x@,
        decreases v.len() - i,
    {
        if v[i] == *x {
            assert(vues(v@)[i as int] == x@);
            return true;
        }
        i += 1;
    }
    false
}

fn est_motif_exec(e: &String) -> (r: bool)
    ensures
        r == est_motif(e@),
{
    let c = crate::texte::en_caracteres(e.as_str());
    let mut i: usize = 0;
    while i < c.len()
        invariant
            i <= c.len(),
            c@ == e@,
            forall|k: int| 0 <= k < i ==> c@[k] != '*' && c@[k] != '?',
        decreases c.len() - i,
    {
        if c[i] == '*' || c[i] == '?' {
            assert(c@[i as int] == '*' ==> e@.contains('*'));
            assert(c@[i as int] == '?' ==> e@.contains('?'));
            return true;
        }
        i += 1;
    }
    false
}

fn designe_exec(e: &String, id: &String) -> (r: bool)
    ensures
        r == designe(e@, id@),
{
    if *e == *id {
        return true;
    }
    est_motif_exec(e) && motif_correspond(e.as_str(), id.as_str())
}

fn designe_par_exec(v: &Vec<String>, id: &String) -> (r: bool)
    ensures
        r == designe_par(vues(v@), id@),
{
    let mut i: usize = 0;
    while i < v.len()
        invariant
            i <= v.len(),
            forall|k: int| 0 <= k < i ==> !designe(#[trigger] vues(v@)[k], id@),
        decreases v.len() - i,
    {
        if designe_exec(&v[i], id) {
            assert(designe(vues(v@)[i as int], id@));
            return true;
        }
        i += 1;
    }
    false
}

fn vise_exec(e: &String, v: &Vec<Media>) -> (r: bool)
    ensures
        r == vise(e@, identifiants(v@)),
{
    let mut i: usize = 0;
    while i < v.len()
        invariant
            i <= v.len(),
            forall|k: int| 0 <= k < i ==> !designe(e@, #[trigger] identifiants(v@)[k]),
        decreases v.len() - i,
    {
        if designe_exec(e, &v[i].id) {
            assert(designe(e@, identifiants(v@)[i as int]));
            return true;
        }
        i += 1;
    }
    false
}

fn signaler_absents(entrees: &Vec<String>, medias: &Vec<Media>, sortie: &mut Vec<String>)
    ensures
        vues(final(sortie)@) == vues(old(sortie)@) + messages_absents(vues(entrees@), identifiants(medias@)),
{
    let ghost e = vues(entrees@);
    let ghost depart = vues(sortie@);
    let mut i: usize = 0;
    while i < entrees.len()
        invariant
            i <= entrees.len(),
            e == vues(entrees@),
            vues(sortie@) == depart + messages_absents(e.take(i as int), identifiants(medias@)),
        decreases entrees.len() - i,
    {
        assert(e.take(i + 1).drop_last() =~= e.take(i as int));
        assert(e.take(i + 1).last() == entrees@[i as int]@);
        if !vise_exec(&entrees[i], medias) {
            let ghost avant = sortie@;
            let mut message = String::from_str("« ");
            message.append(entrees[i].as_str());
            message.append(" » : aucun média de ce nom");
            sortie.push(message);
            assert(vues(sortie@) =~= vues(avant).push(message_entree(entrees@[i as int]@)));
        }
        i += 1;
    }
    assert(e.take(e.len() as int) =~= e);
}

/// Renseigne le champ `publie` de chaque média, et dresse le bilan.
pub fn appliquer(medias: &mut Vec<Media>, selection: &Selection, cites: &Vec<String>) -> (b: Bilan)
    requires
        sans_doublon(vues(cites@)),
    ensures
        final(medias)@.len() == old(medias)@.len(),
        forall|k: int| 0 <= k < old(medias)@.len() ==> seul_publie_change(old(medias)@[k], #[trigger] final(medias)@[k]),
        forall|k: int| 0 <= k < old(medias)@.len() ==> (#[trigger] final(medias)@[k]).publie == est_publie(
            old(medias)@[k].id@,
            *selection,
            vues(cites@),
        ),
        b.tout_retenu == tout_retenu(*selection, vues(cites@)),
        b.cites_par_le_recit == cites@.len(),
        b.publies == nb_publies(old(medias)@, *selection, vues(cites@)),
        b.publies + b.ecartes == old(medias)@.len(),
        vues(b.inutilisees@) == messages_absents(vues(selection.retenus@), identifiants(old(medias)@))
            + messages_absents(vues(selection.exclus@), identifiants(old(medias)@)),
{
    let ghost avant = medias@;
    let ghost c = vues(cites@);
    let mut inutilisees: Vec<String> = Vec::new();
    signaler_absents(&selection.retenus, medias, &mut inutilisees);
    signaler_absents(&selection.exclus, medias, &mut inutilisees);
    assert(vues(inutilisees@) =~= messages_absents(vues(selection.retenus@), identifiants(avant))
        + messages_absents(vues(selection.exclus@), identifiants(avant)));

    // Sans liste de retenus ni citation, rien ne restreint : tout est publié.
    let tout = selection.retenus.len() == 0 && cites.len() == 0;

    let mut anciens: Vec<Media> = Vec::new();
    std::mem::swap(&mut anciens, medias);
    let mut publies: usize = 0;
    let mut ecartes: usize = 0;
    let n = anciens.len();
    for m in it: anciens.into_iter()
        invariant
            it.seq() == avant,
            avant.len() == n,
            it.index() <= n,
            c == vues(cites@),
            tout == tout_retenu(*selection, c),
            medias@.len() == it.index(),
            forall|k: int| 0 <= k < it.index() ==> seul_publie_change(avant[k], #[trigger] medias@[k]),
            forall|k: int| 0 <= k < it.index() ==> (#[trigger] medias@[k]).publie == est_publie(
                avant[k].id@,
                *selection,
                c,
            ),
            publies == nb_publies(avant.take(it.index() as int), *selection, c),
            publies + ecartes == it.index(),
    {
        let ghost i = it.index() as int;
        assert(avant.take(i + 1).drop_last() =~= avant.take(i));
        assert(avant.take(i + 1).last() == m);
        let mut m = m;
        let publie = if designe_par_exec(&selection.exclus, &m.id) {
            false
        } else {
            tout || contient(cites, &m.id) || designe_par_exec(&selection.retenus, &m.id)
        };
        m.publie = publie;
        if publie {
            publies = publies + 1;
        } else {
            ecartes = ecartes + 1;
        }
        medias.push(m);
    }
    assert(avant.take(avant.len() as int) =~= avant);
    Bilan {
        publies,
        ecartes,
        cites_par_le_recit: cites.len(),
        inutilisees,
        tout_retenu: tout,
    }
}

/// L'exclusion l'emporte sur tout, y compris sur une citation et sur une
/// liste de retenus : un média exclu n'est jamais publié.
pub proof fn loi_exclusion_prime(id: Seq<char>, selection: Selection, cites: Seq<Seq<char>>)
    requires
        designe_par(vues(selection.exclus@), id),
    ensures
        !est_publie(id, selection, cites),
{
}

/// Un média cité par le récit, et que nulle exclusion ne vise, est publié
/// sans avoir à le répéter dans la sélection.
pub proof fn loi_citation_retient(id: Seq<char>, selection: Selection, cites: Seq<Seq<char>>)
    requires
        cites.contains(id),
        !designe_par(vues(selection.exclus@), id),
    ensures
        est_publie(id, selection, cites),
{
}

/// Une entrée de `retenus` publie chaque média qu'elle désigne, par son
/// identifiant ou par un motif, tant que nulle exclusion ne le vise.
pub proof fn loi_retenu_publie(id: Seq<char>, selection: Selection, cites: Seq<Seq<char>>)
    requires
        designe_par(vues(selection.retenus@), id),
        !designe_par(vues(selection.exclus@), id),
    ensures
        est_publie(id, selection, cites),
{
}

/// Sans liste de retenus ni citation, tout ce qui n'est pas exclu est publié.
pub proof fn loi_sans_restriction_tout_publie(id: Seq<char>, selection: Selection, cites: Seq<Seq<char>>)
    requires
        selection.retenus@.len() == 0,
        cites.len() == 0,
        !designe_par(vues(selection.exclus@), id),
    ensures
        est_publie(id, selection, cites),
{
}


// ---------------------------------------------------------------------------
// Directives du récit
// ---------------------------------------------------------------------------

/// Premier indice de `x` dans `s`, ou -1.
pub open spec fn premier_car(s: Seq<char>, x: char) -> int
    decreases s.len(),
{
    if s.len() == 0 {
        -1
    } else if s[0] == x {
        0
    } else if premier_car(s.drop_first(), x) < 0 {
        -1
    } else {
        premier_car(s.drop_first(), x) + 1
    }
}

/// Premier indice d'un blanc dans `s`, ou -1.
pub open spec fn premier_blanc(s: Seq<char>) -> int
    decreases s.len(),
{
    if s.len() == 0 {
        -1
    } else if blanc(s[0]) {
        0
    } else if premier_blanc(s.drop_first()) < 0 {
        -1
    } else {
        premier_blanc(s.drop_first()) + 1
    }
}

/// Dernier indice d'un blanc dans `s`, ou -1.
pub open spec fn dernier_blanc(s: Seq<char>) -> int
    decreases s.len(),
{
    if s.len() == 0 {
        -1
    } else if blanc(s.last()) {
        s.len() - 1
    } else {
        dernier_blanc(s.drop_last())
    }
}

/// Une paire `::` commence en `k`.
pub open spec fn paire_en(s: Seq<char>, k: int) -> bool {
    s[k] == ':' && s[k + 1] == ':'
}

/// Premier indice d'une paire `::` dans `s`, ou -1.
pub open spec fn premiere_paire(s: Seq<char>) -> int
    decreases s.len(),
{
    if s.len() < 2 {
        -1
    } else if s[0] == ':' && s[1] == ':' {
        0
    } else if premiere_paire(s.drop_first()) < 0 {
        -1
    } else {
        premiere_paire(s.drop_first()) + 1
    }
}

proof fn lemme_premier_car(s: Seq<char>, x: char)
    ensures
        -1 <= premier_car(s, x) < s.len(),
        premier_car(s, x) >= 0 ==> s[premier_car(s, x)] == x,
        forall|k: int| 0 <= k < s.len() && (premier_car(s, x) < 0 || k < premier_car(s, x)) ==> s[k] != x,
    decreases s.len(),
{
    if s.len() > 0 && s[0] != x {
        lemme_premier_car(s.drop_first(), x);
        assert forall|k: int| 0 <= k < s.len() && (premier_car(s, x) < 0 || k < premier_car(s, x)) implies s[k] != x by {
            if k > 0 {
                assert(s[k] == s.drop_first()[k - 1]);
            }
        }
    }
}

proof fn lemme_premier_car_en(s: Seq<char>, x: char, i: int)
    requires
        0 <= i <= s.len(),
        forall|k: int| 0 <= k < i ==> s[k] != x,
        i < s.len() ==> s[i] == x,
    ensures
        premier_car(s, x) == (if i < s.len() { i } else { -1 }),
    decreases s.len(),
{
    if s.len() > 0 && i > 0 {
        assert forall|k: int| 0 <= k < i - 1 implies s.drop_first()[k] != x by {
            assert(s.drop_first()[k] == s[k + 1]);
        }
        lemme_premier_car_en(s.drop_first(), x, i - 1);
    }
}

proof fn lemme_premier_blanc_en(s: Seq<char>, i: int)
    requires
        0 <= i <= s.len(),
        forall|k: int| 0 <= k < i ==> !blanc(s[k]),
        i < s.len() ==> blanc(s[i]),
    ensures
        premier_blanc(s) == (if i < s.len() { i } else { -1 }),
    decreases s.len(),
{
    if s.len() > 0 && i > 0 {
        assert forall|k: int| 0 <= k < i - 1 implies !blanc(s.drop_first()[k]) by {
            assert(s.drop_first()[k] == s[k + 1]);
        }
        lemme_premier_blanc_en(s.drop_first(), i - 1);
    }
}

proof fn lemme_dernier_blanc_en(s: Seq<char>, i: int)
    requires
        -1 <= i < s.len(),
        forall|k: int| i < k < s.len() ==> !blanc(s[k]),
        i >= 0 ==> blanc(s[i]),
    ensures
        dernier_blanc(s) == i,
    decreases s.len(),
{
    if s.len() > 0 && i < s.len() - 1 {
        lemme_dernier_blanc_en(s.drop_last(), i);
    }
}

proof fn lemme_premiere_paire_en(s: Seq<char>, i: int)
    requires
        0 <= i,
        i + 1 <= s.len() || (i == s.len() && s.len() == 0),
        forall|k: int| 0 <= k < i ==> !paire_en(s, k),
        i + 1 < s.len() ==> paire_en(s, i),
    ensures
        premiere_paire(s) == (if i + 1 < s.len() { i } else { -1 }),
    decreases s.len(),
{
    if s.len() >= 2 && i > 0 {
        assert(!paire_en(s, 0));
        assert forall|k: int| 0 <= k < i - 1 implies !paire_en(s.drop_first(), k) by {
            assert(!paire_en(s, k + 1));
            assert(s.drop_first()[k] == s[k + 1]);
            assert(s.drop_first()[k + 1] == s[k + 2]);
        }
        lemme_premiere_paire_en(s.drop_first(), i - 1);
    }
}

/// Retire les blancs du début.
pub open spec fn sans_blancs_debut(s: Seq<char>) -> Seq<char>
    decreases s.len(),
{
    if s.len() > 0 && blanc(s[0]) {
        sans_blancs_debut(s.drop_first())
    } else {
        s
    }
}

/// Retire les blancs de la fin.
pub open spec fn sans_blancs_fin(s: Seq<char>) -> Seq<char>
    decreases s.len(),
{
    if s.len() > 0 && blanc(s.last()) {
        sans_blancs_fin(s.drop_last())
    } else {
        s
    }
}

/// Ce que `str::trim` laisse : ni blanc au début, ni blanc à la fin.
pub open spec fn rogner(s: Seq<char>) -> Seq<char> {
    sans_blancs_fin(sans_blancs_debut(s))
}

/// Les identifiants d'une valeur : ses morceaux entre virgules, rognés,
/// les vides écartés.
pub open spec fn ids_valeur(v: Seq<char>) -> Set<Seq<char>>
    decreases v.len(),
{
    let p = premier_car(v, ',');
    let tete = if p < 0 {
        v
    } else {
        v.take(p)
    };
    let ici = if rogner(tete).len() > 0 {
        set![rogner(tete)]
    } else {
        Set::empty()
    };
    if p < 0 || p + 1 > v.len() {
        ici
    } else {
        ici.union(ids_valeur(v.skip(p + 1)))
    }
}

/// La valeur d'un attribut, et ce qui la suit. Entre guillemets, elle se
/// lit jusqu'au guillemet fermant, espaces compris ; sans guillemets,
/// jusqu'au premier blanc.
pub open spec fn valeur_et_suite(apres: Seq<char>) -> (Seq<char>, Seq<char>) {
    if apres.len() > 0 && (apres[0] == '"' || apres[0] == '\'') {
        let b = premier_car(apres.skip(1), apres[0]);
        if b >= 0 && 2 + b <= apres.len() {
            (apres.subrange(1, 1 + b), apres.skip(2 + b))
        } else {
            (apres.skip(1), Seq::empty())
        }
    } else {
        let b = premier_blanc(apres);
        if b >= 0 && b <= apres.len() {
            (apres.take(b), apres.skip(b))
        } else {
            (apres, Seq::empty())
        }
    }
}

/// Les identifiants que portent les attributs `id` et `ids` d'un corps de
/// directive, lu attribut après attribut.
pub open spec fn ids_attributs(reste: Seq<char>) -> Set<Seq<char>>
    decreases reste.len(),
{
    let egal = premier_car(reste, '=');
    if egal < 0 || egal >= reste.len() {
        Set::empty()
    } else {
        let avant = reste.take(egal);
        let apres = reste.skip(egal + 1);
        let cle = avant.skip(dernier_blanc(avant) + 1);
        let (valeur, suite) = valeur_et_suite(apres);
        let ici = if cle == "id"@ || cle == "ids"@ {
            ids_valeur(valeur)
        } else {
            Set::empty()
        };
        if suite.len() < reste.len() {
            ici.union(ids_attributs(suite))
        } else {
            ici
        }
    }
}

/// Les identifiants d'une directive : entre sa première accolade ouvrante
/// et l'accolade fermante qui la suit.
pub open spec fn ids_directive(d: Seq<char>) -> Set<Seq<char>> {
    let debut = premier_car(d, '{');
    if debut < 0 || debut >= d.len() {
        Set::empty()
    } else {
        let fin = premier_car(d.skip(debut), '}');
        if fin < 1 || debut + fin > d.len() {
            Set::empty()
        } else {
            ids_attributs(d.subrange(debut + 1, debut + fin))
        }
    }
}

/// Les identifiants des morceaux successifs de `s`, découpé aux `::`.
pub open spec fn ids_morceaux(s: Seq<char>) -> Set<Seq<char>>
    decreases s.len(),
{
    let p = premiere_paire(s);
    if p < 0 || p + 2 > s.len() {
        ids_directive(s)
    } else {
        ids_directive(s.take(p)).union(ids_morceaux(s.skip(p + 2)))
    }
}

/// Les identifiants cités par un texte : ceux des directives, chacune étant
/// ce qui suit un `::`, jusqu'au suivant.
pub open spec fn ids_cites(texte: Seq<char>) -> Set<Seq<char>> {
    let p = premiere_paire(texte);
    if p < 0 || p + 2 > texte.len() {
        Set::empty()
    } else {
        ids_morceaux(texte.skip(p + 2))
    }
}

fn premier_car_exec(c: &Vec<char>, a: usize, b: usize, x: char) -> (r: usize)
    requires
        a <= b <= c.len(),
    ensures
        a <= r <= b,
        premier_car(c@.subrange(a as int, b as int), x) == (if r < b { r - a } else { -1 }),
{
    let mut i = a;
    while i < b && c[i] != x
        invariant
            a <= i <= b,
            b <= c.len(),
            forall|k: int| a <= k < i ==> c@[k] != x,
        decreases b - i,
    {
        i += 1;
    }
    proof {
        let s = c@.subrange(a as int, b as int);
        assert forall|k: int| 0 <= k < i - a implies s[k] != x by {
            assert(s[k] == c@[a + k]);
        }
        lemme_premier_car_en(s, x, i - a);
    }
    i
}

fn premier_blanc_exec(c: &Vec<char>, a: usize, b: usize) -> (r: usize)
    requires
        a <= b <= c.len(),
    ensures
        a <= r <= b,
        premier_blanc(c@.subrange(a as int, b as int)) == (if r < b { r - a } else { -1 }),
{
    let mut i = a;
    while i < b && !crate::texte::est_blanc(c[i])
        invariant
            a <= i <= b,
            b <= c.len(),
            forall|k: int| a <= k < i ==> !blanc(c@[k]),
        decreases b - i,
    {
        i += 1;
    }
    proof {
        let s = c@.subrange(a as int, b as int);
        assert forall|k: int| 0 <= k < i - a implies !blanc(s[k]) by {
            assert(s[k] == c@[a + k]);
        }
        lemme_premier_blanc_en(s, i - a);
    }
    i
}

/// Début du dernier mot de `[a, b)` : l'indice qui suit le dernier blanc.
fn apres_dernier_blanc(c: &Vec<char>, a: usize, b: usize) -> (r: usize)
    requires
        a <= b <= c.len(),
    ensures
        a <= r <= b,
        dernier_blanc(c@.subrange(a as int, b as int)) + 1 == r - a,
{
    let mut i = b;
    while i > a && !crate::texte::est_blanc(c[i - 1])
        invariant
            a <= i <= b,
            b <= c.len(),
            forall|k: int| i <= k < b ==> !blanc(c@[k]),
        decreases i - a,
    {
        i -= 1;
    }
    proof {
        let s = c@.subrange(a as int, b as int);
        assert forall|k: int| i - 1 - a < k < s.len() implies !blanc(s[k]) by {
            assert(s[k] == c@[a + k]);
        }
        lemme_dernier_blanc_en(s, i - 1 - a);
    }
    i
}

fn premiere_paire_exec(c: &Vec<char>, a: usize) -> (r: Option<usize>)
    requires
        a <= c.len(),
    ensures
        match r {
            Some(p) => a <= p && p + 2 <= c.len() && premiere_paire(c@.skip(a as int)) == p - a,
            None => premiere_paire(c@.skip(a as int)) == -1,
        },
{
    let mut i = a;
    while c.len() - i > 1 && !(c[i] == ':' && c[i + 1] == ':')
        invariant
            a <= i,
            i <= c.len(),
            i + 1 <= c.len() || c.len() == a,
            forall|k: int| a <= k < i ==> !paire_en(c@, k),
        decreases c.len() - i,
    {
        i += 1;
    }
    proof {
        let s = c@.skip(a as int);
        assert forall|k: int| 0 <= k < i - a implies !paire_en(s, k) by {
            assert(!paire_en(c@, a + k));
            assert(s[k] == c@[a + k]);
            assert(s[k + 1] == c@[a + k + 1]);
        }
        if i + 1 < c.len() {
            lemme_premiere_paire_en(s, i - a);
        } else if c.len() == a {
            lemme_premiere_paire_en(s, 0);
        } else {
            lemme_premiere_paire_en(s, i - a);
        }
    }
    if c.len() - i > 1 {
        Some(i)
    } else {
        None
    }
}

/// Les bornes de `[a, b)` une fois les blancs retirés aux deux bouts.
fn rogner_exec(c: &Vec<char>, a: usize, b: usize) -> (r: (usize, usize))
    requires
        a <= b <= c.len(),
    ensures
        a <= r.0 <= r.1 <= b,
        rogner(c@.subrange(a as int, b as int)) == c@.subrange(r.0 as int, r.1 as int),
{
    let mut x = a;
    while x < b && crate::texte::est_blanc(c[x])
        invariant
            a <= x <= b,
            b <= c.len(),
            sans_blancs_debut(c@.subrange(a as int, b as int)) == sans_blancs_debut(c@.subrange(x as int, b as int)),
        decreases b - x,
    {
        assert(c@.subrange(x as int, b as int).drop_first() =~= c@.subrange(x + 1, b as int));
        x += 1;
    }
    assert(sans_blancs_debut(c@.subrange(x as int, b as int)) == c@.subrange(x as int, b as int));
    let mut y = b;
    while y > x && crate::texte::est_blanc(c[y - 1])
        invariant
            x <= y <= b,
            b <= c.len(),
            sans_blancs_fin(c@.subrange(x as int, b as int)) == sans_blancs_fin(c@.subrange(x as int, y as int)),
        decreases y - x,
    {
        assert(c@.subrange(x as int, y as int).drop_last() =~= c@.subrange(x as int, y - 1));
        y -= 1;
    }
    (x, y)
}

fn extraire(c: &Vec<char>, a: usize, b: usize) -> (r: String)
    requires
        a <= b <= c.len(),
    ensures
        r@ == c@.subrange(a as int, b as int),
{
    let mut v: Vec<char> = Vec::new();
    let mut i = a;
    while i < b
        invariant
            a <= i <= b,
            b <= c.len(),
            v@ == c@.subrange(a as int, i as int),
        decreases b - i,
    {
        v.push(c[i]);
        i += 1;
        assert(v@ =~= c@.subrange(a as int, i as int));
    }
    crate::texte::en_chaine(&v)
}

proof fn lemme_inserer_ensemble(avant: Seq<String>, apres: Seq<String>, x: Seq<char>)
    requires
        forall|k: int| 0 <= k < apres.len() ==> (#[trigger] apres[k])@ == x || exists|j: int|
            0 <= j < avant.len() && avant[j]@ == apres[k]@,
        exists|k: int| 0 <= k < apres.len() && (#[trigger] apres[k])@ == x,
        forall|j: int| 0 <= j < avant.len() ==> exists|k: int|
            0 <= k < apres.len() && (#[trigger] apres[k])@ == (#[trigger] avant[j])@,
    ensures
        vues(apres).to_set() == vues(avant).to_set().insert(x),
{
    assert forall|y: Seq<char>| vues(apres).to_set().contains(y) <==> vues(avant).to_set().insert(x).contains(y) by {
        if vues(apres).to_set().contains(y) {
            assert(vues(apres).contains(y));
            let k = choose|k: int| 0 <= k < vues(apres).len() && vues(apres)[k] == y;
            if apres[k]@ != x {
                let j = choose|j: int| 0 <= j < avant.len() && avant[j]@ == apres[k]@;
                assert(vues(avant)[j] == y);
                assert(vues(avant).contains(y));
            }
        }
        if vues(avant).to_set().insert(x).contains(y) {
            if y == x {
                let k = choose|k: int| 0 <= k < apres.len() && (#[trigger] apres[k])@ == x;
                assert(vues(apres)[k] == y);
                assert(vues(apres).contains(y));
            } else {
                assert(vues(avant).contains(y));
                let j = choose|j: int| 0 <= j < vues(avant).len() && vues(avant)[j] == y;
                assert(avant[j]@ == y);
                let k = choose|k: int| 0 <= k < apres.len() && (#[trigger] apres[k])@ == (#[trigger] avant[j])@;
                assert(vues(apres)[k] == y);
                assert(vues(apres).contains(y));
            }
        }
    }
    assert(vues(apres).to_set() =~= vues(avant).to_set().insert(x));
}

fn ajouter(vus: &mut Vec<String>, x: String)
    requires
        strictement_croissants(vues(old(vus)@)),
    ensures
        strictement_croissants(vues(final(vus)@)),
        vues(final(vus)@).to_set() == vues(old(vus)@).to_set().insert(x@),
{
    let ghost avant = vus@;
    let ghost vx = x@;
    inserer_trie(vus, x);
    proof {
        lemme_inserer_ensemble(avant, vus@, vx);
    }
}

/// Ajoute les identifiants de la valeur `[a, b)`.
fn lire_valeur(c: &Vec<char>, a: usize, b: usize, vus: &mut Vec<String>)
    requires
        a <= b <= c.len(),
        strictement_croissants(vues(old(vus)@)),
    ensures
        strictement_croissants(vues(final(vus)@)),
        vues(final(vus)@).to_set() == vues(old(vus)@).to_set().union(ids_valeur(c@.subrange(a as int, b as int))),
{
    let ghost depart = vues(old(vus)@).to_set();
    let mut y = a;
    assert(c@.subrange(a as int, b as int) == c@.subrange(y as int, b as int));
    loop
        invariant
            a <= y <= b,
            b <= c.len(),
            strictement_croissants(vues(vus@)),
            depart == vues(old(vus)@).to_set(),
            depart.union(ids_valeur(c@.subrange(a as int, b as int))) == vues(vus@).to_set().union(
                ids_valeur(c@.subrange(y as int, b as int)),
            ),
        decreases b - y,
    {
        let ghost v = c@.subrange(y as int, b as int);
        let p = premier_car_exec(c, y, b, ',');
        let (ta, tb) = rogner_exec(c, y, p);
        let ghost tete = c@.subrange(y as int, p as int);
        let ghost ici = if rogner(tete).len() > 0 {
            set![rogner(tete)]
        } else {
            Set::<Seq<char>>::empty()
        };
        proof {
            if p < b {
                assert(v.take(p - y) =~= tete);
                assert(v.skip(p - y + 1) =~= c@.subrange(p + 1, b as int));
                assert(ids_valeur(v) == ici.union(ids_valeur(c@.subrange(p + 1, b as int))));
            } else {
                assert(v =~= tete);
                assert(ids_valeur(v) == ici);
            }
        }
        let ghost avant = vues(vus@).to_set();
        if ta < tb {
            let e = extraire(c, ta, tb);
            ajouter(vus, e);
            assert(vues(vus@).to_set() == avant.union(ici));
        } else {
            assert(c@.subrange(ta as int, tb as int).len() == 0);
            assert(ici =~= Set::<Seq<char>>::empty());
            assert(vues(vus@).to_set() =~= avant.union(ici));
        }
        if p >= b {
            assert(ids_valeur(c@.subrange(b as int, b as int)) =~= Set::<Seq<char>>::empty());
            assert(depart.union(ids_valeur(c@.subrange(a as int, b as int))) =~= vues(vus@).to_set());
            assert(vues(vus@).to_set() =~= vues(old(vus)@).to_set().union(ids_valeur(c@.subrange(a as int, b as int))));
            return;
        }
        assert(avant.union(ids_valeur(v)) =~= vues(vus@).to_set().union(ids_valeur(c@.subrange(p + 1, b as int))));
        y = p + 1;
    }
}


/// Vrai si `[a, b)` épelle `id` ou `ids`.
fn cle_d_identifiant(c: &Vec<char>, a: usize, b: usize) -> (r: bool)
    requires
        a <= b <= c.len(),
    ensures
        r == (c@.subrange(a as int, b as int) == "id"@ || c@.subrange(a as int, b as int) == "ids"@),
{
    proof {
        reveal_strlit("id");
        reveal_strlit("ids");
    }
    let n = b - a;
    let r = if n == 2 {
        c[a] == 'i' && c[a + 1] == 'd'
    } else if n == 3 {
        c[a] == 'i' && c[a + 1] == 'd' && c[a + 2] == 's'
    } else {
        false
    };
    proof {
        let k = c@.subrange(a as int, b as int);
        assert("id"@.len() == 2 && "id"@[0] == 'i' && "id"@[1] == 'd');
        assert("ids"@.len() == 3 && "ids"@[0] == 'i' && "ids"@[1] == 'd' && "ids"@[2] == 's');
        if n >= 2 {
            assert(k[0] == c@[a as int] && k[1] == c@[a + 1]);
        }
        if n >= 3 {
            assert(k[2] == c@[a + 2]);
        }
        if n == 2 && r {
            assert(k =~= "id"@);
        }
        if n == 3 && r {
            assert(k =~= "ids"@);
        }
    }
    r
}

/// Ajoute les identifiants des attributs du corps `[a, b)`.
fn lire_attributs(c: &Vec<char>, a: usize, b: usize, vus: &mut Vec<String>)
    requires
        a <= b <= c.len(),
        strictement_croissants(vues(old(vus)@)),
    ensures
        strictement_croissants(vues(final(vus)@)),
        vues(final(vus)@).to_set() == vues(old(vus)@).to_set().union(ids_attributs(c@.subrange(a as int, b as int))),
{
    let ghost depart = vues(old(vus)@).to_set();
    let mut x = a;
    loop
        invariant
            a <= x <= b,
            b <= c.len(),
            strictement_croissants(vues(vus@)),
            depart == vues(old(vus)@).to_set(),
            depart.union(ids_attributs(c@.subrange(a as int, b as int))) == vues(vus@).to_set().union(
                ids_attributs(c@.subrange(x as int, b as int)),
            ),
        decreases b - x,
    {
        let ghost reste = c@.subrange(x as int, b as int);
        let egal = premier_car_exec(c, x, b, '=');
        if egal >= b {
            assert(ids_attributs(reste) =~= Set::<Seq<char>>::empty());
            assert(vues(vus@).to_set() =~= vues(old(vus)@).to_set().union(ids_attributs(c@.subrange(a as int, b as int))));
            return;
        }
        let k0 = apres_dernier_blanc(c, x, egal);
        let ghost e = egal - x;
        let ghost avant = reste.take(e);
        let ghost apres = reste.skip(e + 1);
        assert(avant =~= c@.subrange(x as int, egal as int));
        assert(apres =~= c@.subrange(egal + 1, b as int));
        assert(avant.skip(dernier_blanc(avant) + 1) =~= c@.subrange(k0 as int, egal as int));
        let va: usize;
        let vb: usize;
        let suite: usize;
        if egal + 1 < b && (c[egal + 1] == '"' || c[egal + 1] == '\'') {
            let g = c[egal + 1];
            let q = premier_car_exec(c, egal + 2, b, g);
            assert(apres.skip(1) =~= c@.subrange(egal + 2, b as int));
            va = egal + 2;
            if q < b {
                vb = q;
                suite = q + 1;
                assert(apres.subrange(1, 1 + (q - egal - 2)) =~= c@.subrange(va as int, vb as int));
                assert(apres.skip(2 + (q - egal - 2)) =~= c@.subrange(suite as int, b as int));
            } else {
                vb = b;
                suite = b;
                assert(c@.subrange(suite as int, b as int) =~= Seq::<char>::empty());
            }
        } else {
            let q = premier_blanc_exec(c, egal + 1, b);
            va = egal + 1;
            vb = q;
            suite = q;
            if q < b {
                assert(apres.take(q - egal - 1) =~= c@.subrange(va as int, vb as int));
                assert(apres.skip(q - egal - 1) =~= c@.subrange(suite as int, b as int));
            } else {
                assert(apres =~= c@.subrange(va as int, vb as int));
                assert(c@.subrange(suite as int, b as int) =~= Seq::<char>::empty());
            }
        }
        assert(valeur_et_suite(apres) == (c@.subrange(va as int, vb as int), c@.subrange(suite as int, b as int)));
        let ghost ici = if c@.subrange(k0 as int, egal as int) == "id"@ || c@.subrange(k0 as int, egal as int) == "ids"@ {
            ids_valeur(c@.subrange(va as int, vb as int))
        } else {
            Set::<Seq<char>>::empty()
        };
        assert(ids_attributs(reste) == ici.union(ids_attributs(c@.subrange(suite as int, b as int))));
        let ghost avant_vus = vues(vus@).to_set();
        if cle_d_identifiant(c, k0, egal) {
            lire_valeur(c, va, vb, vus);
        } else {
            assert(avant_vus.union(ici) =~= avant_vus);
        }
        assert(avant_vus.union(ids_attributs(reste)) =~= vues(vus@).to_set().union(
            ids_attributs(c@.subrange(suite as int, b as int)),
        ));
        x = suite;
    }
}

/// Ajoute les identifiants de la directive `[a, b)`.
fn lire_directive(c: &Vec<char>, a: usize, b: usize, vus: &mut Vec<String>)
    requires
        a <= b <= c.len(),
        strictement_croissants(vues(old(vus)@)),
    ensures
        strictement_croissants(vues(final(vus)@)),
        vues(final(vus)@).to_set() == vues(old(vus)@).to_set().union(ids_directive(c@.subrange(a as int, b as int))),
{
    let ghost d = c@.subrange(a as int, b as int);
    let debut = premier_car_exec(c, a, b, '{');
    proof {
        lemme_premier_car(d, '{');
    }
    if debut >= b {
        assert(vues(vus@).to_set() =~= vues(old(vus)@).to_set().union(ids_directive(d)));
        return;
    }
    assert(d.skip(debut - a) =~= c@.subrange(debut as int, b as int));
    let fin = premier_car_exec(c, debut, b, '}');
    if fin >= b {
        assert(vues(vus@).to_set() =~= vues(old(vus)@).to_set().union(ids_directive(d)));
        return;
    }
    assert(d[debut - a] == '{');
    assert(c@[debut as int] == '{');
    assert(fin > debut);
    assert(d.subrange(debut - a + 1, debut - a + (fin - debut)) =~= c@.subrange(debut + 1, fin as int));
    lire_attributs(c, debut + 1, fin, vus);
}

/// Relève les identifiants cités par les directives du récit, de la forme
/// `::photo{id="..."}` ou `::galerie{ids="a,b,c"}`. La lecture est
/// tolérante : elle cherche les attributs `id` et `ids`, sans analyser le
/// Markdown. Les identifiants sont rendus rangés, chacun une fois.
pub fn identifiants_cites(texte: &str) -> (r: Vec<String>)
    ensures
        strictement_croissants(vues(r@)),
        vues(r@).to_set() == ids_cites(texte@),
{
    let c = crate::texte::en_caracteres(texte);
    let mut vus: Vec<String> = Vec::new();
    assert(vues(vus@).to_set() =~= Set::<Seq<char>>::empty());
    let premiere = premiere_paire_exec(&c, 0);
    assert(c@.skip(0) =~= c@);
    let mut x: usize = match premiere {
        Some(p) => p + 2,
        None => {
            return vus;
        },
    };
    loop
        invariant
            x <= c.len(),
            c@ == texte@,
            strictement_croissants(vues(vus@)),
            vues(vus@).to_set().union(ids_morceaux(c@.skip(x as int))) == ids_cites(texte@),
        decreases c.len() - x,
    {
        let ghost s = c@.skip(x as int);
        match premiere_paire_exec(&c, x) {
            None => {
                assert(s =~= c@.subrange(x as int, c.len() as int));
                lire_directive(&c, x, c.len(), &mut vus);
                return vus;
            },
            Some(q) => {
                assert(s.take(q - x) =~= c@.subrange(x as int, q as int));
                assert(s.skip(q - x + 2) =~= c@.skip(q + 2));
                let ghost avant = vues(vus@).to_set();
                lire_directive(&c, x, q, &mut vus);
                assert(avant.union(ids_morceaux(s)) =~= vues(vus@).to_set().union(ids_morceaux(c@.skip(q + 2))));
                x = q + 2;
            },
        }
    }
}

} // verus!
