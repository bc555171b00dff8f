//! Les lignes chiffrées du récapitulatif : volumétrie, clones, surcharges,
//! traces. Le bord les imprime telles quelles.

use vstd::prelude::*;
use vstd::string::StringExecFns;

use crate::emit::{octets_lisibles, octets_lisibles_spec, pourcent, pourcent_spec, Statistiques};
use crate::noms::vues;
use crate::overrides::{somme_lots, Journal};
use crate::texte::{decimal, ecrire_decimal};

verus! {

fn ecrire_nombre(n: usize) -> (r: String)
    ensures
        r@ == decimal(n as nat),
{
    ecrire_decimal(n as u64)
}

/// La ligne de volumétrie : médias, photos, vidéos, et les octets, en
/// unités décimales.
pub open spec fn ligne_volumetrie_spec(s: Statistiques) -> Seq<char> {
    "  "@ + decimal(s.total as nat) + " médias      "@ + decimal(s.photos as nat) + " photos, "@ + decimal(
        s.videos as nat,
    ) + " vidéos, "@ + octets_lisibles_spec(s.octets as nat) + " dont "@ + octets_lisibles_spec(s.octets_video as nat)
        + " de vidéo"@
}

pub fn ligne_volumetrie(s: &Statistiques) -> (r: String)
    ensures
        r@ == ligne_volumetrie_spec(*s),
{
    let mut r = String::from_str("  ");
    r.append(ecrire_nombre(s.total).as_str());
    r.append(" médias      ");
    r.append(ecrire_nombre(s.photos).as_str());
    r.append(" photos, ");
    r.append(ecrire_nombre(s.videos).as_str());
    r.append(" vidéos, ");
    r.append(octets_lisibles(s.octets).as_str());
    r.append(" dont ");
    r.append(octets_lisibles(s.octets_video).as_str());
    r.append(" de vidéo");
    r
}

/// La section de la datation : par l'EXIF, avec sa part du total ; par le
/// nom ; sans date.
pub open spec fn lignes_datation_spec(s: Statistiques) -> Seq<Seq<char>> {
    seq![
        "DATATION (C3, C4, C10)"@,
        "  par l'EXIF    "@ + decimal(s.par_exif as nat) + " ("@ + pourcent_spec(s.par_exif as nat, s.total as nat) + ")"@,
        "  par le nom    "@ + decimal(s.par_nom as nat),
        "  sans date     "@ + decimal(s.sans_date as nat),
    ]
}

pub fn lignes_datation(s: &Statistiques) -> (r: Vec<String>)
    ensures
        vues(r@) == lignes_datation_spec(*s),
{
    let mut exif = String::from_str("  par l'EXIF    ");
    exif.append(ecrire_nombre(s.par_exif).as_str());
    exif.append(" (");
    exif.append(pourcent(s.par_exif, s.total).as_str());
    exif.append(")");
    let mut nom = String::from_str("  par le nom    ");
    nom.append(ecrire_nombre(s.par_nom).as_str());
    let mut sans = String::from_str("  sans date     ");
    sans.append(ecrire_nombre(s.sans_date).as_str());
    let r = vec![String::from_str("DATATION (C3, C4, C10)"), exif, nom, sans];
    assert(vues(r@) =~= lignes_datation_spec(*s));
    r
}

/// La section des positions : les médias géolocalisés, fiables ou suspects,
/// avec leurs parts, et ceux sans position.
pub open spec fn lignes_positions_spec(s: Statistiques) -> Seq<Seq<char>> {
    let geo = (s.haute + s.basse) as nat;
    seq![
        "POSITIONS (C1, C2, C9)"@,
        "  géolocalisés  "@ + decimal(geo) + " sur "@ + decimal(s.total as nat) + " ("@ + pourcent_spec(geo, s.total as nat)
            + ")"@,
        "  fiables       "@ + decimal(s.haute as nat) + " ("@ + pourcent_spec(s.haute as nat, geo) + " des géolocalisés)"@,
        "  suspectes     "@ + decimal(s.basse as nat) + " ("@ + pourcent_spec(s.basse as nat, geo) + " des géolocalisés)"@,
        "  sans position "@ + decimal(s.absente as nat),
    ]
}

pub fn lignes_positions(s: &Statistiques) -> (r: Vec<String>)
    requires
        s.haute + s.basse <= usize::MAX,
    ensures
        vues(r@) == lignes_positions_spec(*s),
{
    let geo = s.haute + s.basse;
    let mut g = String::from_str("  géolocalisés  ");
    g.append(ecrire_nombre(geo).as_str());
    g.append(" sur ");
    g.append(ecrire_nombre(s.total).as_str());
    g.append(" (");
    g.append(pourcent(geo, s.total).as_str());
    g.append(")");
    let mut f = String::from_str("  fiables       ");
    f.append(ecrire_nombre(s.haute).as_str());
    f.append(" (");
    f.append(pourcent(s.haute, geo).as_str());
    f.append(" des géolocalisés)");
    let mut b = String::from_str("  suspectes     ");
    b.append(ecrire_nombre(s.basse).as_str());
    b.append(" (");
    b.append(pourcent(s.basse, geo).as_str());
    b.append(" des géolocalisés)");
    let mut a = String::from_str("  sans position ");
    a.append(ecrire_nombre(s.absente).as_str());
    let r = vec![String::from_str("POSITIONS (C1, C2, C9)"), g, f, b, a];
    assert(vues(r@) =~= lignes_positions_spec(*s));
    r
}

/// La ligne des positions clonées : groupes, médias, et groupes dont
/// l'altitude réelle est elle aussi identique.
pub open spec fn ligne_clones_spec(groupes: nat, medias: nat, identiques: nat) -> Seq<char> {
    "  clones        "@ + decimal(groupes) + " groupes, "@ + decimal(medias) + " médias, dont "@ + decimal(identiques)
        + " groupes à altitude réelle identique"@
}

pub fn ligne_clones(groupes: usize, medias: usize, identiques: usize) -> (r: String)
    ensures
        r@ == ligne_clones_spec(groupes as nat, medias as nat, identiques as nat),
{
    let mut r = String::from_str("  clones        ");
    r.append(ecrire_nombre(groupes).as_str());
    r.append(" groupes, ");
    r.append(ecrire_nombre(medias).as_str());
    r.append(" médias, dont ");
    r.append(ecrire_nombre(identiques).as_str());
    r.append(" groupes à altitude réelle identique");
    r
}

/// Le nombre de surcharges appliquées, s'il tient dans un compteur.
pub open spec fn total_applique_spec(j: Journal) -> int {
    j.medias_surcharges@.len() + j.exclus@.len() + somme_lots(j.lots_appliques@)
}

pub open spec fn ligne_lot_spec(motif: Seq<char>, n: nat) -> Seq<char> {
    "    lot "@ + motif + " : "@ + decimal(n) + " fichiers"@
}

pub open spec fn ligne_inutilisee_spec(message: Seq<char>) -> Seq<char> {
    "    "@ + message
}

/// La section des surcharges : le total appliqué, une ligne par lot dans
/// l'ordre, le nombre d'exclusions s'il y en a, puis « aucune » surcharge
/// inutilisée, ou leur nombre et chacune sur sa ligne.
pub open spec fn lignes_surcharges_spec(j: Journal) -> Seq<Seq<char>> {
    let appliquees = if total_applique_spec(j) <= usize::MAX {
        "  appliquées    "@ + decimal(total_applique_spec(j) as nat)
    } else {
        "  appliquées    "@ + "hors de portée d'un compteur"@
    };
    let lots = j.lots_appliques@.map_values(|l: (String, usize)| ligne_lot_spec(l.0@, l.1 as nat));
    let exclusions = if j.exclus@.len() > 0 {
        seq!["    exclusions : "@ + decimal(j.exclus@.len())]
    } else {
        Seq::empty()
    };
    let inutilisees = if j.inutilisees@.len() == 0 {
        seq!["  inutilisées   aucune"@]
    } else {
        seq!["  INUTILISÉES   "@ + decimal(j.inutilisees@.len())] + vues(j.inutilisees@).map_values(
            |m: Seq<char>| ligne_inutilisee_spec(m),
        )
    };
    seq!["SURCHARGES"@, appliquees] + lots + exclusions + inutilisees
}

/// Le total des surcharges appliquées, ou rien s'il dépasse un compteur.
fn total_borne(j: &Journal) -> (r: Option<usize>)
    ensures
        match r {
            Some(t) => t == total_applique_spec(*j),
            None => total_applique_spec(*j) > usize::MAX,
        },
{
    proof {
        lemme_somme_lots_croissante(j.lots_appliques@, 0);
        assert(j.lots_appliques@.take(0) =~= Seq::<(String, usize)>::empty());
    }
    let mut somme: usize = match j.medias_surcharges.len().checked_add(j.exclus.len()) {
        Some(s) => s,
        None => return None,
    };
    let mut i: usize = 0;
    while i < j.lots_appliques.len()
        invariant
            i <= j.lots_appliques.len(),
            somme == j.medias_surcharges@.len() + j.exclus@.len() + somme_lots(j.lots_appliques@.take(i as int)),
        decreases j.lots_appliques.len() - i,
    {
        proof {
            lemme_somme_lots(j.lots_appliques@, i as int);
        }
        somme = match somme.checked_add(j.lots_appliques[i].1) {
            Some(s) => s,
            None => {
                proof {
                    lemme_somme_lots_croissante(j.lots_appliques@, i + 1);
                }
                return None;
            },
        };
        i += 1;
    }
    assert(j.lots_appliques@.take(i as int) =~= j.lots_appliques@);
    Some(somme)
}

proof fn lemme_somme_lots(l: Seq<(String, usize)>, i: int)
    requires
        0 <= i < l.len(),
    ensures
        somme_lots(l.take(i + 1)) == somme_lots(l.take(i)) + l[i].1,
{
    assert(l.take(i + 1).drop_last() =~= l.take(i));
    reveal_with_fuel(somme_lots, 2);
}

proof fn lemme_somme_lots_croissante(l: Seq<(String, usize)>, i: int)
    requires
        0 <= i <= l.len(),
    ensures
        somme_lots(l.take(i)) <= somme_lots(l),
    decreases l.len() - i,
{
    if i < l.len() {
        lemme_somme_lots_croissante(l, i + 1);
        lemme_somme_lots(l, i);
    } else {
        assert(l.take(i) =~= l);
    }
}

/// Les lignes de la section des surcharges, dans l'ordre où elles
/// s'impriment.
pub fn lignes_surcharges(j: &Journal) -> (r: Vec<String>)
    ensures
        vues(r@) == lignes_surcharges_spec(*j),
{
    let ghost app = if total_applique_spec(*j) <= usize::MAX {
        "  appliquées    "@ + decimal(total_applique_spec(*j) as nat)
    } else {
        "  appliquées    "@ + "hors de portée d'un compteur"@
    };
    let ghost lots = j.lots_appliques@.map_values(|l: (String, usize)| ligne_lot_spec(l.0@, l.1 as nat));
    let ghost excl = if j.exclus@.len() > 0 {
        seq!["    exclusions : "@ + decimal(j.exclus@.len())]
    } else {
        Seq::<Seq<char>>::empty()
    };
    let ghost inut = if j.inutilisees@.len() == 0 {
        seq!["  inutilisées   aucune"@]
    } else {
        seq!["  INUTILISÉES   "@ + decimal(j.inutilisees@.len())] + vues(j.inutilisees@).map_values(
            |m: Seq<char>| ligne_inutilisee_spec(m),
        )
    };
    let mut r: Vec<String> = Vec::new();
    r.push(String::from_str("SURCHARGES"));
    let mut appliquees = String::from_str("  appliquées    ");
    match total_borne(j) {
        Some(t) => appliquees.append(ecrire_nombre(t).as_str()),
        None => appliquees.append("hors de portée d'un compteur"),
    }
    assert(appliquees@ == app);
    r.push(appliquees);
    let ghost tete = vues(r@);
    assert(tete =~= seq!["SURCHARGES"@, app]);
    let mut i: usize = 0;
    while i < j.lots_appliques.len()
        invariant
            i <= j.lots_appliques.len(),
            vues(r@) == tete + j.lots_appliques@.take(i as int).map_values(
                |l: (String, usize)| ligne_lot_spec(l.0@, l.1 as nat),
            ),
        decreases j.lots_appliques.len() - i,
    {
        let mut ligne = String::from_str("    lot ");
        ligne.append(j.lots_appliques[i].0.as_str());
        ligne.append(" : ");
        ligne.append(ecrire_nombre(j.lots_appliques[i].1).as_str());
        ligne.append(" fichiers");
        assert(ligne@ == ligne_lot_spec(j.lots_appliques@[i as int].0@, j.lots_appliques@[i as int].1 as nat));
        let ghost avant = r@;
        r.push(ligne);
        assert(vues(r@) =~= vues(avant).push(ligne@));
        assert(j.lots_appliques@.take(i + 1) =~= j.lots_appliques@.take(i as int).push(j.lots_appliques@[i as int]));
        assert(vues(r@) =~= tete + j.lots_appliques@.take(i + 1).map_values(
            |l: (String, usize)| ligne_lot_spec(l.0@, l.1 as nat),
        ));
        i += 1;
    }
    assert(j.lots_appliques@.take(i as int) =~= j.lots_appliques@);
    let ghost apres_lots = vues(r@);
    assert(apres_lots == tete + lots);
    if j.exclus.len() > 0 {
        let mut ligne = String::from_str("    exclusions : ");
        ligne.append(ecrire_nombre(j.exclus.len()).as_str());
        r.push(ligne);
        assert(vues(r@) =~= apres_lots + excl);
    } else {
        assert(vues(r@) =~= apres_lots + excl);
    }
    let ghost milieu = vues(r@);
    if j.inutilisees.len() == 0 {
        r.push(String::from_str("  inutilisées   aucune"));
        assert(vues(r@) =~= milieu + inut);
    } else {
        let mut ligne = String::from_str("  INUTILISÉES   ");
        ligne.append(ecrire_nombre(j.inutilisees.len()).as_str());
        r.push(ligne);
        let ghost entete = vues(r@);
        let mut k: usize = 0;
        while k < j.inutilisees.len()
            invariant
                k <= j.inutilisees.len(),
                vues(r@) == entete + vues(j.inutilisees@.take(k as int)).map_values(
                    |m: Seq<char>| ligne_inutilisee_spec(m),
                ),
            decreases j.inutilisees.len() - k,
        {
            let mut l = String::from_str("    ");
            l.append(j.inutilisees[k].as_str());
            assert(l@ == ligne_inutilisee_spec(j.inutilisees@[k as int]@));
            let ghost avant = r@;
            r.push(l);
            assert(vues(r@) =~= vues(avant).push(l@));
            assert(vues(j.inutilisees@.take(k + 1)) =~= vues(j.inutilisees@.take(k as int)).push(j.inutilisees@[k as int]@));
            assert(vues(r@) =~= entete + vues(j.inutilisees@.take(k + 1)).map_values(
                |m: Seq<char>| ligne_inutilisee_spec(m),
            ));
            k += 1;
        }
        assert(j.inutilisees@.take(k as int) =~= j.inutilisees@);
        assert(vues(r@) =~= milieu + inut);
    }
    assert(vues(r@) =~= seq!["SURCHARGES"@, app] + lots + excl + inut);
    r
}

/// L'en-tête de la section des traces : leur nombre de tronçons.
pub open spec fn ligne_traces_spec(n: nat) -> Seq<char> {
    "TRACES  "@ + decimal(n) + " tronçons"@
}

pub fn ligne_traces(n: usize) -> (r: String)
    ensures
        r@ == ligne_traces_spec(n as nat),
{
    let mut r = String::from_str("TRACES  ");
    r.append(ecrire_nombre(n).as_str());
    r.append(" tronçons");
    r
}

} // verus!
