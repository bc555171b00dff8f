//! Fiabilité des positions, anomalies, trous de trace candidats.
//!
//! C1 : une altitude non nulle distingue une position satellite d'une
//! position réseau. C4 : une date hors des bornes du voyage trahit une
//! horloge perdue. C2 : deux médias pris à plus de vingt minutes d'écart et
//! à moins de vingt-cinq mètres l'un de l'autre portent une position clonée ;
//! c'est un signalement, pas un verdict. C5 : les sauts de trace sont
//! signalés, sans prétendre savoir où elle aurait dû passer.

use vstd::prelude::*;
use vstd::string::StringExecFns;

use crate::calendrier::{seconde_du_jour, seconde_du_jour_exec};
use crate::lieux::{ecart, inserer_jour, jours_croissants, quotient, utc};
use crate::scan::{Instant, instant_lisible};
use crate::texte::{decimal, deux_chiffres, ecrire_decimal, ecrire_deux_chiffres, ecrire_entier, entier};
use crate::tri::{lemme_tri_rangs_contenu, trier_rangs, tri_rangs, Rang};
use crate::mesure::{distance, mesure_valide, mesurer};
use crate::scan::{Anomalie, Fiabilite, Media, Position};
use crate::voyage::Voyage;

verus! {

/// Au-delà de cet écart, en secondes, deux médias proches sont suspects.
pub const ECART_CLONE_SECONDES: i64 = 1200;

/// En deçà de cette distance, en millimètres, deux positions sont la même.
pub const MILLIMETRES_CLONE: u64 = 25_000;

/// Un trou de trace candidat : une journée et ce qui la rend suspecte.
#[derive(Debug, Clone)]
pub struct TrouCandidat {
    pub jour: i64,
    pub motif: String,
}

#[derive(Debug, Clone)]
pub struct Bilan {
    /// Groupes de médias partageant la même position à la cinquième
    /// décimale, pris à plus de vingt minutes d'écart.
    pub clones_groupes: usize,
    pub clones_medias: usize,
    /// Groupes dont l'altitude est elle aussi identique, et non nulle.
    pub clones_triplet_identique: usize,
    pub trous: Vec<TrouCandidat>,
}

/// C1 : la fiabilité d'une position.
pub open spec fn fiabilite_c1(m: Media) -> Fiabilite {
    match m.position {
        None => Fiabilite::Absente,
        Some(p) => match p.alt {
            Some(a) => if a != 0 {
                Fiabilite::Haute
            } else {
                Fiabilite::Basse
            },
            None => Fiabilite::Basse,
        },
    }
}

/// C4 : le jour tombe à plus d'un jour des bornes du voyage.
pub open spec fn horloge_perdue(m: Media, v: Voyage) -> bool {
    m.jour matches Some(j) && (j < v.date_debut - 1 || j > v.date_fin + 1)
}

/// C2 : un autre média daté et positionné, pris à plus de vingt minutes
/// d'écart, est à moins de vingt-cinq mètres.
pub open spec fn clone_de<F: Fn(Position, Position) -> u64>(s: Seq<Media>, k: int, f: F) -> bool {
    &&& s[k].position is Some
    &&& s[k].prise_le is Some
    &&& exists|j: int|
        0 <= j < s.len() && j != k && (#[trigger] s[j]).position is Some && s[j].prise_le is Some && ecart(
            utc(s[j]),
            utc(s[k]),
        ) > ECART_CLONE_SECONDES && distance(f, s[k].position.unwrap(), s[j].position.unwrap()) < MILLIMETRES_CLONE
}

/// Ajoute une anomalie qui n'y est pas encore.
pub open spec fn ajout(s: Seq<Anomalie>, a: Anomalie) -> Seq<Anomalie> {
    if s.contains(a) {
        s
    } else {
        s.push(a)
    }
}

/// Les anomalies après l'évaluation : altitude nulle, horloge perdue,
/// position clonée, dans cet ordre, chacune une fois.
pub open spec fn anomalies_evaluees<F: Fn(Position, Position) -> u64>(s: Seq<Media>, k: int, v: Voyage, f: F) -> Seq<Anomalie> {
    let a0 = s[k].anomalies@;
    let a1 = if fiabilite_c1(s[k]) == Fiabilite::Basse {
        ajout(a0, Anomalie::AltitudeNulle)
    } else {
        a0
    };
    let a2 = if horloge_perdue(s[k], v) {
        ajout(a1, Anomalie::HorlogePerdue)
    } else {
        a1
    };
    if clone_de(s, k, f) {
        ajout(a2, Anomalie::PositionClonee)
    } else {
        a2
    }
}

/// Ce que l'évaluation ne change pas d'un média.
pub open spec fn meme_sauf_verdict(a: Media, b: Media) -> bool {
    &&& b.id == a.id
    &&& b.type_media == a.type_media
    &&& b.fichier_source == a.fichier_source
    &&& b.prise_le == a.prise_le
    &&& b.origine_date == a.origine_date
    &&& b.jour == a.jour
    &&& b.position == a.position
    &&& b.origine_position == a.origine_position
    &&& b.lieu == a.lieu
    &&& b.publie == a.publie
    &&& b.derives == a.derives
    &&& b.lqip == a.lqip
    &&& b.largeur == a.largeur
    &&& b.hauteur == a.hauteur
    &&& b.orientation == a.orientation
    &&& b.appareil == a.appareil
    &&& b.convention == a.convention
    &&& b.octets == a.octets
}

// ---------------------------------------------------------------------------
// Groupes de positions identiques à la cinquième décimale
// ---------------------------------------------------------------------------

/// Arrondi au cent-millième de degré, à la demi-unité loin de zéro.
pub open spec fn arrondi(x: int) -> int {
    if x >= 0 {
        (x + 50) / 100
    } else {
        -((-x + 50) / 100)
    }
}

pub open spec fn cle(p: Position) -> (int, int) {
    (arrondi(p.lat as int), arrondi(p.lon as int))
}

/// `s[i]` a une position, et elle tombe dans la case `c`.
pub open spec fn dans_case(s: Seq<Media>, i: int, c: (int, int)) -> bool {
    s[i].position is Some && cle(s[i].position.unwrap()) == c
}

/// La case est suspecte : deux de ses médias datés sont à plus de vingt
/// minutes d'écart.
pub open spec fn case_suspecte(s: Seq<Media>, c: (int, int)) -> bool {
    exists|i: int, j: int|
        0 <= i < s.len() && 0 <= j < s.len() && #[trigger] dans_case(s, i, c) && #[trigger] dans_case(s, j, c)
            && s[i].prise_le is Some && s[j].prise_le is Some && utc(s[j]) - utc(s[i]) > ECART_CLONE_SECONDES
}

/// Tous les médias de la case portent la même altitude, non nulle.
pub open spec fn case_meme_altitude(s: Seq<Media>, c: (int, int)) -> bool {
    &&& forall|i: int| 0 <= i < s.len() && #[trigger] dans_case(s, i, c) ==> (s[i].position.unwrap().alt matches Some(a) && a != 0)
    &&& forall|i: int, j: int|
        0 <= i < s.len() && 0 <= j < s.len() && #[trigger] dans_case(s, i, c) && #[trigger] dans_case(s, j, c)
            ==> s[i].position.unwrap().alt == s[j].position.unwrap().alt
}

/// `s[k]` est le premier média de sa case.
pub open spec fn premier_de_case(s: Seq<Media>, k: int) -> bool {
    s[k].position is Some && forall|j: int| 0 <= j < k ==> !#[trigger] dans_case(s, j, cle(s[k].position.unwrap()))
}

pub open spec fn compte_groupes(s: Seq<Media>, n: int) -> nat
    decreases n,
{
    if n <= 0 {
        0
    } else if premier_de_case(s, n - 1) && case_suspecte(s, cle(s[n - 1].position.unwrap())) {
        compte_groupes(s, n - 1) + 1
    } else {
        compte_groupes(s, n - 1)
    }
}

pub open spec fn compte_medias_clones(s: Seq<Media>, n: int) -> nat
    decreases n,
{
    if n <= 0 {
        0
    } else if s[n - 1].position is Some && case_suspecte(s, cle(s[n - 1].position.unwrap())) {
        compte_medias_clones(s, n - 1) + 1
    } else {
        compte_medias_clones(s, n - 1)
    }
}

pub open spec fn compte_triplets(s: Seq<Media>, n: int) -> nat
    decreases n,
{
    if n <= 0 {
        0
    } else if premier_de_case(s, n - 1) && case_suspecte(s, cle(s[n - 1].position.unwrap())) && case_meme_altitude(
        s,
        cle(s[n - 1].position.unwrap()),
    ) {
        compte_triplets(s, n - 1) + 1
    } else {
        compte_triplets(s, n - 1)
    }
}

fn arrondi_exec(x: i64) -> (r: i64)
    ensures
        r == arrondi(x as int),
{
    if x >= 0 {
        ((x as i128 + 50) / 100) as i64
    } else {
        (-((-(x as i128) + 50) / 100)) as i64
    }
}

fn cle_exec(p: Position) -> (r: (i64, i64))
    ensures
        (r.0 as int, r.1 as int) == cle(p),
{
    (arrondi_exec(p.lat), arrondi_exec(p.lon))
}

/// Ce que l'on sait de la case d'un média : s'il en est le premier, si elle
/// est suspecte, si l'altitude y est partout la même et non nulle.
fn examiner_case(s: &Vec<Media>, k: usize) -> (r: (bool, bool, bool))
    requires
        k < s@.len(),
        s@[k as int].position is Some,
    ensures
        r.0 == premier_de_case(s@, k as int),
        r.1 == case_suspecte(s@, cle(s@[k as int].position.unwrap())),
        r.2 == case_meme_altitude(s@, cle(s@[k as int].position.unwrap())),
{
    let ghost c = cle(s@[k as int].position.unwrap());
    let ck = cle_exec(s[k].position.unwrap());
    let altitude_k = s[k].position.unwrap().alt;
    let mut premier = true;
    let mut min: Option<(i64, usize)> = None;
    let mut max: Option<(i64, usize)> = None;
    let mut meme_altitude = match altitude_k {
        Some(a) => a != 0,
        None => false,
    };
    let mut i: usize = 0;
    while i < s.len()
        invariant
            i <= s@.len(),
            k < s@.len(),
            s@[k as int].position is Some,
            c == cle(s@[k as int].position.unwrap()),
            (ck.0 as int, ck.1 as int) == c,
            altitude_k == s@[k as int].position.unwrap().alt,
            premier == forall|j: int| 0 <= j < i && j < k ==> !#[trigger] dans_case(s@, j, c),
            match min {
                Some((t, a)) => a < i && dans_case(s@, a as int, c) && s@[a as int].prise_le is Some && utc(s@[a as int]) == t
                    && forall|j: int| 0 <= j < i && #[trigger] dans_case(s@, j, c) && s@[j].prise_le is Some ==> t <= utc(s@[j]),
                None => forall|j: int| 0 <= j < i && #[trigger] dans_case(s@, j, c) ==> s@[j].prise_le is None,
            },
            match max {
                Some((t, a)) => a < i && dans_case(s@, a as int, c) && s@[a as int].prise_le is Some && utc(s@[a as int]) == t
                    && forall|j: int| 0 <= j < i && #[trigger] dans_case(s@, j, c) && s@[j].prise_le is Some ==> utc(s@[j]) <= t,
                None => forall|j: int| 0 <= j < i && #[trigger] dans_case(s@, j, c) ==> s@[j].prise_le is None,
            },
            meme_altitude == ((altitude_k matches Some(a) && a != 0) && forall|j: int| 0 <= j < i && #[trigger] dans_case(s@, j, c) ==> s@[j].position.unwrap().alt == altitude_k),
        decreases s@.len() - i,
    {
        let m = &s[i];
        if let Some(p) = m.position {
            let cm = cle_exec(p);
            if cm.0 == ck.0 && cm.1 == ck.1 {
                assert(dans_case(s@, i as int, c));
                if i < k {
                    premier = false;
                }
                if p.alt != altitude_k {
                    meme_altitude = false;
                }
                if let Some(instant) = m.prise_le {
                    let t = instant.utc;
                    min = match min {
                        Some((u, a)) => if t < u { Some((t, i)) } else { Some((u, a)) },
                        None => Some((t, i)),
                    };
                    max = match max {
                        Some((u, a)) => if t > u { Some((t, i)) } else { Some((u, a)) },
                        None => Some((t, i)),
                    };
                }
            } else {
                assert(!dans_case(s@, i as int, c));
            }
        } else {
            assert(!dans_case(s@, i as int, c));
        }
        i += 1;
    }
    let suspecte = match (min, max) {
        (Some((t0, _)), Some((t1, _))) => t1 as i128 - t0 as i128 > 1200,
        _ => false,
    };
    proof {
        assert(dans_case(s@, k as int, c));
        if suspecte {
            let (t0, a) = min.unwrap();
            let (t1, b) = max.unwrap();
            assert(dans_case(s@, a as int, c) && dans_case(s@, b as int, c));
        }
        if case_suspecte(s@, c) {
            let (x, y) = choose|x: int, y: int|
                0 <= x < s@.len() && 0 <= y < s@.len() && #[trigger] dans_case(s@, x, c) && #[trigger] dans_case(s@, y, c)
                    && s@[x].prise_le is Some && s@[y].prise_le is Some && utc(s@[y]) - utc(s@[x]) > ECART_CLONE_SECONDES;
            assert(dans_case(s@, x, c) && dans_case(s@, y, c));
        }
        if case_meme_altitude(s@, c) {
            assert forall|j: int| 0 <= j < s@.len() && #[trigger] dans_case(s@, j, c) implies s@[j].position.unwrap().alt == altitude_k by {
                assert(dans_case(s@, k as int, c));
            }
        }
    }
    (premier, suspecte, meme_altitude)
}


fn est_clone<F: Fn(Position, Position) -> u64>(s: &Vec<Media>, k: usize, f: &F) -> (r: bool)
    requires
        k < s@.len(),
        mesure_valide(*f),
    ensures
        r == clone_de(s@, k as int, *f),
{
    let m = &s[k];
    if m.position.is_none() || m.prise_le.is_none() {
        return false;
    }
    let p = m.position.unwrap();
    let t = m.prise_le.unwrap().utc;
    let mut j: usize = 0;
    while j < s.len()
        invariant
            j <= s@.len(),
            k < s@.len(),
            mesure_valide(*f),
            s@[k as int].position == Some(p),
            s@[k as int].prise_le is Some,
            t == s@[k as int].prise_le.unwrap().utc,
            forall|q: int|
                0 <= q < j ==> !(q != k && (#[trigger] s@[q]).position is Some && s@[q].prise_le is Some && ecart(
                    utc(s@[q]),
                    utc(s@[k as int]),
                ) > ECART_CLONE_SECONDES && distance(*f, p, s@[q].position.unwrap()) < MILLIMETRES_CLONE),
        decreases s@.len() - j,
    {
        let autre = &s[j];
        if j != k && autre.position.is_some() && autre.prise_le.is_some() {
            let e = (autre.prise_le.unwrap().utc as i128 - t as i128);
            let e = if e >= 0 { e } else { -e };
            if e > 1200 {
                let d = mesurer(f, p, autre.position.unwrap());
                if d < MILLIMETRES_CLONE {
                    assert(s@[j as int].position is Some);
                    return true;
                }
            }
        }
        j += 1;
    }
    false
}

fn ajouter_anomalie(v: &mut Vec<Anomalie>, a: Anomalie)
    ensures
        final(v)@ == ajout(old(v)@, a),
{
    let mut i: usize = 0;
    while i < v.len()
        invariant
            i <= v.len(),
            v@ == old(v)@,
            forall|j: int| 0 <= j < i ==> v@[j] != a,
        decreases v.len() - i,
    {
        if v[i] == a {
            assert(v@.contains(a));
            return;
        }
        i += 1;
    }
    assert(!v@.contains(a));
    v.push(a);
}

/// Attribue fiabilité et anomalies, puis dresse le bilan des positions
/// clonées et des trous de trace.
pub fn evaluer<F: Fn(Position, Position) -> u64>(medias: &mut Vec<Media>, voyage: &Voyage, distance: &F) -> (b: Bilan)
    requires
        mesure_valide(*distance),
        instants_valides(old(medias)@),
    ensures
        final(medias)@.len() == old(medias)@.len(),
        forall|k: int| 0 <= k < old(medias)@.len() ==> meme_sauf_verdict(old(medias)@[k], #[trigger] final(medias)@[k]),
        forall|k: int| 0 <= k < old(medias)@.len() ==> (#[trigger] final(medias)@[k]).fiabilite == fiabilite_c1(old(medias)@[k]),
        forall|k: int| 0 <= k < old(medias)@.len() ==> (#[trigger] final(medias)@[k]).anomalies@ == anomalies_evaluees(
            old(medias)@,
            k,
            *voyage,
            *distance,
        ),
        b.clones_groupes == compte_groupes(old(medias)@, old(medias)@.len() as int),
        b.clones_medias == compte_medias_clones(old(medias)@, old(medias)@.len() as int),
        b.clones_triplet_identique == compte_triplets(old(medias)@, old(medias)@.len() as int),
        vues_trous(b.trous@) == trous_candidats_spec(final(medias)@, *distance),
        forall|k: int|
            0 <= k < old(medias)@.len() ==> ((#[trigger] final(medias)@[k]).anomalies@.contains(Anomalie::HorlogePerdue)
                <==> (old(medias)@[k].anomalies@.contains(Anomalie::HorlogePerdue) || (old(medias)@[k].jour matches Some(j)
                && (j < voyage.date_debut - 1 || j > voyage.date_fin + 1)))),
{
    let ghost s = medias@;
    let mut clones: Vec<bool> = Vec::new();
    let mut groupes: usize = 0;
    let mut dans_groupes: usize = 0;
    let mut triplets: usize = 0;
    let mut k: usize = 0;
    while k < medias.len()
        invariant
            k <= medias.len(),
            s == medias@,
            mesure_valide(*distance),
            clones@.len() == k,
            forall|q: int| 0 <= q < k ==> clones@[q] == clone_de(s, q, *distance),
            groupes == compte_groupes(s, k as int),
            dans_groupes == compte_medias_clones(s, k as int),
            triplets == compte_triplets(s, k as int),
            groupes <= k,
            dans_groupes <= k,
            triplets <= k,
        decreases medias.len() - k,
    {
        clones.push(est_clone(medias, k, distance));
        if medias[k].position.is_some() {
            let (premier, suspecte, meme_altitude) = examiner_case(medias, k);
            if suspecte {
                dans_groupes = dans_groupes + 1;
                if premier {
                    groupes = groupes + 1;
                    if meme_altitude {
                        triplets = triplets + 1;
                    }
                }
            }
        }
        k += 1;
    }
    let mut anciens: Vec<Media> = Vec::new();
    std::mem::swap(&mut anciens, medias);
    let n = anciens.len();
    let mut j: usize = 0;
    for m in it: anciens.into_iter()
        invariant
            it.seq() == s,
            s.len() == n,
            j == it.index(),
            j <= n,
            clones@.len() == s.len(),
            forall|q: int| 0 <= q < s.len() ==> clones@[q] == clone_de(s, q, *distance),
            medias@.len() == j,
            forall|q: int| 0 <= q < j ==> meme_sauf_verdict(s[q], #[trigger] medias@[q]),
            forall|q: int| 0 <= q < j ==> (#[trigger] medias@[q]).fiabilite == fiabilite_c1(s[q]),
            forall|q: int| 0 <= q < j ==> (#[trigger] medias@[q]).anomalies@ == anomalies_evaluees(s, q, *voyage, *distance),
            instants_valides(s),
            mesure_valide(*distance),
    {
        let ghost i = it.index() as int;
        assert(m == s[i]);
        let mut m = m;
        let fiabilite = match m.position {
            None => Fiabilite::Absente,
            Some(p) => match p.alt {
                Some(a) => if a != 0 {
                    Fiabilite::Haute
                } else {
                    Fiabilite::Basse
                },
                None => Fiabilite::Basse,
            },
        };
        m.fiabilite = fiabilite;
        if fiabilite == Fiabilite::Basse {
            ajouter_anomalie(&mut m.anomalies, Anomalie::AltitudeNulle);
        }
        if let Some(jour) = m.jour {
            if (jour as i128) < (voyage.date_debut as i128) - 1 || (jour as i128) > (voyage.date_fin as i128) + 1 {
                ajouter_anomalie(&mut m.anomalies, Anomalie::HorlogePerdue);
            }
        }
        if clones[j] {
            ajouter_anomalie(&mut m.anomalies, Anomalie::PositionClonee);
        }
        medias.push(m);
        j += 1;
    }
    assert(instants_valides(medias@)) by {
        assert forall|q: int| 0 <= q < medias@.len() implies ((#[trigger] medias@[q]).prise_le matches Some(i)
            ==> instant_lisible(i.utc as int) && -86400 < i.decalage < 86400) by {
            assert(meme_sauf_verdict(s[q], medias@[q]));
        }
    }
    let trous = trous_candidats(medias, distance);
    proof {
        assert forall|k: int| 0 <= k < s.len() implies ((#[trigger] medias@[k]).anomalies@.contains(Anomalie::HorlogePerdue)
            <==> (s[k].anomalies@.contains(Anomalie::HorlogePerdue) || (s[k].jour matches Some(j) && (j < voyage.date_debut
            - 1 || j > voyage.date_fin + 1)))) by {
            loi_horloge_perdue(s, k, *voyage, *distance);
        }
    }
    Bilan { clones_groupes: groupes, clones_medias: dans_groupes, clones_triplet_identique: triplets, trous }
}


// ---------------------------------------------------------------------------
// C5 : trous de trace candidats
// ---------------------------------------------------------------------------

/// Un saut de trace au-delà de ces deux seuils est un trou candidat.
pub const TROU_MILLIMETRES: u64 = 2_000_000;
/// Plus de quarante-cinq minutes, en secondes.
pub const TROU_SECONDES: i64 = 2700;

pub open spec fn vues_trous(v: Seq<TrouCandidat>) -> Seq<(i64, Seq<char>)> {
    v.map_values(|t: TrouCandidat| (t.jour, t.motif@))
}

/// Un média fiable, daté et positionné, de cette journée.
pub open spec fn fiable_du_jour(m: Media, jour: i64) -> bool {
    m.jour == Some(jour) && m.fiabilite == Fiabilite::Haute && m.prise_le is Some && m.position is Some
}

/// Les rangs des médias fiables de la journée, dans l'ordre des médias.
pub open spec fn rangs_fiables(s: Seq<Media>, jour: i64, n: int) -> Seq<Rang>
    decreases n,
{
    if n <= 0 {
        seq![]
    } else if fiable_du_jour(s[n - 1], jour) {
        rangs_fiables(s, jour, n - 1).push((Some(s[n - 1].prise_le.unwrap().utc), (n - 1) as usize))
    } else {
        rangs_fiables(s, jour, n - 1)
    }
}

/// L'heure et la minute d'un instant, dans son propre décalage.
pub open spec fn heure_minute(i: Instant) -> Seq<char> {
    let sec = seconde_du_jour(i.utc + i.decalage);
    deux_chiffres((sec / 3600) as nat) + ":"@ + deux_chiffres(((sec % 3600) / 60) as nat)
}

/// Le motif d'un saut : la distance au dixième de kilomètre, la durée en
/// minutes, les heures de départ et d'arrivée.
pub open spec fn message_saut(mm: nat, minutes: int, a: Instant, b: Instant) -> Seq<char> {
    let dixiemes = (mm + 50_000) / 100_000;
    "saut de "@ + decimal(dixiemes / 10) + "."@ + decimal(dixiemes % 10) + " km en "@ + entier(minutes)
        + " min, entre "@ + heure_minute(a) + " et "@ + heure_minute(b)
}

/// Les sauts d'une suite rangée de médias fiables : deux médias consécutifs
/// à plus de deux kilomètres et plus de quarante-cinq minutes d'écart.
pub open spec fn sauts<F: Fn(Position, Position) -> u64>(s: Seq<Media>, t: Seq<Rang>, f: F) -> Seq<Seq<char>>
    decreases t.len(),
{
    if t.len() < 2 {
        seq![]
    } else {
        let a = s[t[t.len() - 2].1 as int];
        let b = s[t.last().1 as int];
        let minutes = quotient(utc(b) - utc(a), 60);
        let mm = distance(f, a.position.unwrap(), b.position.unwrap());
        if mm > TROU_MILLIMETRES && utc(b) - utc(a) > TROU_SECONDES {
            sauts(s, t.drop_last(), f).push(message_saut(mm as nat, minutes, a.prise_le.unwrap(), b.prise_le.unwrap()))
        } else {
            sauts(s, t.drop_last(), f)
        }
    }
}

/// Premier et dernier horodatage des médias datés de la journée.
pub open spec fn extremes(s: Seq<Media>, jour: i64, n: int) -> Option<(int, int)>
    decreases n,
{
    if n <= 0 {
        None
    } else {
        let e = extremes(s, jour, n - 1);
        let m = s[n - 1];
        if m.jour == Some(jour) && m.prise_le is Some {
            let t = utc(m);
            match e {
                None => Some((t, t)),
                Some((a, b)) => Some((if t < a { t } else { a }, if t > b { t } else { b })),
            }
        } else {
            e
        }
    }
}

pub open spec fn message_couverture(couverte: int, amplitude: int) -> Seq<char> {
    "positions fiables sur "@ + entier(couverte) + " min pour "@ + entier(amplitude) + " min de photos"@
}

/// Couverture : les positions fiables couvrent-elles la journée ? Un trou
/// si elles couvrent moins de la moitié de l'amplitude horaire des médias.
pub open spec fn couverture(s: Seq<Media>, jour: i64, t: Seq<Rang>) -> Option<Seq<char>> {
    match extremes(s, jour, s.len() as int) {
        Some((debut, fin)) => if t.len() > 0 {
            let amplitude = quotient(fin - debut, 60);
            let couverte = quotient(utc(s[t.last().1 as int]) - utc(s[t[0].1 as int]), 60);
            if (utc(s[t.last().1 as int]) - utc(s[t[0].1 as int])) * 2 < fin - debut {
                Some(message_couverture(couverte, amplitude))
            } else {
                None
            }
        } else {
            None
        },
        None => None,
    }
}

pub open spec fn trous_du_jour<F: Fn(Position, Position) -> u64>(s: Seq<Media>, jour: i64, f: F) -> Seq<(i64, Seq<char>)> {
    let t = tri_rangs(rangs_fiables(s, jour, s.len() as int));
    let a = sauts(s, t, f).map_values(|m: Seq<char>| (jour, m));
    match couverture(s, jour, t) {
        Some(m) => a.push((jour, m)),
        None => a,
    }
}

/// Les jours des médias.
pub open spec fn jours_de(s: Seq<Media>) -> Set<i64> {
    Set::new(|j: i64| exists|k: int| 0 <= k < s.len() && (#[trigger] s[k]).jour == Some(j))
}

/// Les jours des médias, rangés.
pub open spec fn jours_tries(s: Seq<Media>) -> Seq<i64> {
    choose|js: Seq<i64>| jours_croissants(js) && js.to_set() == jours_de(s)
}

pub open spec fn trous_des_jours<F: Fn(Position, Position) -> u64>(s: Seq<Media>, js: Seq<i64>, f: F) -> Seq<(i64, Seq<char>)>
    decreases js.len(),
{
    if js.len() == 0 {
        seq![]
    } else {
        trous_des_jours(s, js.drop_last(), f) + trous_du_jour(s, js.last(), f)
    }
}

/// Les trous candidats, journée après journée dans l'ordre des jours.
pub open spec fn trous_candidats_spec<F: Fn(Position, Position) -> u64>(s: Seq<Media>, f: F) -> Seq<(i64, Seq<char>)> {
    trous_des_jours(s, jours_tries(s), f)
}

/// Deux suites strictement croissantes qui ont les mêmes éléments sont égales.
proof fn lemme_croissantes_egales(a: Seq<i64>, b: Seq<i64>)
    requires
        jours_croissants(a),
        jours_croissants(b),
        a.to_set() == b.to_set(),
    ensures
        a == b,
    decreases a.len(),
{
    if a.len() == 0 {
        if b.len() > 0 {
            assert(b.to_set().contains(b[0]));
            assert(a.to_set().contains(b[0]));
            assert(a.contains(b[0]));
            assert(false);
        }
        assert(a =~= b);
    } else {
        assert(a.to_set().contains(a[0]));
        assert(b.to_set().contains(a[0]));
        assert(b.len() > 0);
        assert(b.to_set().contains(b[0]));
        assert(a.to_set().contains(b[0]));
        let i = choose|i: int| 0 <= i < a.len() && a[i] == b[0];
        let j = choose|j: int| 0 <= j < b.len() && b[j] == a[0];
        assert(a[0] == b[0]) by {
            if i > 0 {
                assert(a[0] < a[i]);
            }
            if j > 0 {
                assert(b[0] < b[j]);
            }
        }
        let a1 = a.drop_first();
        let b1 = b.drop_first();
        assert forall|x: i64| a1.to_set().contains(x) <==> b1.to_set().contains(x) by {
            if a1.to_set().contains(x) {
                let k = choose|k: int| 0 <= k < a1.len() && a1[k] == x;
                assert(a[k + 1] == x);
                assert(a.to_set().contains(x));
                assert(b.to_set().contains(x));
                let q = choose|q: int| 0 <= q < b.len() && b[q] == x;
                assert(x != a[0]);
                assert(q != 0);
                assert(b1[q - 1] == x);
            }
            if b1.to_set().contains(x) {
                let k = choose|k: int| 0 <= k < b1.len() && b1[k] == x;
                assert(b[k + 1] == x);
                assert(b.to_set().contains(x));
                assert(a.to_set().contains(x));
                let q = choose|q: int| 0 <= q < a.len() && a[q] == x;
                assert(x != b[0]);
                assert(q != 0);
                assert(a1[q - 1] == x);
            }
        }
        assert(a1.to_set() =~= b1.to_set());
        lemme_croissantes_egales(a1, b1);
        assert(a.len() == b.len());
        assert forall|i: int| 0 <= i < a.len() implies a[i] == b[i] by {
            if i > 0 {
                assert(a[i] == a1[i - 1]);
                assert(b[i] == b1[i - 1]);
            }
        }
        assert(a =~= b);
    }
}

fn heure_minute_exec(i: Instant) -> (r: String)
    requires
        instant_lisible(i.utc as int),
        -86400 < i.decalage < 86400,
    ensures
        r@ == heure_minute(i),
{
    let sec = seconde_du_jour_exec(i.utc + i.decalage as i64);
    let mut r = ecrire_deux_chiffres((sec / 3600) as u64);
    r.append(":");
    let m = ecrire_deux_chiffres(((sec % 3600) / 60) as u64);
    r.append(m.as_str());
    r
}

fn quotient_exec(n: i64, d: i64) -> (r: i64)
    requires
        d > 0,
        n > i64::MIN,
    ensures
        r == quotient(n as int, d as int),
{
    if n >= 0 {
        n / d
    } else {
        -((-n) / d)
    }
}


/// Les instants des médias sont ceux que `chrono` représente, sous un
/// décalage de moins d'un jour.
pub open spec fn instants_valides(s: Seq<Media>) -> bool {
    forall|k: int| 0 <= k < s.len() ==> ((#[trigger] s[k]).prise_le matches Some(i) ==> instant_lisible(i.utc as int)
        && -86400 < i.decalage < 86400)
}

fn message_saut_exec(mm: u64, minutes: i64, a: Instant, b: Instant) -> (r: String)
    requires
        instant_lisible(a.utc as int),
        -86400 < a.decalage < 86400,
        instant_lisible(b.utc as int),
        -86400 < b.decalage < 86400,
    ensures
        r@ == message_saut(mm as nat, minutes as int, a, b),
{
    let dixiemes: u64 = ((mm as u128 + 50_000) / 100_000) as u64;
    let mut r = String::from_str("saut de ");
    let x = ecrire_decimal(dixiemes / 10);
    r.append(x.as_str());
    r.append(".");
    let x = ecrire_decimal(dixiemes % 10);
    r.append(x.as_str());
    r.append(" km en ");
    let x = ecrire_entier(minutes);
    r.append(x.as_str());
    r.append(" min, entre ");
    let x = heure_minute_exec(a);
    r.append(x.as_str());
    r.append(" et ");
    let x = heure_minute_exec(b);
    r.append(x.as_str());
    r
}

fn message_couverture_exec(couverte: i64, amplitude: i64) -> (r: String)
    ensures
        r@ == message_couverture(couverte as int, amplitude as int),
{
    let mut r = String::from_str("positions fiables sur ");
    let x = ecrire_entier(couverte);
    r.append(x.as_str());
    r.append(" min pour ");
    let x = ecrire_entier(amplitude);
    r.append(x.as_str());
    r.append(" min de photos");
    r
}

/// Les médias fiables de la journée, rangés par horodatage.
pub open spec fn rangs_valides(s: Seq<Media>, jour: i64, t: Seq<Rang>) -> bool {
    forall|q: int| 0 <= q < t.len() ==> (#[trigger] t[q]).1 < s.len() && fiable_du_jour(s[t[q].1 as int], jour)
        && t[q].0 == Some(s[t[q].1 as int].prise_le.unwrap().utc)
}

fn rangs_du_jour(medias: &Vec<Media>, jour: i64) -> (t: Vec<Rang>)
    ensures
        t@ == tri_rangs(rangs_fiables(medias@, jour, medias@.len() as int)),
        rangs_valides(medias@, jour, t@),
{
    let ghost s = medias@;
    let n = medias.len();
    let mut rangs: Vec<Rang> = Vec::new();
    let mut k: usize = 0;
    while k < n
        invariant
            k <= n,
            n == s.len(),
            s == medias@,
            rangs@ == rangs_fiables(s, jour, k as int),
            rangs_valides(s, jour, rangs@),
        decreases n - k,
    {
        let m = &medias[k];
        if m.jour == Some(jour) && m.fiabilite == Fiabilite::Haute && m.prise_le.is_some() && m.position.is_some() {
            rangs.push((Some(m.prise_le.unwrap().utc), k));
        }
        k += 1;
    }
    let ghost brut = rangs@;
    let t = trier_rangs(rangs);
    proof {
        lemme_tri_rangs_contenu(brut);
        assert forall|q: int| 0 <= q < t@.len() implies (#[trigger] t@[q]).1 < s.len() && fiable_du_jour(s[t@[q].1 as int], jour)
            && t@[q].0 == Some(s[t@[q].1 as int].prise_le.unwrap().utc) by {
            let x = t@[q];
            assert(t@.contains(x));
            vstd::seq_lib::to_multiset_contains(t@, x);
            assert(brut.to_multiset().count(x) > 0);
            vstd::seq_lib::to_multiset_contains(brut, x);
            assert(brut.contains(x));
            let r = choose|r: int| 0 <= r < brut.len() && brut[r] == x;
            assert(brut[r].1 < s.len());
        }
    }
    t
}

fn sauts_exec<F: Fn(Position, Position) -> u64>(medias: &Vec<Media>, jour: i64, t: &Vec<Rang>, f: &F, trous: &mut Vec<TrouCandidat>)
    requires
        mesure_valide(*f),
        instants_valides(medias@),
        rangs_valides(medias@, jour, t@),
    ensures
        vues_trous(final(trous)@) == vues_trous(old(trous)@) + sauts(medias@, t@, *f).map_values(|m: Seq<char>| (jour, m)),
{
    let ghost s = medias@;
    let ghost depart = vues_trous(trous@);
    if t.len() == 0 {
        assert(sauts(s, t@, *f) =~= Seq::<Seq<char>>::empty());
        assert(vues_trous(trous@) =~= depart + sauts(s, t@, *f).map_values(|m: Seq<char>| (jour, m)));
        return;
    }
    assert(sauts(s, t@.take(1), *f) =~= Seq::<Seq<char>>::empty());
    let mut i: usize = 1;
    while i < t.len()
        invariant
            1 <= i <= t@.len(),
            s == medias@,
            mesure_valide(*f),
            instants_valides(s),
            rangs_valides(s, jour, t@),
            vues_trous(trous@) == depart + sauts(s, t@.take(i as int), *f).map_values(|m: Seq<char>| (jour, m)),
        decreases t@.len() - i,
    {
        let ia = t[i - 1].1;
        let ib = t[i].1;
        let a = &medias[ia];
        let b = &medias[ib];
        let ta = a.prise_le.unwrap();
        let tb = b.prise_le.unwrap();
        assert(instant_lisible(ta.utc as int) && instant_lisible(tb.utc as int));
        let minutes = quotient_exec(tb.utc - ta.utc, 60);
        let mm = mesurer(f, a.position.unwrap(), b.position.unwrap());
        proof {
            assert(t@.take(i + 1).drop_last() =~= t@.take(i as int));
            assert(t@.take(i + 1)[i - 1] == t@[i - 1]);
            assert(t@.take(i + 1).last() == t@[i as int]);
        }
        let ghost avant = trous@;
        if mm > TROU_MILLIMETRES && tb.utc - ta.utc > 2700 {
            let motif = message_saut_exec(mm, minutes, ta, tb);
            trous.push(TrouCandidat { jour, motif });
            assert(vues_trous(trous@) =~= vues_trous(avant).push((jour, motif@)));
        }
        assert(vues_trous(trous@) =~= depart + sauts(s, t@.take(i + 1), *f).map_values(|m: Seq<char>| (jour, m)));
        i += 1;
    }
    assert(t@.take(t@.len() as int) =~= t@);
}

fn couverture_exec(medias: &Vec<Media>, jour: i64, t: &Vec<Rang>) -> (r: Option<String>)
    requires
        instants_valides(medias@),
        rangs_valides(medias@, jour, t@),
    ensures
        match r {
            Some(m) => couverture(medias@, jour, t@) == Some(m@),
            None => couverture(medias@, jour, t@) is None,
        },
{
    let ghost s = medias@;
    let n = medias.len();
    let mut ext: Option<(i64, i64)> = None;
    let mut k: usize = 0;
    while k < n
        invariant
            k <= n,
            n == s.len(),
            s == medias@,
            instants_valides(s),
            match ext {
                Some((a, b)) => extremes(s, jour, k as int) == Some((a as int, b as int)) && instant_lisible(a as int)
                    && instant_lisible(b as int),
                None => extremes(s, jour, k as int) is None,
            },
        decreases n - k,
    {
        let m = &medias[k];
        if m.jour == Some(jour) && m.prise_le.is_some() {
            let u = m.prise_le.unwrap().utc;
            ext = match ext {
                None => Some((u, u)),
                Some((a, b)) => Some((if u < a { u } else { a }, if u > b { u } else { b })),
            };
        }
        k += 1;
    }
    match ext {
        Some((debut, fin)) => {
            if t.len() > 0 {
                let amplitude = quotient_exec(fin - debut, 60);
                let premier = medias[t[0].1].prise_le.unwrap().utc;
                let dernier = medias[t[t.len() - 1].1].prise_le.unwrap().utc;
                let couverte = quotient_exec(dernier - premier, 60);
                if ((dernier - premier) as i128) * 2 < (fin - debut) as i128 {
                    return Some(message_couverture_exec(couverte, amplitude));
                }
            }
            None
        },
        None => None,
    }
}

/// Les trous candidats d'une journée, ajoutés à la suite.
fn trous_du_jour_exec<F: Fn(Position, Position) -> u64>(medias: &Vec<Media>, jour: i64, f: &F, trous: &mut Vec<TrouCandidat>)
    requires
        mesure_valide(*f),
        instants_valides(medias@),
    ensures
        vues_trous(final(trous)@) == vues_trous(old(trous)@) + trous_du_jour(medias@, jour, *f),
{
    let t = rangs_du_jour(medias, jour);
    let ghost avant = vues_trous(trous@);
    sauts_exec(medias, jour, &t, f, trous);
    let ghost milieu = trous@;
    match couverture_exec(medias, jour, &t) {
        Some(motif) => {
            trous.push(TrouCandidat { jour, motif });
            assert(vues_trous(trous@) =~= vues_trous(milieu).push((jour, motif@)));
        },
        None => {},
    }
    assert(vues_trous(trous@) =~= avant + trous_du_jour(medias@, jour, *f));
}

/// C5 : signale les journées où la trace saute, sans prétendre savoir où
/// elle aurait dû passer. L'humain tranche dans les surcharges.
pub fn trous_candidats<F: Fn(Position, Position) -> u64>(medias: &Vec<Media>, f: &F) -> (r: Vec<TrouCandidat>)
    requires
        mesure_valide(*f),
        instants_valides(medias@),
    ensures
        vues_trous(r@) == trous_candidats_spec(medias@, *f),
{
    let ghost s = medias@;
    let mut jours: Vec<i64> = Vec::new();
    let mut k: usize = 0;
    while k < medias.len()
        invariant
            k <= medias.len(),
            s == medias@,
            jours_croissants(jours@),
            jours@.to_set() == Set::new(|j: i64| exists|q: int| 0 <= q < k && (#[trigger] s[q]).jour == Some(j)),
        decreases medias.len() - k,
    {
        let ghost avant = jours@.to_set();
        if let Some(j) = medias[k].jour {
            inserer_jour(&mut jours, j);
        }
        assert(jours@.to_set() =~= Set::new(|j: i64| exists|q: int| 0 <= q < k + 1 && (#[trigger] s[q]).jour == Some(j))) by {
            assert forall|j: i64| (exists|q: int| 0 <= q < k + 1 && (#[trigger] s[q]).jour == Some(j)) implies jours@.to_set().contains(j) by {
                let q = choose|q: int| 0 <= q < k + 1 && (#[trigger] s[q]).jour == Some(j);
                if q < k {
                    assert(avant.contains(j));
                }
            }
        }
        k += 1;
    }
    assert(jours@.to_set() =~= jours_de(s));
    proof {
        let c = jours_tries(s);
        assert(jours_croissants(c) && c.to_set() == jours_de(s));
        lemme_croissantes_egales(jours@, c);
    }
    let mut trous: Vec<TrouCandidat> = Vec::new();
    let mut d: usize = 0;
    assert(jours@.take(0) =~= Seq::<i64>::empty());
    while d < jours.len()
        invariant
            d <= jours.len(),
            s == medias@,
            mesure_valide(*f),
            instants_valides(s),
            jours@ == jours_tries(s),
            vues_trous(trous@) == trous_des_jours(s, jours@.take(d as int), *f),
        decreases jours.len() - d,
    {
        assert(jours@.take(d + 1).drop_last() =~= jours@.take(d as int));
        assert(jours@.take(d + 1).last() == jours@[d as int]);
        trous_du_jour_exec(medias, jours[d], f, &mut trous);
        d += 1;
    }
    assert(jours@.take(jours@.len() as int) =~= jours@);
    trous
}

/// C4 : après l'évaluation, un média porte l'anomalie d'horloge perdue
/// exactement quand il la portait déjà ou quand son jour tombe avant la
/// veille du départ ou après le lendemain du retour. Un jour postérieur au
/// lendemain du retour est donc signalé comme un jour antérieur à la
/// veille ; un jour du voyage, ou de sa veille ou de son lendemain, ne
/// l'est pas.
pub proof fn loi_horloge_perdue<F: Fn(Position, Position) -> u64>(s: Seq<Media>, k: int, v: Voyage, f: F)
    requires
        0 <= k < s.len(),
    ensures
        anomalies_evaluees(s, k, v, f).contains(Anomalie::HorlogePerdue) <==> (s[k].anomalies@.contains(
            Anomalie::HorlogePerdue,
        ) || (s[k].jour matches Some(j) && (j < v.date_debut - 1 || j > v.date_fin + 1))),
{
    let a0 = s[k].anomalies@;
    let a1 = if fiabilite_c1(s[k]) == Fiabilite::Basse {
        ajout(a0, Anomalie::AltitudeNulle)
    } else {
        a0
    };
    let a2 = if horloge_perdue(s[k], v) {
        ajout(a1, Anomalie::HorlogePerdue)
    } else {
        a1
    };
    lemme_ajout(a0, Anomalie::AltitudeNulle, Anomalie::HorlogePerdue);
    lemme_ajout(a1, Anomalie::HorlogePerdue, Anomalie::HorlogePerdue);
    lemme_ajout(a2, Anomalie::PositionClonee, Anomalie::HorlogePerdue);
}

/// Ajouter une anomalie n'ôte rien et n'ajoute qu'elle.
proof fn lemme_ajout(s: Seq<Anomalie>, a: Anomalie, x: Anomalie)
    ensures
        ajout(s, a).contains(x) <==> (s.contains(x) || x == a),
{
    if !s.contains(a) {
        if s.push(a).contains(x) && x != a {
            let i = choose|i: int| 0 <= i < s.push(a).len() && s.push(a)[i] == x;
            assert(s[i] == x);
        }
        if s.contains(x) {
            let i = choose|i: int| 0 <= i < s.len() && s[i] == x;
            assert(s.push(a)[i] == x);
        }
        assert(s.push(a)[s.len() as int] == a);
    }
}

} // verus!
