//! Traces : modes de déplacement, et ce qui décide du découpage d'une
//! journée en tronçons.
//!
//! Les distances entre deux positions se mesurent au bord, sur la sphère ;
//! elles arrivent ici en millimètres. Les itinéraires calculés arrivent de
//! même, tout faits ou absents.

use vstd::prelude::*;

use crate::calendrier::{seconde_du_jour, seconde_du_jour_exec};
use crate::fuseau::{decalage_a, decalage_universel};
use crate::overrides::{couvre, ForcageMode, Lot, Overrides, Segment};
use crate::jours::Journee;
use crate::lieux::{inserer_jour, jours_croissants, lieu_par_id};
use crate::quality::instants_valides;
use crate::tri::{lemme_tri_rangs_contenu, trier_rangs, tri_rangs, Rang};
use crate::mesure::{distance, mesure_valide, mesurer};
use crate::scan::{instant_lisible, Fiabilite, Instant, Media, OriginePosition, Position};
use crate::voyage::{Lieu, TypeLieu, Voyage};

verus! {

/// Mode de déplacement d'un tronçon de trace.
#[derive(Debug, Clone, Copy, PartialEq, Eq, Structural, PartialOrd, Ord, Hash)]
pub enum Mode {
    Route,
    Marche,
    Velo,
    Bateau,
    Train,
    Telepherique,
}

/// Au-delà de cet écart à vol d'oiseau, en millimètres, deux photos
/// consécutives ne sont pas reliées par une marche.
pub const MILLIMETRES_MARCHE_MAXIMUM: u64 = 5_000_000;

/// En deçà de cette distance, en millimètres, deux positions consécutives ne
/// méritent pas un tronçon : c'est le bruit d'un appareil immobile.
pub const MILLIMETRES_MINIMUM: u64 = 25_000;

pub open spec fn profil_spec(m: Mode) -> Option<Seq<char>> {
    match m {
        Mode::Route => Some("driving-car"@),
        Mode::Velo => Some("cycling-regular"@),
        Mode::Marche => Some("foot-walking"@),
        _ => None,
    }
}

pub open spec fn calculable_spec(m: Mode) -> bool {
    m == Mode::Route || m == Mode::Velo || m == Mode::Marche
}

/// Le mode que propose une vitesse moyenne, en mètres par heure.
pub open spec fn mode_de_vitesse(metres_par_heure: int) -> Mode {
    if metres_par_heure < 6000 {
        Mode::Marche
    } else if metres_par_heure < 25000 {
        Mode::Velo
    } else {
        Mode::Route
    }
}

pub open spec fn corrige_spec(m: Mode, millimetres: int) -> Mode {
    if m == Mode::Marche && millimetres > MILLIMETRES_MARCHE_MAXIMUM {
        Mode::Route
    } else {
        m
    }
}

impl Mode {
    /// Valeur par défaut des forçages d'itinéraire, qui ne concernent que la route.
    pub fn route() -> (r: Mode)
        ensures
            r == Mode::Route,
    {
        Mode::Route
    }

    /// Couleur de la trace, dérivée du mode et jamais stockée à la main. Les
    /// teintes sont franches et écartées sur la roue ; la route, qui pèse
    /// les trois quarts des kilomètres, prend le brun le plus sombre.
    pub fn couleur(self) -> (r: &'static str)
        ensures
            r@ == (match self {
                Mode::Route => "#4a3b2e"@,
                Mode::Marche => "#d1491f"@,
                Mode::Velo => "#2e7d32"@,
                Mode::Bateau => "#1565c0"@,
                Mode::Train => "#8e24aa"@,
                Mode::Telepherique => "#b08300"@,
            }),
    {
        match self {
            Mode::Route => "#4a3b2e",
            Mode::Marche => "#d1491f",
            Mode::Velo => "#2e7d32",
            Mode::Bateau => "#1565c0",
            Mode::Train => "#8e24aa",
            Mode::Telepherique => "#b08300",
        }
    }

    /// Profil de routage d'OpenRouteService, quand ce mode en a un : chaque
    /// mode terrestre va sur son réseau, le bateau, le train et le
    /// téléphérique n'en ont aucun.
    pub fn profil(self) -> (r: Option<&'static str>)
        ensures
            match r {
                Some(p) => profil_spec(self) == Some(p@),
                None => profil_spec(self) is None,
            },
    {
        match self {
            Mode::Route => Some("driving-car"),
            Mode::Velo => Some("cycling-regular"),
            Mode::Marche => Some("foot-walking"),
            Mode::Bateau | Mode::Train | Mode::Telepherique => None,
        }
    }

    /// Vrai si ce mode peut partir au moteur d'itinéraire : seuls les modes
    /// qui ont un profil de routage.
    pub fn calculable(self) -> (r: bool)
        ensures
            r == calculable_spec(self),
            r == profil_spec(self) is Some,
    {
        self.profil().is_some()
    }

    /// Nom lisible, pour les rapports en console.
    pub fn nom(self) -> (r: &'static str)
        ensures
            r@ == (match self {
                Mode::Route => "route"@,
                Mode::Marche => "marche"@,
                Mode::Velo => "vélo"@,
                Mode::Bateau => "bateau"@,
                Mode::Train => "train"@,
                Mode::Telepherique => "téléphérique"@,
            }),
    {
        match self {
            Mode::Route => "route",
            Mode::Marche => "marche",
            Mode::Velo => "vélo",
            Mode::Bateau => "bateau",
            Mode::Train => "train",
            Mode::Telepherique => "téléphérique",
        }
    }

    /// Mode le plus probable pour une vitesse moyenne, en mètres par heure.
    /// Une proposition, jamais un verdict : les seuils sont grossiers.
    pub fn depuis_vitesse(metres_par_heure: u64) -> (r: Mode)
        ensures
            r == mode_de_vitesse(metres_par_heure as int),
    {
        if metres_par_heure < 6000 {
            Mode::Marche
        } else if metres_par_heure < 25000 {
            Mode::Velo
        } else {
            Mode::Route
        }
    }

    /// On ne marche pas d'une photo à la suivante en s'éloignant de plus de
    /// cinq kilomètres à vol d'oiseau : au-delà, la marche redevient route.
    /// Les autres modes ne sont pas concernés.
    pub fn corrige_par_distance(self, millimetres: u64) -> (r: Mode)
        ensures
            r == corrige_spec(self, millimetres as int),
    {
        match self {
            Mode::Marche if millimetres > MILLIMETRES_MARCHE_MAXIMUM => Mode::Route,
            autre => autre,
        }
    }
}

/// D'où vient le tracé ; détermine le style de rendu.
#[derive(Debug, Clone, Copy, PartialEq, Eq, Structural)]
pub enum SourceTrace {
    /// Positions EXIF fiables reliées entre elles.
    Mesuree,
    /// Itinéraire produit par le moteur de routage.
    Calculee,
    /// Points saisis dans les segments des surcharges.
    Manuelle,
    /// Déduite des lieux ou des camps, faute de mesure.
    Heritee,
}

impl SourceTrace {
    pub fn nom(self) -> (r: &'static str)
        ensures
            r@ == (match self {
                SourceTrace::Mesuree => "mesurée"@,
                SourceTrace::Calculee => "calculée"@,
                SourceTrace::Manuelle => "manuelle"@,
                SourceTrace::Heritee => "héritée"@,
            }),
    {
        match self {
            SourceTrace::Mesuree => "mesurée",
            SourceTrace::Calculee => "calculée",
            SourceTrace::Manuelle => "manuelle",
            SourceTrace::Heritee => "héritée",
        }
    }
}


// ---------------------------------------------------------------------------
// Tronçons
// ---------------------------------------------------------------------------

/// Un point en ordre GeoJSON : longitude, latitude.
pub type Point = [i64; 2];

/// Un tronçon de trace : une `LineString` à l'émission.
#[derive(Debug, Clone)]
pub struct Troncon {
    pub jour: i64,
    pub mode: Mode,
    pub source: SourceTrace,
    /// Points en ordre GeoJSON, `[longitude, latitude]`.
    pub points: Vec<Point>,
}

/// Un média positionné, rendu en point sur la carte.
#[derive(Debug, Clone)]
pub struct PointMedia {
    pub id: String,
    pub jour: i64,
    pub position: Position,
    pub fiabilite: Fiabilite,
    pub origine: Option<OriginePosition>,
}

/// Un tronçon vu de l'extérieur : jour, mode, source, points.
pub type VueTroncon = (i64, Mode, SourceTrace, Seq<Point>);

pub open spec fn vue_troncon(t: Troncon) -> VueTroncon {
    (t.jour, t.mode, t.source, t.points@)
}

pub open spec fn vues_troncons(v: Seq<Troncon>) -> Seq<VueTroncon> {
    v.map_values(|t: Troncon| vue_troncon(t))
}

pub open spec fn point_de(p: Position) -> Point {
    [p.lon, p.lat]
}

/// Les médias datés d'un jour et positionnés, dans leur ordre.
pub open spec fn points_medias_spec(s: Seq<Media>) -> Seq<(Seq<char>, i64, Position, Fiabilite, Option<OriginePosition>)>
    decreases s.len(),
{
    if s.len() == 0 {
        seq![]
    } else {
        let m = s.last();
        let avant = points_medias_spec(s.drop_last());
        if m.jour is Some && m.position is Some {
            avant.push((m.id@, m.jour.unwrap(), m.position.unwrap(), m.fiabilite, m.origine_position))
        } else {
            avant
        }
    }
}

pub open spec fn vues_points(v: Seq<PointMedia>) -> Seq<(Seq<char>, i64, Position, Fiabilite, Option<OriginePosition>)> {
    v.map_values(|p: PointMedia| (p.id@, p.jour, p.position, p.fiabilite, p.origine))
}

/// Les points de médias : tout ce qui porte un jour et une position, quelle
/// qu'en soit l'origine. Le style de rendu, lui, dépendra de la fiabilité.
pub fn points_medias(medias: &Vec<Media>) -> (r: Vec<PointMedia>)
    ensures
        vues_points(r@) == points_medias_spec(medias@),
{
    let mut r: Vec<PointMedia> = Vec::new();
    let mut i: usize = 0;
    while i < medias.len()
        invariant
            i <= medias.len(),
            vues_points(r@) == points_medias_spec(medias@.take(i as int)),
        decreases medias.len() - i,
    {
        assert(medias@.take(i + 1).drop_last() =~= medias@.take(i as int));
        let m = &medias[i];
        if let (Some(jour), Some(position)) = (m.jour, m.position) {
            let ghost avant = r@;
            r.push(PointMedia { id: m.id.clone(), jour, position, fiabilite: m.fiabilite, origine: m.origine_position });
            assert(vues_points(r@) =~= vues_points(avant).push(
                (m.id@, jour, position, m.fiabilite, m.origine_position),
            ));
        }
        i += 1;
    }
    assert(medias@.take(medias@.len() as int) =~= medias@);
    r
}

// ---------------------------------------------------------------------------
// Le mode d'une paire de positions consécutives
// ---------------------------------------------------------------------------

/// L'heure locale d'un instant, en secondes depuis minuit, dans le fuseau
/// du voyage ; rien si le fuseau est inconnu.
pub open spec fn heure_locale(utc: int, fuseau: Seq<char>) -> Option<int> {
    match decalage_universel(fuseau, utc) {
        Some(d) => Some(seconde_du_jour(utc + d)),
        None => None,
    }
}

/// Le premier forçage qui couvre cet instant, s'il y en a un.
pub open spec fn mode_impose(modes: Seq<ForcageMode>, jour: i64, instant: u32) -> Option<Mode>
    decreases modes.len(),
{
    if modes.len() == 0 {
        None
    } else if couvre(modes[0], jour, instant) {
        Some(modes[0].mode)
    } else {
        mode_impose(modes.drop_first(), jour, instant)
    }
}

/// Le mode d'une paire : rien en deçà de vingt-cinq mètres, c'est le bruit
/// d'un appareil immobile ; sinon le mode déclaré pour l'heure locale du
/// départ, et à défaut celui que propose la vitesse, corrigé par la
/// distance. Un temps nul ou négatif donne la route.
pub open spec fn mode_de_paire_spec(
    jour: i64,
    debut: Instant,
    fin: Instant,
    millimetres: u64,
    modes: Seq<ForcageMode>,
    fuseau: Seq<char>,
) -> Option<Mode> {
    if millimetres < MILLIMETRES_MINIMUM {
        None
    } else {
        let impose = match heure_locale(debut.utc as int, fuseau) {
            Some(h) => mode_impose(modes, jour, h as u32),
            None => None,
        };
        let secondes = fin.utc - debut.utc;
        match impose {
            Some(m) => Some(m),
            None => if secondes <= 0 {
                Some(Mode::Route)
            } else {
                Some(corrige_spec(mode_de_vitesse((millimetres * 18) / (5 * secondes)), millimetres as int))
            },
        }
    }
}

proof fn lemme_mode_impose(modes: Seq<ForcageMode>, jour: i64, instant: u32, i: int)
    requires
        0 <= i <= modes.len(),
        forall|j: int| 0 <= j < i ==> !couvre(#[trigger] modes[j], jour, instant),
        i < modes.len() ==> couvre(modes[i], jour, instant),
    ensures
        mode_impose(modes, jour, instant) == (if i < modes.len() { Some(modes[i].mode) } else { None }),
    decreases modes.len(),
{
    if modes.len() > 0 && i > 0 {
        assert(!couvre(modes[0], jour, instant));
        assert forall|j: int| 0 <= j < i - 1 implies !couvre(#[trigger] modes.drop_first()[j], jour, instant) by {
            assert(modes.drop_first()[j] == modes[j + 1]);
        }
        lemme_mode_impose(modes.drop_first(), jour, instant, i - 1);
    }
}

/// Le mode d'une paire de positions consécutives d'une journée.
pub fn mode_de_paire(
    jour: i64,
    debut: Instant,
    fin: Instant,
    millimetres: u64,
    overrides: &Overrides,
    fuseau: &str,
) -> (r: Option<Mode>)
    requires
        instant_lisible(debut.utc as int),
        instant_lisible(fin.utc as int),
    ensures
        r == mode_de_paire_spec(jour, debut, fin, millimetres, overrides.modes@, fuseau@),
{
    if millimetres < MILLIMETRES_MINIMUM {
        return None;
    }
    let impose = match decalage_a(fuseau, debut.utc) {
        Some(d) => {
            let h = seconde_du_jour_exec(debut.utc + d as i64);
            let m = overrides.mode_force(jour, h as u32);
            proof {
                match m {
                    Some(x) => {
                        let i = choose|i: int|
                            0 <= i < overrides.modes@.len() && couvre(#[trigger] overrides.modes@[i], jour, h as u32)
                                && overrides.modes@[i].mode == x && forall|j: int| 0 <= j < i ==> !couvre(
                                #[trigger] overrides.modes@[j],
                                jour,
                                h as u32,
                            );
                        lemme_mode_impose(overrides.modes@, jour, h as u32, i);
                    },
                    None => {
                        lemme_mode_impose(overrides.modes@, jour, h as u32, overrides.modes@.len() as int);
                    },
                }
            }
            m
        },
        None => None,
    };
    match impose {
        Some(m) => Some(m),
        None => {
            let secondes = fin.utc - debut.utc;
            if secondes <= 0 {
                Some(Mode::Route)
            } else {
                let vitesse: u128 = (millimetres as u128 * 18) / (5 * secondes as u128);
                assert(vitesse == (millimetres * 18) / (5 * secondes));
                let vitesse: u64 = if vitesse > u64::MAX as u128 { u64::MAX } else { vitesse as u64 };
                Some(Mode::depuis_vitesse(vitesse).corrige_par_distance(millimetres))
            }
        },
    }
}


// ---------------------------------------------------------------------------
// Le découpage d'une journée
// ---------------------------------------------------------------------------

/// Deux positions fiables consécutives d'une journée, et le mode que
/// `mode_de_paire` leur a donné ; sans mode, la paire ne trace rien.
#[derive(Debug, Clone, Copy)]
pub struct Paire {
    pub depart: Position,
    pub arrivee: Position,
    pub mode: Option<Mode>,
}

/// L'état du tracé : tronçons terminés, tronçon en cours, nombre de
/// tronçons calculés, nombre de tronçons routiers restés droits.
pub type EtatTrace = (Seq<VueTroncon>, Option<VueTroncon>, nat, nat);

/// Les tronçons terminés, plus celui en cours.
pub open spec fn clore(e: EtatTrace) -> Seq<VueTroncon> {
    match e.1 {
        Some(t) => e.0.push(t),
        None => e.0,
    }
}

/// Une paire de plus. Un mode calculable forme son propre tronçon : calculé
/// si l'itinéraire est venu, droit sinon. Un autre mode prolonge le tronçon
/// en cours s'il est du même mode, et en ouvre un sinon.
pub open spec fn etape(e: EtatTrace, jour: i64, p: Paire, route: Option<Seq<Point>>) -> EtatTrace {
    match p.mode {
        None => e,
        Some(m) => if calculable_spec(m) {
            match route {
                Some(pts) => (clore(e).push((jour, m, SourceTrace::Calculee, pts)), None, e.2 + 1, e.3),
                None => (
                    clore(e).push((jour, m, SourceTrace::Mesuree, seq![point_de(p.depart), point_de(p.arrivee)])),
                    None,
                    e.2,
                    e.3 + 1,
                ),
            }
        } else {
            match e.1 {
                Some(t) => if t.1 == m {
                    (e.0, Some((t.0, t.1, t.2, t.3.push(point_de(p.arrivee)))), e.2, e.3)
                } else {
                    (clore(e), Some((jour, m, SourceTrace::Mesuree, seq![point_de(p.depart), point_de(p.arrivee)])), e.2, e.3)
                },
                None => (clore(e), Some((jour, m, SourceTrace::Mesuree, seq![point_de(p.depart), point_de(p.arrivee)])), e.2, e.3),
            }
        },
    }
}

pub open spec fn vue_route(r: Option<Vec<Point>>) -> Option<Seq<Point>> {
    match r {
        Some(v) => Some(v@),
        None => None,
    }
}

/// L'état après les `n` premières paires.
pub open spec fn tracer(jour: i64, paires: Seq<Paire>, routes: Seq<Option<Vec<Point>>>, n: int) -> EtatTrace
    decreases n,
{
    if n <= 0 {
        (seq![], None, 0, 0)
    } else {
        etape(tracer(jour, paires, routes, n - 1), jour, paires[n - 1], vue_route(routes[n - 1]))
    }
}

/// Découpe une journée en tronçons homogènes. `routes[i]` est l'itinéraire
/// obtenu pour la paire `i` quand son mode est calculable.
pub fn tracer_journee(jour: i64, paires: &Vec<Paire>, routes: Vec<Option<Vec<Point>>>) -> (r: (Vec<Troncon>, usize, usize))
    requires
        routes@.len() == paires@.len(),
    ensures
        vues_troncons(r.0@) == clore(tracer(jour, paires@, routes@, paires@.len() as int)),
        r.1 == tracer(jour, paires@, routes@, paires@.len() as int).2,
        r.2 == tracer(jour, paires@, routes@, paires@.len() as int).3,
{
    let ghost rs = routes@;
    let mut troncons: Vec<Troncon> = Vec::new();
    let mut courant: Option<Troncon> = None;
    let mut calcules: usize = 0;
    let mut droits: usize = 0;
    let mut i: usize = 0;
    let n = paires.len();
    for route in it: routes.into_iter()
        invariant
            it.seq() == rs,
            rs.len() == n,
            n == paires@.len(),
            i == it.index(),
            i <= n,
            calcules + droits <= i,
            vues_troncons(troncons@) == tracer(jour, paires@, rs, i as int).0,
            match courant {
                Some(t) => tracer(jour, paires@, rs, i as int).1 == Some(vue_troncon(t)),
                None => tracer(jour, paires@, rs, i as int).1 is None,
            },
            calcules == tracer(jour, paires@, rs, i as int).2,
            droits == tracer(jour, paires@, rs, i as int).3,
    {
        let p = paires[i];
        let ghost e = tracer(jour, paires@, rs, i as int);
        assert(route == rs[i as int]);
        match p.mode {
            None => {},
            Some(m) => {
                if m.calculable() {
                    let mut termine: Option<Troncon> = None;
                    std::mem::swap(&mut termine, &mut courant);
                    if let Some(t) = termine {
                        troncons.push(t);
                    }
                    assert(vues_troncons(troncons@) =~= clore(e));
                    let ghost avant = troncons@;
                    match route {
                        Some(points) => {
                            calcules = calcules + 1;
                            troncons.push(Troncon { jour, mode: m, source: SourceTrace::Calculee, points });
                        },
                        None => {
                            droits = droits + 1;
                            let mut points: Vec<Point> = Vec::new();
                            points.push([p.depart.lon, p.depart.lat]);
                            points.push([p.arrivee.lon, p.arrivee.lat]);
                            assert(points@ =~= seq![point_de(p.depart), point_de(p.arrivee)]);
                            troncons.push(Troncon { jour, mode: m, source: SourceTrace::Mesuree, points });
                        },
                    }
                    assert(vues_troncons(troncons@) =~= vues_troncons(avant).push(vue_troncon(troncons@.last())));
                } else {
                    let prolonge = match &courant {
                        Some(t) => t.mode == m,
                        None => false,
                    };
                    if prolonge {
                        let mut t: Option<Troncon> = None;
                        std::mem::swap(&mut t, &mut courant);
                        let mut t = t.unwrap();
                        t.points.push([p.arrivee.lon, p.arrivee.lat]);
                        courant = Some(t);
                    } else {
                        let mut termine: Option<Troncon> = None;
                        std::mem::swap(&mut termine, &mut courant);
                        if let Some(t) = termine {
                            let ghost avant = troncons@;
                            troncons.push(t);
                            assert(vues_troncons(troncons@) =~= vues_troncons(avant).push(vue_troncon(t)));
                        }
                        assert(vues_troncons(troncons@) =~= clore(e));
                        let mut points: Vec<Point> = Vec::new();
                        points.push([p.depart.lon, p.depart.lat]);
                        points.push([p.arrivee.lon, p.arrivee.lat]);
                        assert(points@ =~= seq![point_de(p.depart), point_de(p.arrivee)]);
                        courant = Some(Troncon { jour, mode: m, source: SourceTrace::Mesuree, points });
                    }
                }
            },
        }
        i += 1;
    }
    if let Some(t) = courant {
        let ghost avant = troncons@;
        troncons.push(t);
        assert(vues_troncons(troncons@) =~= vues_troncons(avant).push(vue_troncon(t)));
    }
    (troncons, calcules, droits)
}


// ---------------------------------------------------------------------------
// Camps, extrémités des journées
// ---------------------------------------------------------------------------

/// Au-delà de cette distance, en millimètres, deux camps successifs font
/// une journée de transit.
pub const MILLIMETRES_TRANSIT_MINIMUM: u64 = 3_000_000;

/// À partir de cette distance, en millimètres, le trajet du camp à la photo
/// mérite d'être tracé.
pub const MILLIMETRES_SORTIE_DE_CAMP: u64 = 1_000_000;

/// Le camp couvre la nuit qui suit ce jour : on y arrive au plus tard ce
/// jour-là, on en repart après.
pub open spec fn couvre_la_nuit(l: Lieu, nuit: i64) -> bool {
    l.type_lieu == TypeLieu::Camp && (l.du matches Some(d) && d <= nuit) && (l.au matches Some(a) && nuit < a)
}

/// Le premier camp où l'on a dormi la nuit qui suit ce jour, ou -1.
pub open spec fn camp_de_la_nuit_spec(ls: Seq<Lieu>, nuit: i64) -> int
    decreases ls.len(),
{
    if ls.len() == 0 {
        -1
    } else if couvre_la_nuit(ls[0], nuit) {
        0
    } else if camp_de_la_nuit_spec(ls.drop_first(), nuit) < 0 {
        -1
    } else {
        camp_de_la_nuit_spec(ls.drop_first(), nuit) + 1
    }
}

proof fn lemme_camp(ls: Seq<Lieu>, nuit: i64, i: int)
    requires
        0 <= i <= ls.len(),
        forall|j: int| 0 <= j < i ==> !couvre_la_nuit(#[trigger] ls[j], nuit),
        i < ls.len() ==> couvre_la_nuit(ls[i], nuit),
    ensures
        camp_de_la_nuit_spec(ls, nuit) == (if i < ls.len() { i } else { -1 }),
    decreases ls.len(),
{
    if ls.len() > 0 && i > 0 {
        assert(!couvre_la_nuit(ls[0], nuit));
        assert forall|j: int| 0 <= j < i - 1 implies !couvre_la_nuit(#[trigger] ls.drop_first()[j], nuit) by {
            assert(ls.drop_first()[j] == ls[j + 1]);
        }
        lemme_camp(ls.drop_first(), nuit, i - 1);
    }
}

/// Le camp où l'on a dormi la nuit qui suit `nuit`. Un camp déclaré du 12
/// au 15 couvre les nuits du 12, du 13 et du 14.
pub fn camp_de_la_nuit(voyage: &Voyage, nuit: i64) -> (r: Option<usize>)
    ensures
        match r {
            Some(k) => k == camp_de_la_nuit_spec(voyage.lieux@, nuit) && k < voyage.lieux@.len(),
            None => camp_de_la_nuit_spec(voyage.lieux@, nuit) == -1,
        },
{
    let mut i: usize = 0;
    while i < voyage.lieux.len()
        invariant
            i <= voyage.lieux@.len(),
            forall|j: int| 0 <= j < i ==> !couvre_la_nuit(#[trigger] voyage.lieux@[j], nuit),
        decreases voyage.lieux@.len() - i,
    {
        let l = &voyage.lieux[i];
        let couvre = l.type_lieu == TypeLieu::Camp && match l.du {
            Some(d) => d <= nuit,
            None => false,
        } && match l.au {
            Some(a) => nuit < a,
            None => false,
        };
        if couvre {
            proof {
                lemme_camp(voyage.lieux@, nuit, i as int);
            }
            return Some(i);
        }
        i += 1;
    }
    proof {
        lemme_camp(voyage.lieux@, nuit, i as int);
    }
    None
}

/// Un média de ce jour, positionné et daté.
pub open spec fn du_jour(m: Media, jour: i64) -> bool {
    m.jour == Some(jour) && m.position is Some && m.prise_le is Some
}

/// Le premier média du jour dans l'ordre chronologique : le plus ancien,
/// le premier venu en cas d'égalité.
pub open spec fn est_premier_du_jour(s: Seq<Media>, jour: i64, k: int) -> bool {
    &&& 0 <= k < s.len()
    &&& du_jour(s[k], jour)
    &&& forall|j: int| 0 <= j < s.len() && #[trigger] du_jour(s[j], jour) ==> s[k].prise_le.unwrap().utc <= s[j].prise_le.unwrap().utc
    &&& forall|j: int| 0 <= j < k && #[trigger] du_jour(s[j], jour) ==> s[k].prise_le.unwrap().utc < s[j].prise_le.unwrap().utc
}

/// Le dernier média du jour dans l'ordre chronologique : le plus récent, le
/// dernier venu en cas d'égalité.
pub open spec fn est_dernier_du_jour(s: Seq<Media>, jour: i64, k: int) -> bool {
    &&& 0 <= k < s.len()
    &&& du_jour(s[k], jour)
    &&& forall|j: int| 0 <= j < s.len() && #[trigger] du_jour(s[j], jour) ==> s[j].prise_le.unwrap().utc <= s[k].prise_le.unwrap().utc
    &&& forall|j: int| k < j < s.len() && #[trigger] du_jour(s[j], jour) ==> s[j].prise_le.unwrap().utc < s[k].prise_le.unwrap().utc
}

/// Le premier ou le dernier média positionné et daté d'une journée.
pub fn media_extreme(medias: &Vec<Media>, jour: i64, premiere: bool) -> (r: Option<usize>)
    ensures
        match r {
            Some(k) => if premiere {
                est_premier_du_jour(medias@, jour, k as int)
            } else {
                est_dernier_du_jour(medias@, jour, k as int)
            },
            None => forall|j: int| 0 <= j < medias@.len() ==> !#[trigger] du_jour(medias@[j], jour),
        },
{
    let ghost s = medias@;
    let mut meilleur: Option<usize> = None;
    let mut i: usize = 0;
    while i < medias.len()
        invariant
            i <= medias.len(),
            s == medias@,
            match meilleur {
                Some(k) => k < i && du_jour(s[k as int], jour) && (if premiere {
                    (forall|j: int| 0 <= j < i && #[trigger] du_jour(s[j], jour) ==> s[k as int].prise_le.unwrap().utc <= s[j].prise_le.unwrap().utc)
                    && (forall|j: int| 0 <= j < k && #[trigger] du_jour(s[j], jour) ==> s[k as int].prise_le.unwrap().utc < s[j].prise_le.unwrap().utc)
                } else {
                    (forall|j: int| 0 <= j < i && #[trigger] du_jour(s[j], jour) ==> s[j].prise_le.unwrap().utc <= s[k as int].prise_le.unwrap().utc)
                    && (forall|j: int| k < j < i && #[trigger] du_jour(s[j], jour) ==> s[j].prise_le.unwrap().utc < s[k as int].prise_le.unwrap().utc)
                }),
                None => forall|j: int| 0 <= j < i ==> !#[trigger] du_jour(s[j], jour),
            },
        decreases medias.len() - i,
    {
        let m = &medias[i];
        if m.jour == Some(jour) && m.position.is_some() && m.prise_le.is_some() {
            let t = m.prise_le.unwrap().utc;
            let remplace = match meilleur {
                None => true,
                Some(k) => {
                    let u = medias[k].prise_le.unwrap().utc;
                    if premiere {
                        t < u
                    } else {
                        t >= u
                    }
                },
            };
            if remplace {
                meilleur = Some(i);
            }
        }
        i += 1;
    }
    meilleur
}

// ---------------------------------------------------------------------------
// Demandes d'itinéraires : transits et sorties de camp
// ---------------------------------------------------------------------------

/// Un itinéraire à demander au moteur pour une journée.
#[derive(Debug, Clone)]
pub struct DemandeItineraire {
    pub jour: i64,
    pub mode: Mode,
    pub depart: Position,
    pub arrivee: Position,
    pub passages: Vec<Point>,
}

pub open spec fn vue_demande(d: DemandeItineraire) -> (i64, Mode, Position, Position, Seq<Point>) {
    (d.jour, d.mode, d.depart, d.arrivee, d.passages@)
}

pub open spec fn vues_demandes(v: Seq<DemandeItineraire>) -> Seq<(i64, Mode, Position, Position, Seq<Point>)> {
    v.map_values(|d: DemandeItineraire| vue_demande(d))
}

/// Les points de passage imposés à ce jour, pour les modes retenus par
/// `garde`, dans l'ordre des forçages.
pub open spec fn passages_du_jour(fs: Seq<crate::overrides::ForcageItineraire>, jour: i64, mode: Option<Mode>) -> Seq<Point>
    decreases fs.len(),
{
    if fs.len() == 0 {
        seq![]
    } else {
        let f = fs.last();
        let garde = match mode {
            Some(m) => f.mode == m,
            None => calculable_spec(f.mode),
        };
        if f.jour == jour && garde {
            passages_du_jour(fs.drop_last(), jour, mode) + f.points_de_passage@
        } else {
            passages_du_jour(fs.drop_last(), jour, mode)
        }
    }
}

/// Les points de passage d'un jour : ceux des forçages de ce mode, ou, sans
/// mode désigné, de tout mode calculable. Un col imposé à la voiture n'a rien
/// à faire dans un itinéraire cyclable.
pub fn passages(overrides: &Overrides, jour: i64, mode: Option<Mode>) -> (r: Vec<Point>)
    ensures
        r@ == passages_du_jour(overrides.itineraires@, jour, mode),
{
    let fs = &overrides.itineraires;
    let mut r: Vec<Point> = Vec::new();
    let mut i: usize = 0;
    while i < fs.len()
        invariant
            i <= fs@.len(),
            r@ == passages_du_jour(fs@.take(i as int), jour, mode),
        decreases fs@.len() - i,
    {
        assert(fs@.take(i + 1).drop_last() =~= fs@.take(i as int));
        let f = &fs[i];
        let garde = match mode {
            Some(m) => f.mode == m,
            None => f.mode.calculable(),
        };
        if f.jour == jour && garde {
            let mut k: usize = 0;
            let ghost avant = r@;
            while k < f.points_de_passage.len()
                invariant
                    k <= f.points_de_passage@.len(),
                    r@ == avant + f.points_de_passage@.take(k as int),
                decreases f.points_de_passage@.len() - k,
            {
                r.push(f.points_de_passage[k]);
                k += 1;
                assert(r@ =~= avant + f.points_de_passage@.take(k as int));
            }
            assert(f.points_de_passage@.take(k as int) =~= f.points_de_passage@);
        }
        i += 1;
    }
    assert(fs@.take(fs@.len() as int) =~= fs@);
    r
}


/// L'indice du premier média du jour, ou -1.
pub open spec fn premier_du_jour(s: Seq<Media>, jour: i64) -> int {
    if exists|k: int| est_premier_du_jour(s, jour, k) {
        choose|k: int| est_premier_du_jour(s, jour, k)
    } else {
        -1
    }
}

/// L'indice du dernier média du jour, ou -1.
pub open spec fn dernier_du_jour(s: Seq<Media>, jour: i64) -> int {
    if exists|k: int| est_dernier_du_jour(s, jour, k) {
        choose|k: int| est_dernier_du_jour(s, jour, k)
    } else {
        -1
    }
}

proof fn lemme_premier_unique(s: Seq<Media>, jour: i64, k: int)
    requires
        est_premier_du_jour(s, jour, k),
    ensures
        premier_du_jour(s, jour) == k,
{
    let c = choose|c: int| est_premier_du_jour(s, jour, c);
    assert(est_premier_du_jour(s, jour, c));
    if c < k {
        assert(du_jour(s[c], jour));
    }
    if k < c {
        assert(du_jour(s[k], jour));
    }
}

proof fn lemme_dernier_unique(s: Seq<Media>, jour: i64, k: int)
    requires
        est_dernier_du_jour(s, jour, k),
    ensures
        dernier_du_jour(s, jour) == k,
{
    let c = choose|c: int| est_dernier_du_jour(s, jour, c);
    assert(est_dernier_du_jour(s, jour, c));
    if c < k {
        assert(du_jour(s[c], jour));
    }
    if k < c {
        assert(du_jour(s[k], jour));
    }
}

proof fn lemme_aucun_du_jour(s: Seq<Media>, jour: i64)
    requires
        forall|j: int| 0 <= j < s.len() ==> !#[trigger] du_jour(s[j], jour),
    ensures
        premier_du_jour(s, jour) == -1,
        dernier_du_jour(s, jour) == -1,
{
    if exists|k: int| est_premier_du_jour(s, jour, k) {
        let k = choose|k: int| est_premier_du_jour(s, jour, k);
        assert(du_jour(s[k], jour));
    }
    if exists|k: int| est_dernier_du_jour(s, jour, k) {
        let k = choose|k: int| est_dernier_du_jour(s, jour, k);
        assert(du_jour(s[k], jour));
    }
}

/// La première ou la dernière position connue d'une journée, quelle que
/// soit sa fiabilité.
pub open spec fn extremite(s: Seq<Media>, jour: i64, premiere: bool) -> Option<Position> {
    let k = if premiere {
        premier_du_jour(s, jour)
    } else {
        dernier_du_jour(s, jour)
    };
    if 0 <= k < s.len() {
        s[k].position
    } else {
        None
    }
}

fn extremite_exec(medias: &Vec<Media>, jour: i64, premiere: bool) -> (r: Option<Position>)
    ensures
        r == extremite(medias@, jour, premiere),
{
    match media_extreme(medias, jour, premiere) {
        Some(k) => {
            proof {
                if premiere {
                    lemme_premier_unique(medias@, jour, k as int);
                } else {
                    lemme_dernier_unique(medias@, jour, k as int);
                }
            }
            medias[k].position
        },
        None => {
            proof {
                lemme_aucun_du_jour(medias@, jour);
            }
            None
        },
    }
}

/// Le camp de la veille au soir, s'il y en a un ; rien le premier jour
/// représentable.
pub open spec fn camp_de_la_veille(ls: Seq<Lieu>, jour: i64) -> int {
    if jour > i64::MIN {
        camp_de_la_nuit_spec(ls, (jour - 1) as i64)
    } else {
        -1
    }
}

/// Les bouts d'une journée de transit : le camp de la veille et celui du
/// soir, à défaut la première et la dernière position connue du jour. Une
/// journée au même camp matin et soir n'est pas un transit.
pub open spec fn bouts_transit(s: Seq<Media>, ls: Seq<Lieu>, jour: i64) -> Option<(Position, Position)> {
    let a = camp_de_la_veille(ls, jour);
    let b = camp_de_la_nuit_spec(ls, jour);
    if a >= 0 && b >= 0 && ls[a].id@ == ls[b].id@ {
        None
    } else {
        let d = if a >= 0 {
            Some(ls[a].position)
        } else {
            extremite(s, jour, true)
        };
        let e = if b >= 0 {
            Some(ls[b].position)
        } else {
            extremite(s, jour, false)
        };
        match (d, e) {
            (Some(x), Some(y)) => Some((x, y)),
            _ => None,
        }
    }
}

pub type VueDemande = (i64, Mode, Position, Position, Seq<Point>);

/// La demande de transit d'une journée : de bout en bout, par la route,
/// avec les points de passage du jour, si les bouts sont à plus de trois
/// kilomètres.
pub open spec fn demande_transit<F: Fn(Position, Position) -> u64>(
    s: Seq<Media>,
    v: Voyage,
    o: Overrides,
    f: F,
    jour: i64,
) -> Option<VueDemande> {
    match bouts_transit(s, v.lieux@, jour) {
        Some((x, y)) => if distance(f, x, y) >= MILLIMETRES_TRANSIT_MINIMUM {
            Some((jour, Mode::Route, x, y, passages_du_jour(o.itineraires@, jour, None)))
        } else {
            None
        },
        None => None,
    }
}

/// Les demandes de transit des `n` premiers jours du voyage.
pub open spec fn demandes_transits_spec<F: Fn(Position, Position) -> u64>(
    s: Seq<Media>,
    v: Voyage,
    o: Overrides,
    f: F,
    n: int,
) -> Seq<VueDemande>
    decreases n,
{
    if n <= 0 {
        seq![]
    } else {
        let avant = demandes_transits_spec(s, v, o, f, n - 1);
        match demande_transit(s, v, o, f, (v.date_debut + n - 1) as i64) {
            Some(d) => avant.push(d),
            None => avant,
        }
    }
}

/// Nombre de jours du voyage, bornes comprises.
pub open spec fn nombre_de_jours(v: Voyage) -> int {
    if v.date_fin >= v.date_debut {
        v.date_fin - v.date_debut + 1
    } else {
        0
    }
}

fn camp_de_la_veille_exec(voyage: &Voyage, jour: i64) -> (r: Option<usize>)
    ensures
        match r {
            Some(k) => k == camp_de_la_veille(voyage.lieux@, jour) && k < voyage.lieux@.len(),
            None => camp_de_la_veille(voyage.lieux@, jour) == -1,
        },
{
    if jour > i64::MIN {
        camp_de_la_nuit(voyage, jour - 1)
    } else {
        None
    }
}

/// Les journées de déplacement d'un camp à l'autre : les photos n'en
/// documentent pas les trajets, l'itinéraire routier de l'un à l'autre est
/// donc à demander.
pub fn demandes_transits<F: Fn(Position, Position) -> u64>(
    medias: &Vec<Media>,
    voyage: &Voyage,
    overrides: &Overrides,
    distance: &F,
) -> (r: Vec<DemandeItineraire>)
    requires
        mesure_valide(*distance),
    ensures
        vues_demandes(r@) == demandes_transits_spec(medias@, *voyage, *overrides, *distance, nombre_de_jours(*voyage)),
{
    let mut r: Vec<DemandeItineraire> = Vec::new();
    if voyage.date_fin < voyage.date_debut {
        return r;
    }
    let mut jour = voyage.date_debut;
    loop
        invariant
            voyage.date_debut <= jour <= voyage.date_fin,
            mesure_valide(*distance),
            vues_demandes(r@) == demandes_transits_spec(medias@, *voyage, *overrides, *distance, jour - voyage.date_debut),
        decreases voyage.date_fin - jour,
    {
        let ghost n = jour - voyage.date_debut;
        let veille = camp_de_la_veille_exec(voyage, jour);
        let soir = camp_de_la_nuit(voyage, jour);
        let meme_camp = match (veille, soir) {
            (Some(a), Some(b)) => voyage.lieux[a].id == voyage.lieux[b].id,
            _ => false,
        };
        if !meme_camp {
            let depart = match veille {
                Some(a) => Some(voyage.lieux[a].position),
                None => extremite_exec(medias, jour, true),
            };
            let arrivee = match soir {
                Some(b) => Some(voyage.lieux[b].position),
                None => extremite_exec(medias, jour, false),
            };
            if let (Some(x), Some(y)) = (depart, arrivee) {
                if mesurer(distance, x, y) >= MILLIMETRES_TRANSIT_MINIMUM {
                    let ghost avant = r@;
                    let p = passages(overrides, jour, None);
                    r.push(DemandeItineraire { jour, mode: Mode::Route, depart: x, arrivee: y, passages: p });
                    assert(vues_demandes(r@) =~= vues_demandes(avant).push(vue_demande(r@.last())));
                }
            }
        }
        if jour == voyage.date_fin {
            return r;
        }
        jour = jour + 1;
    }
}


/// Les tronçons, moins les tronçons routiers de ce jour.
pub open spec fn sans_route_du_jour(ts: Seq<VueTroncon>, jour: i64) -> Seq<VueTroncon>
    decreases ts.len(),
{
    if ts.len() == 0 {
        ts
    } else if ts.last().0 == jour && ts.last().1 == Mode::Route {
        sans_route_du_jour(ts.drop_last(), jour)
    } else {
        sans_route_du_jour(ts.drop_last(), jour).push(ts.last())
    }
}

/// Les tronçons après les `n` premières réponses aux demandes de transit.
/// L'itinéraire du jour remplace les tronçons routiers déduits de la
/// vitesse : c'est le même trajet, tracé en mieux. Sa source est `heritee`.
pub open spec fn apres_transits(
    ts: Seq<VueTroncon>,
    ds: Seq<DemandeItineraire>,
    rs: Seq<Option<Vec<Point>>>,
    n: int,
) -> (Seq<VueTroncon>, nat, Seq<i64>)
    decreases n,
{
    if n <= 0 {
        (ts, 0, seq![])
    } else {
        let e = apres_transits(ts, ds, rs, n - 1);
        let jour = ds[n - 1].jour;
        match rs[n - 1] {
            Some(pts) => (
                sans_route_du_jour(e.0, jour).push((jour, Mode::Route, SourceTrace::Heritee, pts@)),
                e.1 + 1,
                e.2,
            ),
            None => (e.0, e.1, e.2.push(jour)),
        }
    }
}

fn retirer_routes_du_jour(troncons: Vec<Troncon>, jour: i64) -> (r: Vec<Troncon>)
    ensures
        vues_troncons(r@) == sans_route_du_jour(vues_troncons(troncons@), jour),
{
    let ghost s = troncons@;
    let mut r: Vec<Troncon> = Vec::new();
    for t in it: troncons.into_iter()
        invariant
            it.seq() == s,
            vues_troncons(r@) == sans_route_du_jour(vues_troncons(s.take(it.index() as int)), jour),
    {
        let ghost i = it.index() as int;
        assert(vues_troncons(s.take(i + 1)).drop_last() =~= vues_troncons(s.take(i)));
        assert(s.take(i + 1).last() == t);
        if !(t.jour == jour && t.mode == Mode::Route) {
            let ghost avant = r@;
            r.push(t);
            assert(vues_troncons(r@) =~= vues_troncons(avant).push(vue_troncon(t)));
        }
    }
    assert(s.take(s.len() as int) =~= s);
    r
}

/// Range les réponses aux demandes de transit dans les tronçons, et rend le
/// nombre de transits tracés et les journées manquées.
pub fn appliquer_transits(
    troncons: &mut Vec<Troncon>,
    demandes: &Vec<DemandeItineraire>,
    reponses: Vec<Option<Vec<Point>>>,
) -> (r: (usize, Vec<i64>))
    requires
        reponses@.len() == demandes@.len(),
    ensures
        vues_troncons(final(troncons)@) == apres_transits(vues_troncons(old(troncons)@), demandes@, reponses@, demandes@.len() as int).0,
        r.0 == apres_transits(vues_troncons(old(troncons)@), demandes@, reponses@, demandes@.len() as int).1,
        r.1@ == apres_transits(vues_troncons(old(troncons)@), demandes@, reponses@, demandes@.len() as int).2,
{
    let ghost ts = vues_troncons(troncons@);
    let ghost rs = reponses@;
    let mut transits: usize = 0;
    let mut manques: Vec<i64> = Vec::new();
    let mut i: usize = 0;
    let n = demandes.len();
    for reponse in it: reponses.into_iter()
        invariant
            it.seq() == rs,
            rs.len() == n,
            n == demandes@.len(),
            i == it.index(),
            i <= n,
            transits <= i,
            vues_troncons(troncons@) == apres_transits(ts, demandes@, rs, i as int).0,
            transits == apres_transits(ts, demandes@, rs, i as int).1,
            manques@ == apres_transits(ts, demandes@, rs, i as int).2,
    {
        let jour = demandes[i].jour;
        assert(reponse == rs[i as int]);
        match reponse {
            Some(points) => {
                let mut anciens: Vec<Troncon> = Vec::new();
                std::mem::swap(&mut anciens, troncons);
                *troncons = retirer_routes_du_jour(anciens, jour);
                let ghost avant = troncons@;
                troncons.push(Troncon { jour, mode: Mode::Route, source: SourceTrace::Heritee, points });
                assert(vues_troncons(troncons@) =~= vues_troncons(avant).push(vue_troncon(troncons@.last())));
                transits = transits + 1;
            },
            None => {
                manques.push(jour);
            },
        }
        i += 1;
    }
    (transits, manques)
}

/// Le camp où l'on dort la veille et le soir, pour une journée sur place.
pub open spec fn camp_sur_place(ls: Seq<Lieu>, jour: i64) -> int {
    let a = camp_de_la_veille(ls, jour);
    let b = camp_de_la_nuit_spec(ls, jour);
    if a >= 0 && b >= 0 && ls[a].id@ == ls[b].id@ {
        a
    } else {
        -1
    }
}

/// La sortie du camp vers la première photo du jour, ou le retour de la
/// dernière photo au camp, si la photo est à un kilomètre ou plus du camp.
pub open spec fn demande_sortie<F: Fn(Position, Position) -> u64>(
    s: Seq<Media>,
    ls: Seq<Lieu>,
    f: F,
    jour: i64,
    depuis_le_camp: bool,
) -> Option<VueDemande> {
    let c = camp_sur_place(ls, jour);
    if c < 0 {
        None
    } else {
        let camp = ls[c].position;
        match extremite(s, jour, depuis_le_camp) {
            Some(photo) => if distance(f, camp, photo) >= MILLIMETRES_SORTIE_DE_CAMP {
                if depuis_le_camp {
                    Some((jour, Mode::Route, camp, photo, seq![]))
                } else {
                    Some((jour, Mode::Route, photo, camp, seq![]))
                }
            } else {
                None
            },
            None => None,
        }
    }
}

pub open spec fn demandes_sorties_spec<F: Fn(Position, Position) -> u64>(s: Seq<Media>, v: Voyage, f: F, n: int) -> Seq<VueDemande>
    decreases n,
{
    if n <= 0 {
        seq![]
    } else {
        let jour = (v.date_debut + n - 1) as i64;
        let a = demandes_sorties_spec(s, v, f, n - 1);
        let b = match demande_sortie(s, v.lieux@, f, jour, true) {
            Some(d) => a.push(d),
            None => a,
        };
        match demande_sortie(s, v.lieux@, f, jour, false) {
            Some(d) => b.push(d),
            None => b,
        }
    }
}

fn demande_sortie_exec<F: Fn(Position, Position) -> u64>(
    medias: &Vec<Media>,
    voyage: &Voyage,
    f: &F,
    jour: i64,
    camp: Option<usize>,
    depuis_le_camp: bool,
) -> (r: Option<DemandeItineraire>)
    requires
        mesure_valide(*f),
        match camp {
            Some(c) => c == camp_sur_place(voyage.lieux@, jour) && c < voyage.lieux@.len(),
            None => camp_sur_place(voyage.lieux@, jour) < 0,
        },
    ensures
        match r {
            Some(d) => demande_sortie(medias@, voyage.lieux@, *f, jour, depuis_le_camp) == Some(vue_demande(d)),
            None => demande_sortie(medias@, voyage.lieux@, *f, jour, depuis_le_camp) is None,
        },
{
    let c = match camp {
        Some(c) => c,
        None => {
            return None;
        },
    };
    let position_camp = voyage.lieux[c].position;
    match extremite_exec(medias, jour, depuis_le_camp) {
        Some(photo) => {
            if mesurer(f, position_camp, photo) >= MILLIMETRES_SORTIE_DE_CAMP {
                let passages: Vec<Point> = Vec::new();
                assert(passages@ =~= Seq::<Point>::empty());
                if depuis_le_camp {
                    Some(DemandeItineraire { jour, mode: Mode::Route, depart: position_camp, arrivee: photo, passages })
                } else {
                    Some(DemandeItineraire { jour, mode: Mode::Route, depart: photo, arrivee: position_camp, passages })
                }
            } else {
                None
            }
        },
        None => None,
    }
}

/// Les journées sur place se tracent du camp à la première photo, et de la
/// dernière au camp : on part de là où l'on a dormi et l'on y revient.
pub fn demandes_sorties<F: Fn(Position, Position) -> u64>(medias: &Vec<Media>, voyage: &Voyage, distance: &F) -> (r: Vec<
    DemandeItineraire,
>)
    requires
        mesure_valide(*distance),
    ensures
        vues_demandes(r@) == demandes_sorties_spec(medias@, *voyage, *distance, nombre_de_jours(*voyage)),
{
    let mut r: Vec<DemandeItineraire> = Vec::new();
    if voyage.date_fin < voyage.date_debut {
        return r;
    }
    let mut jour = voyage.date_debut;
    loop
        invariant
            voyage.date_debut <= jour <= voyage.date_fin,
            mesure_valide(*distance),
            vues_demandes(r@) == demandes_sorties_spec(medias@, *voyage, *distance, jour - voyage.date_debut),
        decreases voyage.date_fin - jour,
    {
        let veille = camp_de_la_veille_exec(voyage, jour);
        let soir = camp_de_la_nuit(voyage, jour);
        let camp = match (veille, soir) {
            (Some(a), Some(b)) => if voyage.lieux[a].id == voyage.lieux[b].id {
                Some(a)
            } else {
                None
            },
            _ => None,
        };
        let ghost avant = r@;
        if let Some(d) = demande_sortie_exec(medias, voyage, distance, jour, camp, true) {
            r.push(d);
        }
        let ghost milieu = r@;
        if let Some(d) = demande_sortie_exec(medias, voyage, distance, jour, camp, false) {
            r.push(d);
        }
        proof {
            assert(vues_demandes(milieu) =~= match demande_sortie(medias@, voyage.lieux@, *distance, jour, true) {
                Some(d) => vues_demandes(avant).push(d),
                None => vues_demandes(avant),
            });
            assert(vues_demandes(r@) =~= match demande_sortie(medias@, voyage.lieux@, *distance, jour, false) {
                Some(d) => vues_demandes(milieu).push(d),
                None => vues_demandes(milieu),
            });
        }
        if jour == voyage.date_fin {
            return r;
        }
        jour = jour + 1;
    }
}

pub open spec fn troncons_de_reponses(ds: Seq<DemandeItineraire>, rs: Seq<Option<Vec<Point>>>, n: int) -> Seq<VueTroncon>
    decreases n,
{
    if n <= 0 {
        seq![]
    } else {
        match rs[n - 1] {
            Some(pts) => troncons_de_reponses(ds, rs, n - 1).push((ds[n - 1].jour, Mode::Route, SourceTrace::Heritee, pts@)),
            None => troncons_de_reponses(ds, rs, n - 1),
        }
    }
}

pub open spec fn nb_reponses(rs: Seq<Option<Vec<Point>>>, n: int) -> nat
    decreases n,
{
    if n <= 0 {
        0
    } else if rs[n - 1] is Some {
        nb_reponses(rs, n - 1) + 1
    } else {
        nb_reponses(rs, n - 1)
    }
}

/// Les tronçons des sorties de camp dont l'itinéraire est venu. Sans
/// itinéraire, rien : une droite à travers la montagne affirmerait plus que
/// ce que l'on sait.
pub fn troncons_des_sorties(demandes: &Vec<DemandeItineraire>, reponses: Vec<Option<Vec<Point>>>) -> (r: (Vec<Troncon>, usize))
    requires
        reponses@.len() == demandes@.len(),
    ensures
        vues_troncons(r.0@) == troncons_de_reponses(demandes@, reponses@, demandes@.len() as int),
        r.1 == nb_reponses(reponses@, demandes@.len() as int),
{
    let ghost rs = reponses@;
    let mut troncons: Vec<Troncon> = Vec::new();
    let mut nombre: usize = 0;
    let mut i: usize = 0;
    let n = demandes.len();
    for reponse in it: reponses.into_iter()
        invariant
            it.seq() == rs,
            rs.len() == n,
            n == demandes@.len(),
            i == it.index(),
            i <= n,
            nombre <= i,
            vues_troncons(troncons@) == troncons_de_reponses(demandes@, rs, i as int),
            nombre == nb_reponses(rs, i as int),
    {
        assert(reponse == rs[i as int]);
        if let Some(points) = reponse {
            let ghost avant = troncons@;
            troncons.push(Troncon { jour: demandes[i].jour, mode: Mode::Route, source: SourceTrace::Heritee, points });
            assert(vues_troncons(troncons@) =~= vues_troncons(avant).push(vue_troncon(troncons@.last())));
            nombre = nombre + 1;
        }
        i += 1;
    }
    (troncons, nombre)
}


// ---------------------------------------------------------------------------
// Héritage des lieux, jours sans trace, segments, répartitions
// ---------------------------------------------------------------------------

/// Le point du lieu d'une journée, si elle en déclare un que le voyage
/// connaît.
pub open spec fn point_du_lieu(ls: Seq<Lieu>, j: Journee) -> Option<Point> {
    match j.lieu {
        Some(id) => if lieu_par_id(ls, id@) >= 0 {
            Some(point_de(ls[lieu_par_id(ls, id@)].position))
        } else {
            None
        },
        None => None,
    }
}

/// Un tronçon porte déjà ce jour.
pub open spec fn jour_trace(ts: Seq<VueTroncon>, jour: i64) -> bool {
    exists|i: int| 0 <= i < ts.len() && (#[trigger] ts[i]).0 == jour
}

/// La trace de repli des `n` premières journées : la polyligne des lieux
/// successifs, pour les journées qu'aucun tronçon ne trace encore, et le
/// dernier point rencontré.
pub open spec fn heritage_lieux(ls: Seq<Lieu>, js: Seq<Journee>, ts: Seq<VueTroncon>, n: int) -> (Seq<VueTroncon>, Option<Point>)
    decreases n,
{
    if n <= 0 {
        (seq![], None)
    } else {
        let e = heritage_lieux(ls, js, ts, n - 1);
        match point_du_lieu(ls, js[n - 1]) {
            None => e,
            Some(p) => {
                let acc = match e.1 {
                    Some(a) => if !jour_trace(ts, js[n - 1].date) && a != p {
                        e.0.push((js[n - 1].date, Mode::Route, SourceTrace::Heritee, seq![a, p]))
                    } else {
                        e.0
                    },
                    None => e.0,
                };
                (acc, Some(p))
            },
        }
    }
}

fn jour_trace_exec(troncons: &Vec<Troncon>, jour: i64) -> (r: bool)
    ensures
        r == jour_trace(vues_troncons(troncons@), jour),
{
    let ghost ts = vues_troncons(troncons@);
    let mut i: usize = 0;
    while i < troncons.len()
        invariant
            i <= troncons@.len(),
            ts == vues_troncons(troncons@),
            forall|k: int| 0 <= k < i ==> (#[trigger] ts[k]).0 != jour,
        decreases troncons@.len() - i,
    {
        if troncons[i].jour == jour {
            assert(ts[i as int].0 == jour);
            return true;
        }
        i += 1;
    }
    false
}

/// Trace de repli pour les journées sans aucune position : la polyligne des
/// lieux successifs. Rend les tronçons à ajouter.
pub fn heriter_des_lieux(voyage: &Voyage, journees: &Vec<Journee>, troncons: &Vec<Troncon>) -> (r: Vec<Troncon>)
    ensures
        vues_troncons(r@) == heritage_lieux(voyage.lieux@, journees@, vues_troncons(troncons@), journees@.len() as int).0,
{
    let ghost ls = voyage.lieux@;
    let ghost js = journees@;
    let ghost ts = vues_troncons(troncons@);
    let mut r: Vec<Troncon> = Vec::new();
    let mut precedent: Option<Point> = None;
    let mut i: usize = 0;
    while i < journees.len()
        invariant
            i <= js.len(),
            ls == voyage.lieux@,
            js == journees@,
            ts == vues_troncons(troncons@),
            vues_troncons(r@) == heritage_lieux(ls, js, ts, i as int).0,
            precedent == heritage_lieux(ls, js, ts, i as int).1,
        decreases js.len() - i,
    {
        let journee = &journees[i];
        let point = match &journee.lieu {
            Some(id) => match crate::lieux::lieu_par_id_exec(&voyage.lieux, id) {
                Some(k) => Some([voyage.lieux[k].position.lon, voyage.lieux[k].position.lat]),
                None => None,
            },
            None => None,
        };
        match point {
            None => {},
            Some(p) => {
                if let Some(avant) = precedent {
                    let differents = avant[0] != p[0] || avant[1] != p[1];
                    assert(differents == (avant != p)) by {
                        if !differents {
                            assert(avant =~= p);
                        }
                    }
                    if !jour_trace_exec(troncons, journee.date) && differents {
                        let mut points: Vec<Point> = Vec::new();
                        points.push(avant);
                        points.push(p);
                        assert(points@ =~= seq![avant, p]);
                        let ghost anciens = r@;
                        r.push(Troncon { jour: journee.date, mode: Mode::Route, source: SourceTrace::Heritee, points });
                        assert(vues_troncons(r@) =~= vues_troncons(anciens).push(vue_troncon(r@.last())));
                    }
                }
                precedent = Some(p);
            },
        }
        i += 1;
    }
    r
}

/// Les jours des médias qu'aucun tronçon ne trace.
pub open spec fn jours_sans_trace_spec(s: Seq<Media>, ts: Seq<VueTroncon>) -> Set<i64> {
    Set::new(|j: i64| (exists|k: int| 0 <= k < s.len() && (#[trigger] s[k]).jour == Some(j)) && !jour_trace(ts, j))
}

/// Les journées qui portent des médias mais aucune trace, rangées.
pub fn jours_sans_trace(medias: &Vec<Media>, troncons: &Vec<Troncon>) -> (r: Vec<i64>)
    ensures
        jours_croissants(r@),
        r@.to_set() == jours_sans_trace_spec(medias@, vues_troncons(troncons@)),
{
    let ghost s = medias@;
    let ghost ts = vues_troncons(troncons@);
    let mut r: Vec<i64> = Vec::new();
    let mut k: usize = 0;
    while k < medias.len()
        invariant
            k <= s.len(),
            s == medias@,
            ts == vues_troncons(troncons@),
            jours_croissants(r@),
            r@.to_set() == Set::new(|j: i64| (exists|q: int| 0 <= q < k && (#[trigger] s[q]).jour == Some(j)) && !jour_trace(ts, j)),
        decreases s.len() - k,
    {
        let ghost avant = r@.to_set();
        if let Some(j) = medias[k].jour {
            if !jour_trace_exec(troncons, j) {
                inserer_jour(&mut r, j);
            }
        }
        assert(r@.to_set() =~= Set::new(|j: i64| (exists|q: int| 0 <= q < k + 1 && (#[trigger] s[q]).jour == Some(j)) && !jour_trace(ts, j))) by {
            assert forall|j: i64| (exists|q: int| 0 <= q < k + 1 && (#[trigger] s[q]).jour == Some(j)) && !jour_trace(ts, j) implies r@.to_set().contains(j) by {
                let q = choose|q: int| 0 <= q < k + 1 && (#[trigger] s[q]).jour == Some(j);
                if q < k {
                    assert(avant.contains(j));
                }
            }
        }
        k += 1;
    }
    assert(r@.to_set() =~= jours_sans_trace_spec(s, ts));
    r
}

/// Un segment porte ce jour.
pub open spec fn segment_du_jour(ss: Seq<Segment>, jour: i64) -> bool {
    exists|i: int| 0 <= i < ss.len() && (#[trigger] ss[i]).jour == jour
}

/// Les jours des lots à répartir dont la journée ne porte aucun segment
/// manuel : une consigne inapplicable, qui doit être dite.
pub open spec fn repartitions_sans_segment_spec(lots: Seq<Lot>, ss: Seq<Segment>) -> Seq<i64>
    decreases lots.len(),
{
    if lots.len() == 0 {
        seq![]
    } else {
        let l = lots.last();
        let avant = repartitions_sans_segment_spec(lots.drop_last(), ss);
        if l.repartir_sur_segment && l.jour is Some && !segment_du_jour(ss, l.jour.unwrap()) {
            avant.push(l.jour.unwrap())
        } else {
            avant
        }
    }
}

pub fn repartitions_sans_segment(overrides: &Overrides) -> (r: Vec<i64>)
    ensures
        r@ == repartitions_sans_segment_spec(overrides.lots@, overrides.segments@),
{
    let lots = &overrides.lots;
    let ss = &overrides.segments;
    let mut r: Vec<i64> = Vec::new();
    let mut i: usize = 0;
    while i < lots.len()
        invariant
            i <= lots@.len(),
            r@ == repartitions_sans_segment_spec(lots@.take(i as int), ss@),
        decreases lots@.len() - i,
    {
        assert(lots@.take(i + 1).drop_last() =~= lots@.take(i as int));
        let l = &lots[i];
        if l.repartir_sur_segment {
            if let Some(j) = l.jour {
                let mut present = false;
                let mut k: usize = 0;
                while k < ss.len()
                    invariant
                        k <= ss@.len(),
                        present == exists|q: int| 0 <= q < k && (#[trigger] ss@[q]).jour == j,
                    decreases ss@.len() - k,
                {
                    if ss[k].jour == j {
                        present = true;
                    }
                    k += 1;
                }
                if !present {
                    r.push(j);
                }
            }
        }
        i += 1;
    }
    assert(lots@.take(lots@.len() as int) =~= lots@);
    r
}

pub open spec fn position_du_point(p: Point) -> Position {
    Position { lat: p[1], lon: p[0], alt: None }
}

/// Un segment marqué `calculer`, d'un mode calculable et d'au moins deux
/// points, fait tracer la route entre ses points par le moteur : du premier
/// au dernier, par ceux du milieu.
pub open spec fn demande_segment_spec(s: Segment) -> Option<VueDemande> {
    if s.calculer && calculable_spec(s.mode) && s.points@.len() >= 2 {
        Some(
            (
                s.jour,
                s.mode,
                position_du_point(s.points@[0]),
                position_du_point(s.points@.last()),
                s.points@.subrange(1, s.points@.len() - 1),
            ),
        )
    } else {
        None
    }
}

pub fn demande_segment(s: &Segment) -> (r: Option<DemandeItineraire>)
    ensures
        match r {
            Some(d) => demande_segment_spec(*s) == Some(vue_demande(d)),
            None => demande_segment_spec(*s) is None,
        },
{
    if s.calculer && s.mode.calculable() && s.points.len() >= 2 {
        let n = s.points.len();
        let premier = s.points[0];
        let dernier = s.points[n - 1];
        let mut passages: Vec<Point> = Vec::new();
        let mut i: usize = 1;
        while i < n - 1
            invariant
                1 <= i <= n - 1,
                n == s.points@.len(),
                passages@ == s.points@.subrange(1, i as int),
            decreases n - 1 - i,
        {
            passages.push(s.points[i]);
            i += 1;
            assert(passages@ =~= s.points@.subrange(1, i as int));
        }
        Some(DemandeItineraire {
            jour: s.jour,
            mode: s.mode,
            depart: Position { lat: premier[1], lon: premier[0], alt: None },
            arrivee: Position { lat: dernier[1], lon: dernier[0], alt: None },
            passages,
        })
    } else {
        None
    }
}

/// Le tronçon d'un segment : calculé si un itinéraire est venu, manuel avec
/// ses propres points sinon.
pub fn troncon_de_segment(s: &Segment, reponse: Option<Vec<Point>>) -> (r: Troncon)
    ensures
        vue_troncon(r) == match reponse {
            Some(pts) => (s.jour, s.mode, SourceTrace::Calculee, pts@),
            None => (s.jour, s.mode, SourceTrace::Manuelle, s.points@),
        },
{
    match reponse {
        Some(points) => Troncon { jour: s.jour, mode: s.mode, source: SourceTrace::Calculee, points },
        None => {
            let mut points: Vec<Point> = Vec::new();
            let mut i: usize = 0;
            while i < s.points.len()
                invariant
                    i <= s.points@.len(),
                    points@ == s.points@.take(i as int),
                decreases s.points@.len() - i,
            {
                points.push(s.points[i]);
                i += 1;
                assert(points@ =~= s.points@.take(i as int));
            }
            assert(s.points@.take(i as int) =~= s.points@);
            Troncon { jour: s.jour, mode: s.mode, source: SourceTrace::Manuelle, points }
        },
    }
}

/// Ce que la construction des traces a produit, hors kilométrage.
#[derive(Debug, Clone)]
pub struct BilanTraces {
    pub jours_traces: usize,
    /// Journées qui portent des médias mais aucune trace.
    pub jours_sans_trace: Vec<i64>,
    pub troncons_calcules: usize,
    /// Tronçons routiers restés droits, faute d'itinéraire disponible.
    pub troncons_droits: usize,
    /// Lots à répartir dont la journée ne porte aucun segment manuel.
    pub repartitions_sans_segment: Vec<i64>,
    /// Journées de déplacement dont l'itinéraire entre camps a été calculé.
    pub transits: usize,
    /// Journées de déplacement dont l'itinéraire n'a pas pu l'être.
    pub transits_manques: Vec<i64>,
    /// Trajets calculés entre le camp et la première ou la dernière photo.
    pub sorties_de_camp: usize,
}

/// La trace d'un voyage : ses tronçons, les points de ses médias, et le
/// bilan de sa construction.
#[derive(Debug, Clone)]
pub struct Traces {
    pub troncons: Vec<Troncon>,
    pub points: Vec<PointMedia>,
    pub bilan: BilanTraces,
}


// ---------------------------------------------------------------------------
// Les paires d'une journée
// ---------------------------------------------------------------------------

/// Un média fiable et positionné de cette journée : il porte la trace.
pub open spec fn porte_la_trace(m: Media, jour: i64) -> bool {
    m.fiabilite == Fiabilite::Haute && m.position is Some && m.jour == Some(jour)
}

pub open spec fn utc_option(m: Media) -> Option<i64> {
    match m.prise_le {
        Some(i) => Some(i.utc),
        None => None,
    }
}

/// Les rangs des médias qui portent la trace du jour, dans l'ordre des médias.
pub open spec fn rangs_trace(s: Seq<Media>, jour: i64, n: int) -> Seq<Rang>
    decreases n,
{
    if n <= 0 {
        seq![]
    } else if porte_la_trace(s[n - 1], jour) {
        rangs_trace(s, jour, n - 1).push((utc_option(s[n - 1]), (n - 1) as usize))
    } else {
        rangs_trace(s, jour, n - 1)
    }
}

/// La paire de deux médias consécutifs dans l'ordre chronologique ; sans
/// horodatage de part ou d'autre, elle ne trace rien.
pub open spec fn paire_de<F: Fn(Position, Position) -> u64>(
    a: Media,
    b: Media,
    jour: i64,
    modes: Seq<ForcageMode>,
    fuseau: Seq<char>,
    f: F,
) -> Paire {
    Paire {
        depart: a.position.unwrap(),
        arrivee: b.position.unwrap(),
        mode: if a.prise_le is Some && b.prise_le is Some {
            mode_de_paire_spec(
                jour,
                a.prise_le.unwrap(),
                b.prise_le.unwrap(),
                distance(f, a.position.unwrap(), b.position.unwrap()),
                modes,
                fuseau,
            )
        } else {
            None
        },
    }
}

/// Les paires consécutives d'une suite rangée.
pub open spec fn paires_spec<F: Fn(Position, Position) -> u64>(
    s: Seq<Media>,
    t: Seq<Rang>,
    jour: i64,
    modes: Seq<ForcageMode>,
    fuseau: Seq<char>,
    f: F,
) -> Seq<Paire>
    decreases t.len(),
{
    if t.len() < 2 {
        seq![]
    } else {
        paires_spec(s, t.drop_last(), jour, modes, fuseau, f).push(
            paire_de(s[t[t.len() - 2].1 as int], s[t.last().1 as int], jour, modes, fuseau, f),
        )
    }
}

/// Les paires d'une journée : ses médias fiables et positionnés, rangés par
/// horodatage (l'absence en premier, l'ordre d'arrivée à égalité), pris deux
/// à deux.
pub open spec fn paires_du_jour_spec<F: Fn(Position, Position) -> u64>(
    s: Seq<Media>,
    jour: i64,
    modes: Seq<ForcageMode>,
    fuseau: Seq<char>,
    f: F,
) -> Seq<Paire> {
    paires_spec(s, tri_rangs(rangs_trace(s, jour, s.len() as int)), jour, modes, fuseau, f)
}

pub fn paires_du_jour<F: Fn(Position, Position) -> u64>(
    medias: &Vec<Media>,
    jour: i64,
    overrides: &Overrides,
    fuseau: &str,
    distance: &F,
) -> (r: Vec<Paire>)
    requires
        mesure_valide(*distance),
        instants_valides(medias@),
    ensures
        r@ == paires_du_jour_spec(medias@, jour, overrides.modes@, fuseau@, *distance),
{
    let ghost s = medias@;
    let n = medias.len();
    let mut rangs: Vec<Rang> = Vec::new();
    let mut k: usize = 0;
    while k < n
        invariant
            k <= n,
            n == s.len(),
            s == medias@,
            rangs@ == rangs_trace(s, jour, k as int),
            forall|q: int| 0 <= q < rangs@.len() ==> (#[trigger] rangs@[q]).1 < k && porte_la_trace(s[rangs@[q].1 as int], jour),
        decreases n - k,
    {
        let m = &medias[k];
        if m.fiabilite == Fiabilite::Haute && m.position.is_some() && m.jour == Some(jour) {
            let u = match m.prise_le {
                Some(i) => Some(i.utc),
                None => None,
            };
            rangs.push((u, k));
        }
        k += 1;
    }
    let ghost brut = rangs@;
    let t = trier_rangs(rangs);
    proof {
        lemme_tri_rangs_contenu(brut);
        assert forall|q: int| 0 <= q < t@.len() implies (#[trigger] t@[q]).1 < n && porte_la_trace(s[t@[q].1 as int], jour) by {
            let x = t@[q];
            assert(t@.contains(x));
            vstd::seq_lib::to_multiset_contains(t@, x);
            assert(brut.to_multiset().count(x) > 0);
            vstd::seq_lib::to_multiset_contains(brut, x);
            assert(brut.contains(x));
            let r = choose|r: int| 0 <= r < brut.len() && brut[r] == x;
            assert(brut[r].1 < n);
        }
    }
    let mut r: Vec<Paire> = Vec::new();
    if t.len() == 0 {
        return r;
    }
    assert(paires_spec(s, t@.take(1), jour, overrides.modes@, fuseau@, *distance) =~= Seq::<Paire>::empty());
    let mut i: usize = 1;
    while i < t.len()
        invariant
            1 <= i <= t@.len(),
            n == s.len(),
            s == medias@,
            mesure_valide(*distance),
            instants_valides(s),
            forall|q: int| 0 <= q < t@.len() ==> (#[trigger] t@[q]).1 < n && porte_la_trace(s[t@[q].1 as int], jour),
            r@ == paires_spec(s, t@.take(i as int), jour, overrides.modes@, fuseau@, *distance),
        decreases t@.len() - i,
    {
        let a = &medias[t[i - 1].1];
        let b = &medias[t[i].1];
        let pa = a.position.unwrap();
        let pb = b.position.unwrap();
        let mode = match (a.prise_le, b.prise_le) {
            (Some(ta), Some(tb)) => {
                assert(instant_lisible(ta.utc as int) && instant_lisible(tb.utc as int));
                let d = mesurer(distance, pa, pb);
                mode_de_paire(jour, ta, tb, d, overrides, fuseau)
            },
            _ => None,
        };
        proof {
            assert(t@.take(i + 1).drop_last() =~= t@.take(i as int));
            assert(t@.take(i + 1)[i - 1] == t@[i - 1]);
            assert(t@.take(i + 1).last() == t@[i as int]);
        }
        r.push(Paire { depart: pa, arrivee: pb, mode });
        i += 1;
    }
    assert(t@.take(t@.len() as int) =~= t@);
    r
}

/// Les journées qui portent des médias fiables et positionnés : celles dont
/// on trace les paires.
pub open spec fn jours_fiables_spec(s: Seq<Media>) -> Set<i64> {
    Set::new(|j: i64| exists|k: int| 0 <= k < s.len() && porte_la_trace(#[trigger] s[k], j))
}

pub fn jours_fiables(medias: &Vec<Media>) -> (r: Vec<i64>)
    ensures
        jours_croissants(r@),
        r@.to_set() == jours_fiables_spec(medias@),
{
    let ghost s = medias@;
    let mut r: Vec<i64> = Vec::new();
    let mut k: usize = 0;
    while k < medias.len()
        invariant
            k <= s.len(),
            s == medias@,
            jours_croissants(r@),
            r@.to_set() == Set::new(|j: i64| exists|q: int| 0 <= q < k && porte_la_trace(#[trigger] s[q], j)),
        decreases s.len() - k,
    {
        let ghost avant = r@.to_set();
        let m = &medias[k];
        if m.fiabilite == Fiabilite::Haute && m.position.is_some() {
            if let Some(j) = m.jour {
                inserer_jour(&mut r, j);
            }
        }
        assert(r@.to_set() =~= Set::new(|j: i64| exists|q: int| 0 <= q < k + 1 && porte_la_trace(#[trigger] s[q], j))) by {
            assert forall|j: i64| (exists|q: int| 0 <= q < k + 1 && porte_la_trace(#[trigger] s[q], j)) implies r@.to_set().contains(j) by {
                let q = choose|q: int| 0 <= q < k + 1 && porte_la_trace(#[trigger] s[q], j);
                if q < k {
                    assert(avant.contains(j));
                }
            }
        }
        k += 1;
    }
    assert(r@.to_set() =~= jours_fiables_spec(s));
    r
}

} // verus!
