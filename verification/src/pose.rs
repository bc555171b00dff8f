//! Repose sur la trace les positions que l'on ne croit pas.
//!
//! Une position basse est, le plus souvent, un relevé réseau : elle tombe
//! parfois à cinq cents mètres du lieu réel, et au bord d'un lac elle tombe
//! dans l'eau. Une fois la trace construite, on sait où le voyageur se
//! trouvait : entre deux positions fiables, il suivait le tronçon qui les
//! relie. Un média pris dans cet intervalle se pose donc sur cette
//! polyligne, à la fraction que dit son horodatage.
//!
//! La position reste basse : posée n'est pas mesurée. Son origine devient
//! `Posee`.

use vstd::prelude::*;

use crate::lieux::{borne_apres, borne_apres_exec, borne_avant, borne_avant_exec, ecart, ecart_exec, entre, est_borne, quotient, utc};
use crate::mesure::{distance, mesure_valide, mesurer, MESURE_MAXIMALE};
use crate::scan::{Fiabilite, Media, OriginePosition, Position};
use crate::track::{points_medias, points_medias_spec, position_du_point, vues_points, Point, Traces, Troncon};

verus! {

/// Écart maximal, en secondes, entre un média posé et chacune de ses
/// bornes : quatre-vingt-dix minutes au plus.
pub const SECONDES_POSE: i64 = 5400;

/// Tolérance, en millimètres, pour reconnaître le tronçon qui relie deux
/// bornes : le moteur d'itinéraire ramène parfois le premier point sur la
/// chaussée.
pub const MILLIMETRES_RACCORD: u64 = 60_000;

#[derive(Debug, Clone)]
pub struct Bilan {
    /// Médias reposés sur un tronçon.
    pub posees: usize,
    /// Médias candidats qu'aucun tronçon ne portait.
    pub sans_troncon: usize,
}

// ---------------------------------------------------------------------------
// Le long d'une polyligne
// ---------------------------------------------------------------------------

/// Longueur, selon la mesure, du segment `k` de la polyligne.
pub open spec fn segment<F: Fn(Position, Position) -> u64>(pts: Seq<Point>, k: int, f: F) -> int {
    distance(f, position_du_point(pts[k]), position_du_point(pts[k + 1])) as int
}

/// Longueur cumulée des `k` premiers segments.
pub open spec fn parcouru<F: Fn(Position, Position) -> u64>(pts: Seq<Point>, k: int, f: F) -> int
    decreases k,
{
    if k <= 0 {
        0
    } else {
        parcouru(pts, k - 1, f) + segment(pts, k - 1, f)
    }
}

pub open spec fn longueur<F: Fn(Position, Position) -> u64>(pts: Seq<Point>, f: F) -> int {
    parcouru(pts, pts.len() - 1, f)
}

/// Vrai si, au bout du segment `k`, on a parcouru la fraction `n / d` de la
/// longueur totale.
pub open spec fn atteint<F: Fn(Position, Position) -> u64>(pts: Seq<Point>, n: int, d: int, k: int, f: F) -> bool {
    (parcouru(pts, k, f) + segment(pts, k, f)) * d >= longueur(pts, f) * n
}

/// Premier segment, à partir de `k`, au bout duquel la fraction est
/// atteinte ; -1 s'il n'y en a pas.
pub open spec fn segment_vise<F: Fn(Position, Position) -> u64>(pts: Seq<Point>, n: int, d: int, k: int, f: F) -> int
    decreases pts.len() - k,
{
    if k < 0 || k + 1 >= pts.len() {
        -1
    } else if atteint(pts, n, d, k, f) {
        k
    } else {
        segment_vise(pts, n, d, k + 1, f)
    }
}

/// Le point situé à la fraction `n / d` de la longueur d'une polyligne, la
/// fraction ramenée entre zéro et un. Une polyligne de moins de deux points
/// n'en a pas ; une polyligne de longueur nulle rend son premier point.
/// Sinon le point est pris sur le premier segment au bout duquel la fraction
/// est atteinte, à la part de ce segment qui reste à parcourir, chaque
/// coordonnée arrondie vers le début du segment ; un segment de longueur
/// nulle rend son début.
pub open spec fn le_long_de_spec<F: Fn(Position, Position) -> u64>(pts: Seq<Point>, n: int, d: int, f: F) -> Option<Position> {
    if pts.len() < 2 {
        None
    } else {
        let total = longueur(pts, f);
        let nc = if n < 0 {
            0
        } else if n > d {
            d
        } else {
            n
        };
        if total == 0 {
            Some(position_du_point(pts[0]))
        } else {
            let k = segment_vise(pts, nc, d, 0, f);
            if k < 0 {
                Some(position_du_point(pts.last()))
            } else {
                let a = pts[k];
                let b = pts[k + 1];
                let seg = segment(pts, k, f);
                if seg == 0 {
                    Some(position_du_point(a))
                } else {
                    let rn = total * nc - parcouru(pts, k, f) * d;
                    let rd = seg * d;
                    Some(
                        Position {
                            lat: entre(a[1] as int, b[1] as int, rn, rd) as i64,
                            lon: entre(a[0] as int, b[0] as int, rn, rd) as i64,
                            alt: None,
                        },
                    )
                }
            }
        }
    }
}

proof fn lemme_parcouru_croissant<F: Fn(Position, Position) -> u64>(pts: Seq<Point>, i: int, j: int, f: F)
    requires
        0 <= i <= j,
    ensures
        parcouru(pts, i, f) <= parcouru(pts, j, f),
    decreases j - i,
{
    if i < j {
        lemme_parcouru_croissant(pts, i, j - 1, f);
    }
}

fn position_exec(p: Point) -> (r: Position)
    ensures
        r == position_du_point(p),
{
    Position { lat: p[1], lon: p[0], alt: None }
}

/// La coordonnée à la part `rn / rd` du chemin de `a` vers `b`, la part
/// comprise entre zéro et un : elle reste entre `a` et `b`.
fn entre_borne(a: i64, b: i64, rn: u128, rd: u128) -> (x: i64)
    requires
        0 < rd <= 100_000_000_000_000_000,
        rn <= rd,
    ensures
        x == entre(a as int, b as int, rn as int, rd as int),
{
    let diff: i128 = b as i128 - a as i128;
    let n: i128 = rn as i128;
    let d: i128 = rd as i128;
    assert(-2_000_000_000_000_000_000_000_000_000_000_000_000 < diff * n < 2_000_000_000_000_000_000_000_000_000_000_000_000) by (nonlinear_arith)
        requires
            -20_000_000_000_000_000_000 < diff,
            diff < 20_000_000_000_000_000_000,
            0 <= n <= 100_000_000_000_000_000,
    ;
    let produit: i128 = diff * n;
    let q: i128 = if produit >= 0 {
        produit / d
    } else {
        -((-produit) / d)
    };
    assert(q == quotient(diff * n, d as int));
    if diff >= 0 {
        assert(0 <= (diff * n) / (d as int) <= diff) by (nonlinear_arith)
            requires
                0 <= diff,
                0 <= n <= d,
                0 < d,
        ;
    } else {
        assert(0 <= ((-diff) * n) / (d as int) <= -diff) by (nonlinear_arith)
            requires
                diff < 0,
                0 <= n <= d,
                0 < d,
        ;
        assert((-diff) * n == -(diff * n)) by (nonlinear_arith);
    }
    (a as i128 + q) as i64
}

/// Point situé à la fraction `n / d` de la longueur d'une polyligne.
///
/// La fraction est celle du temps, reportée sur la distance : elle suppose
/// une allure constante entre deux bornes.
pub fn le_long_de<F: Fn(Position, Position) -> u64>(points: &Vec<Point>, n: i64, d: i64, f: &F) -> (r: Option<Position>)
    requires
        mesure_valide(*f),
        0 < d <= 20_000,
    ensures
        r == le_long_de_spec(points@, n as int, d as int, *f),
{
    let ghost pts = points@;
    let len = points.len();
    if len < 2 {
        return None;
    }
    let mut segments: Vec<u64> = Vec::new();
    let mut total: u128 = 0;
    let mut k: usize = 0;
    while k + 1 < len
        invariant
            len == pts.len(),
            pts == points@,
            len >= 2,
            k + 1 <= len,
            mesure_valide(*f),
            segments@.len() == k,
            forall|q: int| 0 <= q < k ==> segments@[q] == segment(pts, q, *f),
            forall|q: int| 0 <= q < k ==> segments@[q] <= MESURE_MAXIMALE,
            total == parcouru(pts, k as int, *f),
            total <= k * MESURE_MAXIMALE,
        decreases len - k,
    {
        let s = mesurer(f, position_exec(points[k]), position_exec(points[k + 1]));
        segments.push(s);
        total = total + s as u128;
        k += 1;
    }
    assert(total == longueur(pts, *f));
    let nc: i64 = if n < 0 {
        0
    } else if n > d {
        d
    } else {
        n
    };
    if total == 0 {
        return Some(position_exec(points[0]));
    }
    assert(total <= 18_446_744_073_709_551_615 * 1_000_000_000_000);
    let dd: u128 = d as u128;
    let ncu: u128 = nc as u128;
    assert(total * ncu <= 18_446_744_073_709_551_615 * 1_000_000_000_000 * 20_000) by (nonlinear_arith)
        requires
            total <= 18_446_744_073_709_551_615 * 1_000_000_000_000,
            ncu <= 20_000,
    ;
    let cible: u128 = total * ncu;
    let mut parcouru_k: u128 = 0;
    assert(parcouru_k * dd == 0) by (nonlinear_arith)
        requires
            parcouru_k == 0,
    ;
    let mut k: usize = 0;
    while k + 1 < len
        invariant
            len == pts.len(),
            pts == points@,
            len >= 2,
            k + 1 <= len,
            segments@.len() == len - 1,
            forall|q: int| 0 <= q < len - 1 ==> segments@[q] == segment(pts, q, *f),
            forall|q: int| 0 <= q < len - 1 ==> segments@[q] <= MESURE_MAXIMALE,
            total == longueur(pts, *f),
            total <= 18_446_744_073_709_551_615 * 1_000_000_000_000,
            total > 0,
            dd == d,
            0 < d <= 20_000,
            0 <= nc <= d,
            nc as int == (if n < 0 { 0 } else if n > d { d as int } else { n as int }),
            ncu == nc,
            cible == total * ncu,
            parcouru_k == parcouru(pts, k as int, *f),
            parcouru_k * dd <= cible,
            segment_vise(pts, nc as int, d as int, 0, *f) == segment_vise(pts, nc as int, d as int, k as int, *f),
        decreases len - k,
    {
        let seg = segments[k];
        proof {
            lemme_parcouru_croissant(pts, k as int + 1, len - 1, *f);
        }
        let atteint_k = parcouru_k + seg as u128;
        assert(atteint_k * dd <= 18_446_744_073_709_551_615 * 1_000_000_000_000 * 20_000) by (nonlinear_arith)
            requires
                atteint_k <= 18_446_744_073_709_551_615 * 1_000_000_000_000,
                dd <= 20_000,
        ;
        if atteint_k * dd >= cible {
            assert(segment_vise(pts, nc as int, d as int, k as int, *f) == k);
            let a = points[k];
            let b = points[k + 1];
            if seg == 0 {
                return Some(position_exec(a));
            }
            assert(seg as u128 * dd <= 1_000_000_000_000 * 20_000) by (nonlinear_arith)
                requires
                    seg <= 1_000_000_000_000,
                    dd <= 20_000,
            ;
            assert(seg as u128 * dd > 0) by (nonlinear_arith)
                requires
                    seg > 0,
                    dd > 0,
            ;
            assert(parcouru_k * dd + seg as u128 * dd == atteint_k * dd) by (nonlinear_arith)
                requires
                    atteint_k == parcouru_k + seg,
            ;
            let rn: u128 = cible - parcouru_k * dd;
            let rd: u128 = seg as u128 * dd;
            let lat = entre_borne(a[1], b[1], rn, rd);
            let lon = entre_borne(a[0], b[0], rn, rd);
            return Some(Position { lat, lon, alt: None });
        }
        parcouru_k = atteint_k;
        k += 1;
    }
    Some(position_exec(points[len - 1]))
}

// ---------------------------------------------------------------------------
// La pose
// ---------------------------------------------------------------------------

/// Vrai si ce tronçon va bien d'une borne à l'autre : il a au moins deux
/// points, le premier près du départ et le dernier près de l'arrivée.
pub open spec fn relie<F: Fn(Position, Position) -> u64>(t: Troncon, depart: Position, arrivee: Position, f: F) -> bool {
    &&& t.points@.len() >= 2
    &&& distance(f, position_du_point(t.points@[0]), depart) <= MILLIMETRES_RACCORD
    &&& distance(f, position_du_point(t.points@.last()), arrivee) <= MILLIMETRES_RACCORD
}

/// Le premier tronçon de la journée `j`, à partir de l'indice `k`, qui relie
/// les deux bornes ; -1 s'il n'y en a pas.
pub open spec fn troncon_reliant<F: Fn(Position, Position) -> u64>(
    ts: Seq<Troncon>,
    j: i64,
    depart: Position,
    arrivee: Position,
    k: int,
    f: F,
) -> int
    decreases ts.len() - k,
{
    if k < 0 || k >= ts.len() {
        -1
    } else if ts[k].jour == j && relie(ts[k], depart, arrivee, f) {
        k
    } else {
        troncon_reliant(ts, j, depart, arrivee, k + 1, f)
    }
}

/// Ce que la pose décide du média `k`. `None` : il n'est pas candidat (sa
/// position n'est pas basse, il n'est pas daté, il lui manque une borne
/// fiable de sa journée avant ou après lui, une borne est à plus de
/// quatre-vingt-dix minutes de lui, ou les bornes ne se suivent pas).
/// `Some(None)` : candidat, mais aucun tronçon de la journée ne relie ses
/// bornes. `Some(Some(p))` : posé en `p`, sur le premier tronçon qui les
/// relie, à la fraction du temps écoulé depuis la première borne.
pub open spec fn pose<F: Fn(Position, Position) -> u64>(s: Seq<Media>, ts: Seq<Troncon>, k: int, f: F) -> Option<Option<Position>> {
    let m = s[k];
    if m.fiabilite != Fiabilite::Basse || m.jour is None || m.prise_le is None {
        None
    } else {
        let j = m.jour.unwrap();
        let a = borne_avant(s, k, j);
        let b = borne_apres(s, k, j);
        if a < 0 || b < 0 {
            None
        } else {
            let t = utc(m);
            let t0 = utc(s[a]);
            let t1 = utc(s[b]);
            if ecart(t, t0) > SECONDES_POSE || ecart(t1, t) > SECONDES_POSE {
                None
            } else if t1 - t0 <= 0 {
                None
            } else {
                let q = troncon_reliant(ts, j, s[a].position.unwrap(), s[b].position.unwrap(), 0, f);
                if q < 0 {
                    Some(None)
                } else {
                    Some(le_long_de_spec(ts[q].points@, t - t0, t1 - t0, f))
                }
            }
        }
    }
}

/// Les médias après la pose : un média posé change de position et d'origine,
/// et garde sa fiabilité basse.
pub open spec fn pose_seq<F: Fn(Position, Position) -> u64>(s: Seq<Media>, ts: Seq<Troncon>, f: F) -> Seq<Media> {
    Seq::new(
        s.len(),
        |k: int|
            match pose(s, ts, k, f) {
                Some(Some(p)) => Media { position: Some(p), origine_position: Some(OriginePosition::Posee), ..s[k] },
                _ => s[k],
            },
    )
}

pub open spec fn nb_posees<F: Fn(Position, Position) -> u64>(s: Seq<Media>, ts: Seq<Troncon>, n: int, f: F) -> nat
    decreases n,
{
    if n <= 0 {
        0
    } else if pose(s, ts, n - 1, f) matches Some(Some(_)) {
        nb_posees(s, ts, n - 1, f) + 1
    } else {
        nb_posees(s, ts, n - 1, f)
    }
}

pub open spec fn nb_sans_troncon<F: Fn(Position, Position) -> u64>(s: Seq<Media>, ts: Seq<Troncon>, n: int, f: F) -> nat
    decreases n,
{
    if n <= 0 {
        0
    } else if pose(s, ts, n - 1, f) == Some(None::<Position>) {
        nb_sans_troncon(s, ts, n - 1, f) + 1
    } else {
        nb_sans_troncon(s, ts, n - 1, f)
    }
}

fn relie_exec<F: Fn(Position, Position) -> u64>(t: &Troncon, depart: Position, arrivee: Position, f: &F) -> (r: bool)
    requires
        mesure_valide(*f),
    ensures
        r == relie(*t, depart, arrivee, *f),
{
    let n = t.points.len();
    if n < 2 {
        return false;
    }
    let premier = mesurer(f, position_exec(t.points[0]), depart);
    if premier > MILLIMETRES_RACCORD {
        return false;
    }
    let dernier = mesurer(f, position_exec(t.points[n - 1]), arrivee);
    dernier <= MILLIMETRES_RACCORD
}

fn troncon_reliant_exec<F: Fn(Position, Position) -> u64>(
    ts: &Vec<Troncon>,
    j: i64,
    depart: Position,
    arrivee: Position,
    f: &F,
) -> (r: Option<usize>)
    requires
        mesure_valide(*f),
    ensures
        match r {
            Some(q) => q == troncon_reliant(ts@, j, depart, arrivee, 0, *f) && q < ts@.len(),
            None => troncon_reliant(ts@, j, depart, arrivee, 0, *f) == -1,
        },
{
    let mut k: usize = 0;
    while k < ts.len()
        invariant
            k <= ts@.len(),
            mesure_valide(*f),
            troncon_reliant(ts@, j, depart, arrivee, 0, *f) == troncon_reliant(ts@, j, depart, arrivee, k as int, *f),
        decreases ts@.len() - k,
    {
        if ts[k].jour == j && relie_exec(&ts[k], depart, arrivee, f) {
            return Some(k);
        }
        k += 1;
    }
    None
}

fn decider<F: Fn(Position, Position) -> u64>(medias: &Vec<Media>, ts: &Vec<Troncon>, k: usize, f: &F) -> (r: Option<Option<Position>>)
    requires
        k < medias@.len(),
        mesure_valide(*f),
    ensures
        r == pose(medias@, ts@, k as int, *f),
{
    let m = &medias[k];
    if m.fiabilite != Fiabilite::Basse {
        return None;
    }
    let (jour, instant) = match (m.jour, m.prise_le) {
        (Some(jour), Some(instant)) => (jour, instant),
        _ => {
            return None;
        },
    };
    let t = instant.utc;
    let (a, b) = match (borne_avant_exec(medias, k, jour), borne_apres_exec(medias, k, jour)) {
        (Some(a), Some(b)) => (a, b),
        _ => {
            return None;
        },
    };
    let t0 = medias[a].prise_le.unwrap().utc;
    let t1 = medias[b].prise_le.unwrap().utc;
    if ecart_exec(t, t0) > 5400 || ecart_exec(t1, t) > 5400 {
        return None;
    }
    if t1 <= t0 {
        return None;
    }
    let p0 = medias[a].position.unwrap();
    let p1 = medias[b].position.unwrap();
    match troncon_reliant_exec(ts, jour, p0, p1, f) {
        None => Some(None),
        Some(q) => Some(le_long_de(&ts[q].points, t - t0, t1 - t0, f)),
    }
}

/// Repose les positions basses sur la trace, puis renvoie le bilan.
pub fn appliquer<F: Fn(Position, Position) -> u64>(medias: &mut Vec<Media>, traces: &Traces, distance: &F) -> (b: Bilan)
    requires
        mesure_valide(*distance),
    ensures
        final(medias)@ == pose_seq(old(medias)@, traces.troncons@, *distance),
        b.posees == nb_posees(old(medias)@, traces.troncons@, old(medias)@.len() as int, *distance),
        b.sans_troncon == nb_sans_troncon(old(medias)@, traces.troncons@, old(medias)@.len() as int, *distance),
{
    let ghost s = medias@;
    let ghost ts = traces.troncons@;
    let mut decisions: Vec<Option<Option<Position>>> = Vec::new();
    let mut posees: usize = 0;
    let mut sans_troncon: usize = 0;
    let mut k: usize = 0;
    while k < medias.len()
        invariant
            k <= medias@.len(),
            s == medias@,
            ts == traces.troncons@,
            mesure_valide(*distance),
            decisions@.len() == k,
            forall|q: int| 0 <= q < k ==> decisions@[q] == pose(s, ts, q, *distance),
            posees == nb_posees(s, ts, k as int, *distance),
            sans_troncon == nb_sans_troncon(s, ts, k as int, *distance),
            posees + sans_troncon <= k,
        decreases medias@.len() - k,
    {
        let d = decider(medias, &traces.troncons, k, distance);
        match d {
            Some(Some(_)) => {
                posees = posees + 1;
            },
            Some(None) => {
                sans_troncon = sans_troncon + 1;
            },
            None => {},
        }
        decisions.push(d);
        k += 1;
    }
    let mut anciens: Vec<Media> = Vec::new();
    std::mem::swap(&mut anciens, medias);
    let n = anciens.len();
    let mut j: usize = 0;
    for m in it: anciens.into_iter()
        invariant
            it.seq() == s,
            s.len() == n,
            j == it.index(),
            j <= n,
            decisions@.len() == s.len(),
            forall|q: int| 0 <= q < s.len() ==> decisions@[q] == pose(s, ts, q, *distance),
            medias@ == pose_seq(s, ts, *distance).take(it.index() as int),
    {
        let ghost i = it.index() as int;
        let mut m = m;
        if let Some(Some(p)) = decisions[j] {
            m.position = Some(p);
            m.origine_position = Some(OriginePosition::Posee);
        }
        medias.push(m);
        j += 1;
        assert(medias@ =~= pose_seq(s, ts, *distance).take(i + 1));
    }
    assert(pose_seq(s, ts, *distance).take(s.len() as int) =~= pose_seq(s, ts, *distance));
    Bilan { posees, sans_troncon }
}

/// Posée n'est pas mesurée : la pose ne change la fiabilité d'aucun média,
/// et ne touche qu'aux médias dont la position est basse.
pub proof fn loi_pose_garde_la_fiabilite<F: Fn(Position, Position) -> u64>(s: Seq<Media>, ts: Seq<Troncon>, f: F)
    ensures
        pose_seq(s, ts, f).len() == s.len(),
        forall|k: int| 0 <= k < s.len() ==> (#[trigger] pose_seq(s, ts, f)[k]).fiabilite == s[k].fiabilite,
        forall|k: int| 0 <= k < s.len() && s[k].fiabilite != Fiabilite::Basse ==> #[trigger] pose_seq(s, ts, f)[k] == s[k],
{
}

/// Sans tronçon, rien n'est posé : mieux vaut un relevé douteux qu'une
/// position inventée.
pub proof fn loi_sans_troncon_rien_ne_bouge<F: Fn(Position, Position) -> u64>(s: Seq<Media>, f: F)
    ensures
        pose_seq(s, Seq::<Troncon>::empty(), f) == s,
{
    assert forall|k: int| 0 <= k < s.len() implies #[trigger] pose_seq(s, Seq::<Troncon>::empty(), f)[k] == s[k] by {
        let m = s[k];
        if !(m.fiabilite != Fiabilite::Basse || m.jour is None || m.prise_le is None) {
            let j = m.jour.unwrap();
            let a = borne_avant(s, k, j);
            let b = borne_apres(s, k, j);
            if a >= 0 && b >= 0 {
                assert(troncon_reliant(Seq::<Troncon>::empty(), j, s[a].position.unwrap(), s[b].position.unwrap(), 0, f) == -1);
            }
        }
    }
    assert(pose_seq(s, Seq::<Troncon>::empty(), f) =~= s);
}

/// Reconstruit les points de la trace après la pose. Les tronçons, bâtis sur
/// les seules positions fiables qu'aucune pose ne touche, ne bougent pas.
pub fn rafraichir_points(traces: &mut Traces, medias: &Vec<Media>)
    ensures
        vues_points(final(traces).points@) == points_medias_spec(medias@),
        final(traces).troncons == old(traces).troncons,
        final(traces).bilan == old(traces).bilan,
{
    traces.points = points_medias(medias);
}

/// Au départ du temps, le point est le départ de la polyligne : une
/// fraction nulle, ou négative et ramenée à zéro, rend son premier point.
pub proof fn loi_le_long_de_depart<F: Fn(Position, Position) -> u64>(pts: Seq<Point>, n: int, d: int, f: F)
    requires
        pts.len() >= 2,
        d > 0,
        n <= 0,
    ensures
        le_long_de_spec(pts, n, d, f) == Some(position_du_point(pts[0])),
{
    let total = longueur(pts, f);
    if total != 0 {
        let seg = segment(pts, 0, f);
        assert(parcouru(pts, 0, f) == 0);
        assert((parcouru(pts, 0, f) + seg) * d >= total * 0) by (nonlinear_arith)
            requires
                parcouru(pts, 0, f) == 0,
                seg >= 0,
                d > 0,
        ;
        assert(atteint(pts, 0, d, 0, f));
        assert(segment_vise(pts, 0, d, 0, f) == 0);
        if seg != 0 {
            let nc = if n < 0 { 0 } else { n };
            assert(nc == 0);
            let rn = total * nc - parcouru(pts, 0, f) * d;
            assert(rn == 0) by (nonlinear_arith)
                requires
                    nc == 0,
                    parcouru(pts, 0, f) == 0,
                    rn == total * nc - parcouru(pts, 0, f) * d,
            ;
            let a = pts[0];
            let b = pts[1];
            assert((b[1] as int - a[1] as int) * rn == 0) by (nonlinear_arith)
                requires
                    rn == 0,
            ;
            assert((b[0] as int - a[0] as int) * rn == 0) by (nonlinear_arith)
                requires
                    rn == 0,
            ;
            assert(seg * d > 0) by (nonlinear_arith)
                requires
                    seg > 0,
                    d > 0,
            ;
            crate::lieux::lemme_quotient((b[1] as int - a[1] as int) * rn, seg * d);
            crate::lieux::lemme_quotient((b[0] as int - a[0] as int) * rn, seg * d);
            assert(entre(a[1] as int, b[1] as int, rn, seg * d) == a[1]);
            assert(entre(a[0] as int, b[0] as int, rn, seg * d) == a[0]);
        }
    }
}

proof fn lemme_segment_vise<F: Fn(Position, Position) -> u64>(pts: Seq<Point>, n: int, d: int, i: int, f: F)
    requires
        pts.len() >= 2,
        0 <= i <= pts.len() - 2,
        d > 0,
        0 <= n <= d,
        parcouru(pts, i, f) * d <= longueur(pts, f) * n,
    ensures
        ({
            let k = segment_vise(pts, n, d, i, f);
            &&& i <= k <= pts.len() - 2
            &&& parcouru(pts, k, f) * d <= longueur(pts, f) * n
            &&& longueur(pts, f) * n <= (parcouru(pts, k, f) + segment(pts, k, f)) * d
        }),
    decreases pts.len() - i,
{
    if !atteint(pts, n, d, i, f) {
        if i == pts.len() - 2 {
            let total = longueur(pts, f);
            assert(parcouru(pts, i + 1, f) == total);
            lemme_parcouru_croissant(pts, 0, pts.len() - 1, f);
            assert(total * n <= total * d) by (nonlinear_arith)
                requires
                    total >= 0,
                    0 <= n <= d,
            ;
        } else {
            assert(parcouru(pts, i + 1, f) == parcouru(pts, i, f) + segment(pts, i, f));
            lemme_segment_vise(pts, n, d, i + 1, f);
        }
    }
}

/// Le point d'une fraction `n / d` de la polyligne est pris sur le segment
/// où tombe cette fraction de la longueur : la longueur parcourue avant ce
/// segment n'excède pas la fraction, celle parcourue à son bout l'atteint.
/// Plus la fraction grandit, plus le segment est loin du départ.
pub proof fn loi_le_long_de_segment<F: Fn(Position, Position) -> u64>(pts: Seq<Point>, n: int, m: int, d: int, f: F)
    requires
        pts.len() >= 2,
        d > 0,
        0 <= n <= d,
        0 <= m <= d,
    ensures
        ({
            let k = segment_vise(pts, n, d, 0, f);
            &&& 0 <= k <= pts.len() - 2
            &&& parcouru(pts, k, f) * d <= longueur(pts, f) * n
            &&& longueur(pts, f) * n <= (parcouru(pts, k, f) + segment(pts, k, f)) * d
        }),
        n <= m ==> segment_vise(pts, n, d, 0, f) <= segment_vise(pts, m, d, 0, f),
{
    lemme_parcouru_croissant(pts, 0, pts.len() - 1, f);
    let total = longueur(pts, f);
    assert(parcouru(pts, 0, f) * d <= total * n) by (nonlinear_arith)
        requires
            parcouru(pts, 0, f) == 0,
            total >= 0,
            n >= 0,
    ;
    assert(parcouru(pts, 0, f) * d <= total * m) by (nonlinear_arith)
        requires
            parcouru(pts, 0, f) == 0,
            total >= 0,
            m >= 0,
    ;
    lemme_segment_vise(pts, n, d, 0, f);
    lemme_segment_vise(pts, m, d, 0, f);
    if n <= m {
        let k = segment_vise(pts, n, d, 0, f);
        let l = segment_vise(pts, m, d, 0, f);
        if l < k {
            // Le segment `l` atteint déjà la fraction `m`, donc `n` : la
            // fraction `n` aurait été atteinte au plus tard en `l`.
            assert(total * n <= total * m) by (nonlinear_arith)
                requires
                    total >= 0,
                    n <= m,
            ;
            assert(atteint(pts, n, d, l, f));
            lemme_premier_atteint(pts, n, d, 0, l, f);
        }
    }
}

/// Sur son segment, le point est à la part de ce segment qui reste à
/// parcourir pour atteindre la fraction `n / d` de la longueur : pour
/// chaque coordonnée, l'écart au début du segment, rapporté à la longueur
/// du segment, diffère de moins d'une unité de l'écart entre les bouts du
/// segment rapporté à la longueur qui reste ; il est entre les deux bouts
/// du segment. Une fraction pleine mène au
/// bout du segment où la longueur totale est atteinte.
pub proof fn loi_le_long_de_point<F: Fn(Position, Position) -> u64>(pts: Seq<Point>, n: int, d: int, f: F)
    requires
        pts.len() >= 2,
        d > 0,
        0 <= n <= d,
        longueur(pts, f) > 0,
    ensures
        ({
            let k = segment_vise(pts, n, d, 0, f);
            let a = pts[k];
            let b = pts[k + 1];
            let seg = segment(pts, k, f);
            let reste = longueur(pts, f) * n - parcouru(pts, k, f) * d;
            let p = le_long_de_spec(pts, n, d, f).unwrap();
            &&& le_long_de_spec(pts, n, d, f) is Some
            &&& seg > 0 ==> {
                &&& 0 <= reste <= seg * d
                &&& (a[1] <= b[1] ==> a[1] <= p.lat <= b[1]) && (b[1] <= a[1] ==> b[1] <= p.lat <= a[1])
                &&& (a[0] <= b[0] ==> a[0] <= p.lon <= b[0]) && (b[0] <= a[0] ==> b[0] <= p.lon <= a[0])
                &&& -(seg * d) < (p.lat - a[1]) * (seg * d) - (b[1] - a[1]) * reste < seg * d
                &&& -(seg * d) < (p.lon - a[0]) * (seg * d) - (b[0] - a[0]) * reste < seg * d
                &&& n == d ==> p == position_du_point(b)
            }
        }),
{
    loi_le_long_de_segment(pts, n, n, d, f);
    let k = segment_vise(pts, n, d, 0, f);
    let a = pts[k];
    let b = pts[k + 1];
    let seg = segment(pts, k, f);
    let total = longueur(pts, f);
    let reste = total * n - parcouru(pts, k, f) * d;
    if seg > 0 {
        let rd = seg * d;
        assert(rd > 0) by (nonlinear_arith)
            requires
                seg > 0,
                d > 0,
                rd == seg * d,
        ;
        assert(reste <= rd) by (nonlinear_arith)
            requires
                total * n <= (parcouru(pts, k, f) + seg) * d,
                reste == total * n - parcouru(pts, k, f) * d,
                rd == seg * d,
        ;
        let xa = (b[1] - a[1]) * reste;
        let xo = (b[0] - a[0]) * reste;
        crate::lieux::lemme_quotient(xa, rd);
        crate::lieux::lemme_quotient(xo, rd);
        lemme_bornes_entre(a[1] as int, b[1] as int, reste, rd);
        lemme_bornes_entre(a[0] as int, b[0] as int, reste, rd);
        if n == d {
            // La longueur parcourue au bout du segment est la longueur totale.
            lemme_parcouru_croissant(pts, k + 1, pts.len() - 1, f);
            assert(parcouru(pts, k + 1, f) == parcouru(pts, k, f) + seg);
            assert(reste == rd) by (nonlinear_arith)
                requires
                    n == d,
                    total * n <= (parcouru(pts, k, f) + seg) * d,
                    parcouru(pts, k, f) + seg <= total,
                    reste == total * n - parcouru(pts, k, f) * d,
                    rd == seg * d,
                    d > 0,
            ;
            crate::lieux::lemme_quotient_exact(b[1] - a[1], rd);
            crate::lieux::lemme_quotient_exact(b[0] - a[0], rd);
            assert(xa == (b[1] - a[1]) * rd);
            assert(xo == (b[0] - a[0]) * rd);
        }
    }
}

/// La coordonnée à une part comprise entre zéro et un du chemin de `a` vers
/// `b` reste entre `a` et `b`.
proof fn lemme_bornes_entre(a: int, b: int, n: int, d: int)
    requires
        0 <= n <= d,
        d > 0,
    ensures
        (a <= b ==> a <= entre(a, b, n, d) <= b),
        (b <= a ==> b <= entre(a, b, n, d) <= a),
{
    let x = (b - a) * n;
    if b >= a {
        assert(0 <= x / d <= b - a) by (nonlinear_arith)
            requires
                x == (b - a) * n,
                b - a >= 0,
                0 <= n <= d,
                d > 0,
        ;
    } else {
        assert(0 <= (-x) / d <= a - b) by (nonlinear_arith)
            requires
                x == (b - a) * n,
                a - b > 0,
                0 <= n <= d,
                d > 0,
        ;
        if x >= 0 {
            assert(x == 0) by (nonlinear_arith)
                requires
                    x == (b - a) * n,
                    a - b > 0,
                    n >= 0,
                    x >= 0,
            ;
            assert(x / d == 0) by (nonlinear_arith)
                requires
                    x == 0,
                    d > 0,
            ;
        }
    }
}

proof fn lemme_premier_atteint<F: Fn(Position, Position) -> u64>(pts: Seq<Point>, n: int, d: int, i: int, l: int, f: F)
    requires
        0 <= i <= l <= pts.len() - 2,
        atteint(pts, n, d, l, f),
    ensures
        i <= segment_vise(pts, n, d, i, f) <= l,
    decreases l - i,
{
    if !atteint(pts, n, d, i, f) {
        lemme_premier_atteint(pts, n, d, i + 1, l, f);
    }
}

/// Un média posé l'est sur le tronçon qui relie ses bornes, au point de la
/// fraction du temps écoulé depuis la borne d'avant : pris à l'instant de
/// cette borne, il est posé au départ du tronçon, et plus il est pris tard,
/// plus loin du départ tombe le segment qui le porte.
pub proof fn loi_pose_au_prorata<F: Fn(Position, Position) -> u64>(s: Seq<Media>, ts: Seq<Troncon>, k: int, f: F)
    requires
        0 <= k < s.len(),
    ensures
        pose(s, ts, k, f) matches Some(Some(p)) ==> ({
            let j = s[k].jour.unwrap();
            let a = borne_avant(s, k, j);
            let b = borne_apres(s, k, j);
            let t = utc(s[k]);
            let t0 = utc(s[a]);
            let t1 = utc(s[b]);
            let q = troncon_reliant(ts, j, s[a].position.unwrap(), s[b].position.unwrap(), 0, f);
            &&& 0 <= q < ts.len() && ts[q].jour == j && ts[q].points@.len() >= 2
            &&& t0 < t1
            &&& p == le_long_de_spec(ts[q].points@, t - t0, t1 - t0, f).unwrap()
            &&& t <= t0 ==> p == position_du_point(ts[q].points@[0])
        }),
{
    if let Some(Some(p)) = pose(s, ts, k, f) {
        let j = s[k].jour.unwrap();
        let a = borne_avant(s, k, j);
        let b = borne_apres(s, k, j);
        let q = troncon_reliant(ts, j, s[a].position.unwrap(), s[b].position.unwrap(), 0, f);
        lemme_troncon_reliant(ts, j, s[a].position.unwrap(), s[b].position.unwrap(), 0, f);
        let t = utc(s[k]);
        let t0 = utc(s[a]);
        let t1 = utc(s[b]);
        if t <= t0 {
            loi_le_long_de_depart(ts[q].points@, t - t0, t1 - t0, f);
        }
    }
}

proof fn lemme_troncon_reliant<F: Fn(Position, Position) -> u64>(
    ts: Seq<Troncon>,
    j: i64,
    depart: Position,
    arrivee: Position,
    i: int,
    f: F,
)
    requires
        0 <= i,
    ensures
        troncon_reliant(ts, j, depart, arrivee, i, f) >= 0 ==> ({
            let q = troncon_reliant(ts, j, depart, arrivee, i, f);
            &&& i <= q < ts.len()
            &&& ts[q].jour == j
            &&& relie(ts[q], depart, arrivee, f)
        }),
    decreases ts.len() - i,
{
    if i < ts.len() && !(ts[i].jour == j && relie(ts[i], depart, arrivee, f)) {
        lemme_troncon_reliant(ts, j, depart, arrivee, i + 1, f);
    }
}

} // verus!
