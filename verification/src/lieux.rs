//! Position des médias que l'EXIF ne renseigne pas.
//!
//! Trois mécanismes, dans cet ordre de préséance : la fiabilité des vidéos,
//! héritée de la photo fiable la plus proche ; l'interpolation temporelle
//! entre deux positions fiables de la journée ; l'héritage depuis le lieu
//! de la journée. Aucun ne produit de position nouvelle qui soit `Haute` :
//! une position reconstituée reste une position reconstituée.

use vstd::prelude::*;

use crate::jours::Journee;
use crate::mesure::{distance, mesure_valide, mesurer};
use crate::ordre::lex_inf;
use crate::overrides::{instant_inf, utc_de};
use crate::scan::{Anomalie, Fiabilite, Media, OriginePosition, Position, TypeMedia};
use crate::voyage::{Lieu, Voyage};

verus! {

/// Une vidéo hérite la fiabilité d'une photo prise à moins de dix minutes,
/// en secondes.
pub const SECONDES_PROMOTION_VIDEO: i64 = 600;

/// Et distante de moins de cinq cents mètres, en millimètres.
pub const MILLIMETRES_PROMOTION_VIDEO: u64 = 500_000;

/// Un média s'interpole entre deux bornes prises chacune à moins de trente
/// minutes de lui, en secondes.
pub const SECONDES_INTERPOLATION: i64 = 1800;

/// Et distantes entre elles de moins de cinq kilomètres, en millimètres.
pub const MILLIMETRES_INTERPOLATION: u64 = 5_000_000;

#[derive(Debug, Clone)]
pub struct Bilan {
    pub videos_promues: usize,
    pub interpolees: usize,
    pub heritees: usize,
    /// Médias qui restent sans position après les trois mécanismes.
    pub sans_position: usize,
    /// Journées dont les médias auraient pu hériter, faute de lieu déclaré.
    pub jours_sans_lieu: Vec<i64>,
}

// ---------------------------------------------------------------------------
// Ordre chronologique
// ---------------------------------------------------------------------------

/// `a` se range strictement avant `b` : horodatage d'abord (l'absence en
/// premier), chemin du fichier ensuite.
pub open spec fn media_inf(a: Media, b: Media) -> bool {
    instant_inf(utc_de(a.prise_le), utc_de(b.prise_le)) || (utc_de(a.prise_le) == utc_de(b.prise_le) && lex_inf(
        a.fichier_source@,
        b.fichier_source@,
    ))
}

/// Insère `x` après tout ce qui ne se range pas strictement après lui.
pub open spec fn inserer_media(s: Seq<Media>, x: Media) -> Seq<Media>
    decreases s.len(),
{
    if s.len() == 0 {
        seq![x]
    } else if media_inf(x, s[0]) {
        seq![x] + s
    } else {
        seq![s[0]] + inserer_media(s.drop_first(), x)
    }
}

/// Le tri stable des médias, par horodatage puis par chemin.
pub open spec fn tri_medias(s: Seq<Media>) -> Seq<Media>
    decreases s.len(),
{
    if s.len() == 0 {
        s
    } else {
        inserer_media(tri_medias(s.drop_last()), s.last())
    }
}

fn media_inf_exec(a: &Media, b: &Media) -> (r: bool)
    ensures
        r == media_inf(*a, *b),
{
    match (a.prise_le, b.prise_le) {
        (None, Some(_)) => true,
        (Some(x), Some(y)) => x.utc < y.utc || (x.utc == y.utc && crate::ordre::lex_inf_exec(
            a.fichier_source.as_str(),
            b.fichier_source.as_str(),
        )),
        (None, None) => crate::ordre::lex_inf_exec(a.fichier_source.as_str(), b.fichier_source.as_str()),
        (Some(_), None) => false,
    }
}

proof fn lemme_inserer_media(s: Seq<Media>, x: Media, p: int)
    requires
        0 <= p <= s.len(),
        forall|q: int| 0 <= q < p ==> !media_inf(x, #[trigger] s[q]),
        p < s.len() ==> media_inf(x, s[p]),
    ensures
        inserer_media(s, x) == s.insert(p, x),
    decreases s.len(),
{
    if s.len() == 0 {
        assert(s.insert(p, x) =~= seq![x]);
    } else if p == 0 {
        assert(s.insert(0, x) =~= seq![x] + s);
    } else {
        assert(!media_inf(x, s[0]));
        assert forall|q: int| 0 <= q < p - 1 implies !media_inf(x, #[trigger] s.drop_first()[q]) by {
            assert(s.drop_first()[q] == s[q + 1]);
        }
        lemme_inserer_media(s.drop_first(), x, p - 1);
        assert(s.insert(p, x) =~= seq![s[0]] + s.drop_first().insert(p - 1, x));
    }
}

/// Aucun média ne se range strictement avant un média placé avant lui.
pub open spec fn medias_ranges(s: Seq<Media>) -> bool {
    forall|i: int, j: int| 0 <= i < j < s.len() ==> !media_inf(#[trigger] s[j], #[trigger] s[i])
}

proof fn lemme_media_inf_transitif(a: Media, b: Media, c: Media)
    requires
        media_inf(a, b),
        media_inf(b, c),
    ensures
        media_inf(a, c),
{
    if utc_de(a.prise_le) == utc_de(b.prise_le) && utc_de(b.prise_le) == utc_de(c.prise_le) {
        crate::ordre::lemme_transitif(a.fichier_source@, b.fichier_source@, c.fichier_source@);
    }
}

proof fn lemme_inserer_media_contenu(s: Seq<Media>, x: Media)
    requires
        medias_ranges(s),
    ensures
        medias_ranges(inserer_media(s, x)),
        inserer_media(s, x).to_multiset() == s.to_multiset().insert(x),
    decreases s.len(),
{
    broadcast use vstd::seq_lib::group_to_multiset_ensures;
    if s.len() == 0 {
        assert(inserer_media(s, x) =~= seq![x]);
        assert(seq![x] =~= Seq::<Media>::empty().push(x));
    } else if media_inf(x, s[0]) {
        let r = seq![x] + s;
        assert(inserer_media(s, x) =~= r);
        vstd::seq_lib::lemma_multiset_commutative(seq![x], s);
        assert(seq![x] =~= Seq::<Media>::empty().push(x));
        assert forall|i: int, j: int| 0 <= i < j < r.len() implies !media_inf(#[trigger] r[j], #[trigger] r[i]) by {
            if i > 0 {
                assert(r[i] == s[i - 1] && r[j] == s[j - 1]);
            } else {
                assert(r[j] == s[j - 1]);
                if media_inf(s[j - 1], x) {
                    lemme_media_inf_transitif(s[j - 1], x, s[0]);
                    if j - 1 > 0 {
                        assert(!media_inf(s[j - 1], s[0]));
                    } else {
                        crate::ordre::lemme_irreflexif(s[0].fichier_source@);
                    }
                }
            }
        }
    } else {
        let reste = s.drop_first();
        assert(medias_ranges(reste)) by {
            assert forall|i: int, j: int| 0 <= i < j < reste.len() implies !media_inf(#[trigger] reste[j], #[trigger] reste[i]) by {
                assert(reste[i] == s[i + 1] && reste[j] == s[j + 1]);
            }
        }
        lemme_inserer_media_contenu(reste, x);
        let q = inserer_media(reste, x);
        assert(inserer_media(s, x) =~= seq![s[0]] + q);
        vstd::seq_lib::lemma_multiset_commutative(seq![s[0]], q);
        vstd::seq_lib::lemma_multiset_commutative(seq![s[0]], reste);
        assert(seq![s[0]] + reste =~= s);
        assert(seq![s[0]] =~= Seq::<Media>::empty().push(s[0]));
        assert forall|k: int| 0 <= k < q.len() implies !media_inf(#[trigger] q[k], s[0]) by {
            let e = q[k];
            assert(q.contains(e));
            vstd::seq_lib::to_multiset_contains(q, e);
            assert(q.to_multiset().count(e) > 0);
            if e != x {
                assert(reste.to_multiset().count(e) > 0);
                vstd::seq_lib::to_multiset_contains(reste, e);
                let m = choose|m: int| 0 <= m < reste.len() && reste[m] == e;
                assert(s[m + 1] == e);
            }
        }
        let r = seq![s[0]] + q;
        assert forall|i: int, j: int| 0 <= i < j < r.len() implies !media_inf(#[trigger] r[j], #[trigger] r[i]) by {
            if i > 0 {
                assert(r[i] == q[i - 1] && r[j] == q[j - 1]);
            } else {
                assert(r[j] == q[j - 1]);
            }
        }
    }
}

/// Les médias triés sont rangés par horodatage, l'absence en premier, puis
/// par chemin ; et ce sont les mêmes médias.
pub proof fn loi_medias_ranges(s: Seq<Media>)
    ensures
        medias_ranges(tri_medias(s)),
        tri_medias(s).to_multiset() == s.to_multiset(),
    decreases s.len(),
{
    broadcast use vstd::seq_lib::group_to_multiset_ensures;
    if s.len() > 0 {
        loi_medias_ranges(s.drop_last());
        lemme_inserer_media_contenu(tri_medias(s.drop_last()), s.last());
        assert(s.drop_last().push(s.last()) =~= s);
    }
}

/// Range les médias par horodatage, puis par chemin, sans changer l'ordre
/// de ceux qui ne se distinguent pas.
pub fn trier_medias(v: Vec<Media>) -> (r: Vec<Media>)
    ensures
        r@ == tri_medias(v@),
{
    let ghost s = v@;
    let mut r: Vec<Media> = Vec::new();
    for x in it: v.into_iter()
        invariant
            it.seq() == s,
            r@ == tri_medias(s.take(it.index() as int)),
    {
        let ghost i = it.index() as int;
        let ghost avant = r@;
        let mut p: usize = 0;
        while p < r.len() && !media_inf_exec(&x, &r[p])
            invariant
                p <= r.len(),
                r@ == avant,
                forall|q: int| 0 <= q < p ==> !media_inf(x, #[trigger] r@[q]),
            decreases r.len() - p,
        {
            p += 1;
        }
        proof {
            lemme_inserer_media(r@, x, p as int);
            assert(s.take(i + 1).drop_last() =~= s.take(i));
            assert(s.take(i + 1).last() == x);
        }
        r.insert(p, x);
    }
    assert(s.take(s.len() as int) =~= s);
    r
}


// ---------------------------------------------------------------------------
// Promotion des vidéos
// ---------------------------------------------------------------------------

/// Une photo fiable, datée et positionnée : un repère pour les vidéos.
pub open spec fn est_repere(m: Media) -> bool {
    m.type_media == TypeMedia::Photo && m.fiabilite == Fiabilite::Haute && m.prise_le is Some && m.position is Some
}

pub open spec fn ecart(a: int, b: int) -> int {
    if a >= b {
        a - b
    } else {
        b - a
    }
}

pub open spec fn utc(m: Media) -> int {
    m.prise_le.unwrap().utc as int
}

/// Indice du repère le plus proche de `t` dans le temps, le premier en cas
/// d'égalité ; -1 s'il n'y en a aucun.
pub open spec fn plus_proche(s: Seq<Media>, t: int) -> int
    decreases s.len(),
{
    if s.len() == 0 {
        -1
    } else {
        let j = plus_proche(s.drop_last(), t);
        if est_repere(s.last()) && (j < 0 || ecart(utc(s.last()), t) < ecart(utc(s[j]), t)) {
            s.len() - 1
        } else {
            j
        }
    }
}

/// Une vidéo de position basse, datée et positionnée.
pub open spec fn video_candidate(m: Media) -> bool {
    m.type_media == TypeMedia::Video && m.fiabilite == Fiabilite::Basse && m.prise_le is Some && m.position is Some
}

/// Une vidéo est fiable si une photo proche la confirme et si sa position
/// n'est pas clonée : le repère le plus proche dans le temps doit être à
/// moins de dix minutes et à moins de cinq cents mètres.
pub open spec fn promue<F: Fn(Position, Position) -> u64>(s: Seq<Media>, m: Media, f: F) -> bool {
    &&& video_candidate(m)
    &&& !m.anomalies@.contains(Anomalie::PositionClonee)
    &&& plus_proche(s, utc(m)) >= 0
    &&& ecart(utc(s[plus_proche(s, utc(m))]), utc(m)) < SECONDES_PROMOTION_VIDEO
    &&& distance(f, m.position.unwrap(), s[plus_proche(s, utc(m))].position.unwrap()) < MILLIMETRES_PROMOTION_VIDEO
}

fn porte_anomalie(v: &Vec<Anomalie>, a: Anomalie) -> (r: bool)
    ensures
        r == v@.contains(a),
{
    let mut i: usize = 0;
    while i < v.len()
        invariant
            i <= v.len(),
            forall|k: int| 0 <= k < i ==> v@[k] != a,
        decreases v.len() - i,
    {
        if v[i] == a {
            assert(v@[i as int] == a);
            return true;
        }
        i += 1;
    }
    false
}

/// Les médias après la promotion des vidéos. L'anomalie reste : c'est un
/// fait constaté ; seul le verdict change.
pub open spec fn promotion<F: Fn(Position, Position) -> u64>(s: Seq<Media>, f: F) -> Seq<Media> {
    Seq::new(
        s.len(),
        |k: int|
            if promue(s, s[k], f) {
                Media { fiabilite: Fiabilite::Haute, ..s[k] }
            } else {
                s[k]
            },
    )
}

pub open spec fn nb_promues<F: Fn(Position, Position) -> u64>(s: Seq<Media>, t: Seq<Media>, f: F) -> nat
    decreases t.len(),
{
    if t.len() == 0 {
        0
    } else if promue(s, t.last(), f) {
        nb_promues(s, t.drop_last(), f) + 1
    } else {
        nb_promues(s, t.drop_last(), f)
    }
}

/// Une vidéo n'est promue fiable que si elle n'est pas clonée et que la
/// photo fiable la plus proche dans le temps est à moins de dix minutes et
/// à moins de cinq cents mètres ; la promotion ne change que ce verdict,
/// ni la position ni les anomalies.
pub proof fn loi_promotion<F: Fn(Position, Position) -> u64>(s: Seq<Media>, f: F, k: int)
    requires
        0 <= k < s.len(),
    ensures
        promotion(s, f)[k] == (if promue(s, s[k], f) {
            Media { fiabilite: Fiabilite::Haute, ..s[k] }
        } else {
            s[k]
        }),
        promue(s, s[k], f) ==> {
            &&& s[k].type_media == TypeMedia::Video
            &&& !s[k].anomalies@.contains(Anomalie::PositionClonee)
            &&& plus_proche(s, utc(s[k])) >= 0
            &&& ecart(utc(s[plus_proche(s, utc(s[k]))]), utc(s[k])) < 600
            &&& distance(f, s[k].position.unwrap(), s[plus_proche(s, utc(s[k]))].position.unwrap()) < 500_000
        },
{
}

fn plus_proche_exec(s: &Vec<Media>, t: i64) -> (r: Option<usize>)
    ensures
        match r {
            Some(j) => j == plus_proche(s@, t as int) && j < s@.len() && est_repere(s@[j as int]),
            None => plus_proche(s@, t as int) == -1,
        },
{
    let mut meilleur: Option<usize> = None;
    let mut i: usize = 0;
    while i < s.len()
        invariant
            i <= s.len(),
            match meilleur {
                Some(j) => j == plus_proche(s@.take(i as int), t as int) && j < i && est_repere(s@[j as int]),
                None => plus_proche(s@.take(i as int), t as int) == -1,
            },
        decreases s.len() - i,
    {
        assert(s@.take(i + 1).drop_last() =~= s@.take(i as int));
        assert(s@.take(i + 1).last() == s@[i as int]);
        let m = &s[i];
        let repere = m.type_media == TypeMedia::Photo && m.fiabilite == Fiabilite::Haute && m.prise_le.is_some()
            && m.position.is_some();
        if repere {
            let e = ecart_exec(m.prise_le.unwrap().utc, t);
            let plus_pres = match meilleur {
                None => true,
                Some(j) => {
                    assert(s@.take(i + 1)[j as int] == s@[j as int]);
                    e < ecart_exec(s[j].prise_le.unwrap().utc, t)
                },
            };
            if plus_pres {
                meilleur = Some(i);
            }
        } else {
            proof {
                if let Some(j) = meilleur {
                    assert(s@.take(i + 1)[j as int] == s@[j as int]);
                }
            }
        }
        i += 1;
    }
    assert(s@.take(s@.len() as int) =~= s@);
    meilleur
}

pub(crate) fn ecart_exec(a: i64, b: i64) -> (r: u64)
    ensures
        r == ecart(a as int, b as int),
{
    if a >= b {
        (a as i128 - b as i128) as u64
    } else {
        (b as i128 - a as i128) as u64
    }
}

fn promouvoir_videos<F: Fn(Position, Position) -> u64>(medias: Vec<Media>, f: &F) -> (r: (Vec<Media>, usize))
    requires
        mesure_valide(*f),
    ensures
        r.0@ == promotion(medias@, *f),
        r.1 == nb_promues(medias@, medias@, *f),
{
    let ghost s = medias@;
    let mut decisions: Vec<bool> = Vec::new();
    let mut nombre: usize = 0;
    let mut k: usize = 0;
    while k < medias.len()
        invariant
            k <= medias.len(),
            s == medias@,
            mesure_valide(*f),
            decisions@.len() == k,
            forall|q: int| 0 <= q < k ==> decisions@[q] == promue(s, s[q], *f),
            nombre == nb_promues(s, s.take(k as int), *f),
            nombre <= k,
        decreases medias.len() - k,
    {
        assert(s.take(k + 1).drop_last() =~= s.take(k as int));
        assert(s.take(k + 1).last() == s[k as int]);
        let m = &medias[k];
        let mut decision = false;
        if m.type_media == TypeMedia::Video && m.fiabilite == Fiabilite::Basse && m.prise_le.is_some() && m.position.is_some()
            && !porte_anomalie(&m.anomalies, Anomalie::PositionClonee) {
            let instant = m.prise_le.unwrap().utc;
            match plus_proche_exec(&medias, instant) {
                Some(j) => {
                    let repere = &medias[j];
                    if ecart_exec(repere.prise_le.unwrap().utc, instant) < 600 {
                        let d = mesurer(f, m.position.unwrap(), repere.position.unwrap());
                        decision = d < MILLIMETRES_PROMOTION_VIDEO;
                    }
                },
                None => {},
            }
        }
        if decision {
            nombre = nombre + 1;
        }
        decisions.push(decision);
        k += 1;
    }
    assert(s.take(s.len() as int) =~= s);
    let mut r: Vec<Media> = Vec::new();
    let mut j: usize = 0;
    let n = medias.len();
    for m in it: medias.into_iter()
        invariant
            it.seq() == s,
            s.len() == n,
            j == it.index(),
            j <= n,
            decisions@.len() == s.len(),
            forall|q: int| 0 <= q < s.len() ==> decisions@[q] == promue(s, s[q], *f),
            r@ == promotion(s, *f).take(it.index() as int),
    {
        let ghost i = it.index() as int;
        let mut m = m;
        if decisions[j] {
            m.fiabilite = Fiabilite::Haute;
        }
        r.push(m);
        j += 1;
        assert(r@ =~= promotion(s, *f).take(i + 1));
    }
    assert(promotion(s, *f).take(s.len() as int) =~= promotion(s, *f));
    (r, nombre)
}


// ---------------------------------------------------------------------------
// Interpolation
// ---------------------------------------------------------------------------

/// Une position fiable, datée, rattachée à une journée : une borne
/// d'interpolation.
pub open spec fn est_borne(m: Media) -> bool {
    m.jour is Some && m.prise_le is Some && m.position is Some && m.fiabilite == Fiabilite::Haute
}

/// Dernière borne de la journée `j` avant l'indice `k`, ou -1.
pub open spec fn borne_avant(s: Seq<Media>, k: int, j: i64) -> int
    decreases k,
{
    if k <= 0 || k > s.len() {
        -1
    } else if est_borne(s[k - 1]) && s[k - 1].jour == Some(j) {
        k - 1
    } else {
        borne_avant(s, k - 1, j)
    }
}

/// Première borne de la journée `j` après l'indice `k`, ou -1.
pub open spec fn borne_apres(s: Seq<Media>, k: int, j: i64) -> int
    decreases s.len() - k,
{
    if k < -1 || k + 1 >= s.len() {
        -1
    } else if est_borne(s[k + 1]) && s[k + 1].jour == Some(j) {
        k + 1
    } else {
        borne_apres(s, k + 1, j)
    }
}

/// Quotient arrondi vers zéro.
pub open spec fn quotient(n: int, d: int) -> int {
    if n >= 0 {
        n / d
    } else {
        -((-n) / d)
    }
}

/// La coordonnée à la fraction `n / d` du chemin de `a` vers `b`.
pub open spec fn entre(a: int, b: int, n: int, d: int) -> int {
    a + quotient((b - a) * n, d)
}

pub open spec fn tient(x: int) -> bool {
    i64::MIN <= x <= i64::MAX
}

/// La position interpolée du média `k`, s'il en reçoit une : il n'a pas de
/// position, ses deux bornes de la journée sont à moins de trente minutes
/// pleines de lui, à moins de cinq kilomètres l'une de l'autre, et dans cet
/// ordre. La position est prise à la fraction du temps écoulé, sans
/// altitude ; une coordonnée qui ne tiendrait pas sur soixante-quatre bits,
/// ce qui n'arrive qu'avec des bornes hors de la sphère, n'est pas posée.
pub open spec fn interpolation<F: Fn(Position, Position) -> u64>(s: Seq<Media>, k: int, f: F) -> Option<Position> {
    let m = s[k];
    if m.position is Some || m.jour is None || m.prise_le is None {
        None
    } else {
        let j = m.jour.unwrap();
        let a = borne_avant(s, k, j);
        let b = borne_apres(s, k, j);
        if a < 0 || b < 0 {
            None
        } else {
            let t = utc(m);
            let t0 = utc(s[a]);
            let t1 = utc(s[b]);
            let p0 = s[a].position.unwrap();
            let p1 = s[b].position.unwrap();
            let lat = entre(p0.lat as int, p1.lat as int, t - t0, t1 - t0);
            let lon = entre(p0.lon as int, p1.lon as int, t - t0, t1 - t0);
            if ecart(t, t0) >= SECONDES_INTERPOLATION || ecart(t1, t) >= SECONDES_INTERPOLATION {
                None
            } else if distance(f, p0, p1) >= MILLIMETRES_INTERPOLATION {
                None
            } else if t1 - t0 <= 0 {
                None
            } else if !tient(lat) || !tient(lon) {
                None
            } else {
                Some(Position { lat: lat as i64, lon: lon as i64, alt: None })
            }
        }
    }
}

/// Les médias après l'interpolation : une position interpolée est basse.
pub open spec fn interpolation_seq<F: Fn(Position, Position) -> u64>(s: Seq<Media>, f: F) -> Seq<Media> {
    Seq::new(
        s.len(),
        |k: int|
            match interpolation(s, k, f) {
                Some(p) => Media {
                    position: Some(p),
                    fiabilite: Fiabilite::Basse,
                    origine_position: Some(OriginePosition::Interpolee),
                    ..s[k]
                },
                None => s[k],
            },
    )
}

pub open spec fn nb_interpolees<F: Fn(Position, Position) -> u64>(s: Seq<Media>, n: int, f: F) -> nat
    decreases n,
{
    if n <= 0 {
        0
    } else if interpolation(s, n - 1, f) is Some {
        nb_interpolees(s, n - 1, f) + 1
    } else {
        nb_interpolees(s, n - 1, f)
    }
}

pub(crate) fn borne_avant_exec(s: &Vec<Media>, k: usize, j: i64) -> (r: Option<usize>)
    requires
        k <= s@.len(),
    ensures
        match r {
            Some(a) => a == borne_avant(s@, k as int, j) && a < k && est_borne(s@[a as int]),
            None => borne_avant(s@, k as int, j) == -1,
        },
{
    let mut i = k;
    while i > 0
        invariant
            i <= k <= s@.len(),
            borne_avant(s@, k as int, j) == borne_avant(s@, i as int, j),
        decreases i,
    {
        let m = &s[i - 1];
        if m.jour == Some(j) && m.prise_le.is_some() && m.position.is_some() && m.fiabilite == Fiabilite::Haute {
            return Some(i - 1);
        }
        i -= 1;
    }
    None
}

pub(crate) fn borne_apres_exec(s: &Vec<Media>, k: usize, j: i64) -> (r: Option<usize>)
    requires
        k < s@.len(),
    ensures
        match r {
            Some(b) => b == borne_apres(s@, k as int, j) && k < b < s@.len() && est_borne(s@[b as int]),
            None => borne_apres(s@, k as int, j) == -1,
        },
{
    let mut i = k;
    while s.len() - i > 1
        invariant
            k <= i < s@.len(),
            borne_apres(s@, k as int, j) == borne_apres(s@, i as int, j),
        decreases s@.len() - i,
    {
        let m = &s[i + 1];
        if m.jour == Some(j) && m.prise_le.is_some() && m.position.is_some() && m.fiabilite == Fiabilite::Haute {
            return Some(i + 1);
        }
        i += 1;
    }
    None
}

fn entre_exec(a: i64, b: i64, n: i64, d: i64) -> (r: Option<i64>)
    requires
        d > 0,
        -10_000_000_000 < n < 10_000_000_000,
    ensures
        match r {
            Some(x) => x == entre(a as int, b as int, n as int, d as int),
            None => !tient(entre(a as int, b as int, n as int, d as int)),
        },
{
    let diff: i128 = b as i128 - a as i128;
    assert(-200_000_000_000_000_000_000_000_000_000 < diff * (n as i128) < 200_000_000_000_000_000_000_000_000_000) by (nonlinear_arith)
        requires
            -20_000_000_000_000_000_000 < diff,
            diff < 20_000_000_000_000_000_000,
            -10_000_000_000 < n,
            n < 10_000_000_000,
    ;
    let produit: i128 = diff * (n as i128);
    let q: i128 = if produit >= 0 {
        produit / (d as i128)
    } else {
        -((-produit) / (d as i128))
    };
    assert(forall|x: int, y: int| 0 <= x && 0 < y ==> #[trigger] (x / y) <= x) by (nonlinear_arith);
    let x: i128 = a as i128 + q;
    if x < i64::MIN as i128 || x > i64::MAX as i128 {
        None
    } else {
        Some(x as i64)
    }
}

fn interpoler<F: Fn(Position, Position) -> u64>(medias: Vec<Media>, f: &F) -> (r: (Vec<Media>, usize))
    requires
        mesure_valide(*f),
    ensures
        r.0@ == interpolation_seq(medias@, *f),
        r.1 == nb_interpolees(medias@, medias@.len() as int, *f),
{
    let ghost s = medias@;
    let mut positions: Vec<Option<Position>> = Vec::new();
    let mut nombre: usize = 0;
    let mut k: usize = 0;
    while k < medias.len()
        invariant
            k <= medias.len(),
            s == medias@,
            mesure_valide(*f),
            positions@.len() == k,
            forall|q: int| 0 <= q < k ==> positions@[q] == interpolation(s, q, *f),
            nombre == nb_interpolees(s, k as int, *f),
            nombre <= k,
        decreases medias.len() - k,
    {
        let m = &medias[k];
        let mut resultat: Option<Position> = None;
        if m.position.is_none() && m.jour.is_some() && m.prise_le.is_some() {
            let jour = m.jour.unwrap();
            let t = m.prise_le.unwrap().utc;
            let avant = borne_avant_exec(&medias, k, jour);
            let apres = borne_apres_exec(&medias, k, jour);
            if let (Some(a), Some(b)) = (avant, apres) {
                let t0 = medias[a].prise_le.unwrap().utc;
                let t1 = medias[b].prise_le.unwrap().utc;
                let p0 = medias[a].position.unwrap();
                let p1 = medias[b].position.unwrap();
                if ecart_exec(t, t0) < 1800 && ecart_exec(t1, t) < 1800 {
                    let d = mesurer(f, p0, p1);
                    if d < MILLIMETRES_INTERPOLATION && t1 > t0 {
                        assert(t1 - t0 < 3600);
                        let n = t - t0;
                        let total = t1 - t0;
                        let lat = entre_exec(p0.lat, p1.lat, n, total);
                        let lon = entre_exec(p0.lon, p1.lon, n, total);
                        if let (Some(la), Some(lo)) = (lat, lon) {
                            resultat = Some(Position { lat: la, lon: lo, alt: None });
                        }
                    }
                }
            }
        }
        if resultat.is_some() {
            nombre = nombre + 1;
        }
        positions.push(resultat);
        k += 1;
    }
    let mut r: Vec<Media> = Vec::new();
    let mut j: usize = 0;
    let n = medias.len();
    for m in it: medias.into_iter()
        invariant
            it.seq() == s,
            s.len() == n,
            j == it.index(),
            j <= n,
            positions@.len() == s.len(),
            forall|q: int| 0 <= q < s.len() ==> positions@[q] == interpolation(s, q, *f),
            r@ == interpolation_seq(s, *f).take(it.index() as int),
    {
        let ghost i = it.index() as int;
        let mut m = m;
        match positions[j] {
            Some(p) => {
                m.position = Some(p);
                m.fiabilite = Fiabilite::Basse;
                m.origine_position = Some(OriginePosition::Interpolee);
            },
            None => {},
        }
        r.push(m);
        j += 1;
        assert(r@ =~= interpolation_seq(s, *f).take(i + 1));
    }
    assert(interpolation_seq(s, *f).take(s.len() as int) =~= interpolation_seq(s, *f));
    (r, nombre)
}


// ---------------------------------------------------------------------------
// Héritage depuis le lieu de la journée
// ---------------------------------------------------------------------------

/// Le lieu déclaré pour ce jour ; la dernière journée qui en déclare un
/// l'emporte, comme dans une table indexée par date.
pub open spec fn lieu_du_jour(js: Seq<Journee>, jour: i64) -> Option<Seq<char>>
    decreases js.len(),
{
    if js.len() == 0 {
        None
    } else if js.last().date == jour && js.last().lieu is Some {
        Some(js.last().lieu.unwrap()@)
    } else {
        lieu_du_jour(js.drop_last(), jour)
    }
}

/// Indice du lieu qui porte cet identifiant, le dernier s'il y en a
/// plusieurs, ou -1.
pub open spec fn lieu_par_id(ls: Seq<Lieu>, id: Seq<char>) -> int
    decreases ls.len(),
{
    if ls.len() == 0 {
        -1
    } else if ls.last().id@ == id {
        ls.len() - 1
    } else {
        lieu_par_id(ls.drop_last(), id)
    }
}

/// L'indice du lieu dont hérite le média, s'il en hérite : il n'a pas de
/// position, sa journée déclare un lieu, et ce lieu est connu du voyage.
pub open spec fn heritage(m: Media, ls: Seq<Lieu>, js: Seq<Journee>) -> int {
    if m.position is Some || m.jour is None {
        -1
    } else {
        match lieu_du_jour(js, m.jour.unwrap()) {
            Some(l) => lieu_par_id(ls, l),
            None => -1,
        }
    }
}

/// Les médias après l'héritage : la position du lieu, basse, et le lieu.
pub open spec fn heritage_seq(s: Seq<Media>, ls: Seq<Lieu>, js: Seq<Journee>) -> Seq<Media> {
    Seq::new(
        s.len(),
        |k: int|
            if heritage(s[k], ls, js) >= 0 {
                Media {
                    position: Some(ls[heritage(s[k], ls, js)].position),
                    fiabilite: Fiabilite::Basse,
                    origine_position: Some(OriginePosition::Heritee),
                    lieu: Some(ls[heritage(s[k], ls, js)].id),
                    ..s[k]
                }
            } else {
                s[k]
            },
    )
}

pub open spec fn nb_heritees(s: Seq<Media>, ls: Seq<Lieu>, js: Seq<Journee>) -> nat
    decreases s.len(),
{
    if s.len() == 0 {
        0
    } else if heritage(s.last(), ls, js) >= 0 {
        nb_heritees(s.drop_last(), ls, js) + 1
    } else {
        nb_heritees(s.drop_last(), ls, js)
    }
}

/// Le jour d'un média sans position dont la journée ne déclare aucun lieu.
pub open spec fn sans_lieu(m: Media, js: Seq<Journee>) -> bool {
    m.position is None && m.jour is Some && lieu_du_jour(js, m.jour.unwrap()) is None
}

pub open spec fn jours_croissants(v: Seq<i64>) -> bool {
    forall|i: int, j: int| 0 <= i < j < v.len() ==> v[i] < v[j]
}

fn lieu_du_jour_exec(js: &Vec<Journee>, jour: i64) -> (r: Option<&String>)
    ensures
        match r {
            Some(l) => lieu_du_jour(js@, jour) == Some(l@),
            None => lieu_du_jour(js@, jour) is None,
        },
{
    let mut i = js.len();
    assert(js@.take(i as int) =~= js@);
    while i > 0
        invariant
            i <= js@.len(),
            lieu_du_jour(js@, jour) == lieu_du_jour(js@.take(i as int), jour),
        decreases i,
    {
        assert(js@.take(i as int).drop_last() =~= js@.take(i - 1));
        assert(js@.take(i as int).last() == js@[i - 1]);
        if js[i - 1].date == jour {
            match &js[i - 1].lieu {
                Some(l) => {
                    return Some(l);
                },
                None => {},
            }
        }
        i -= 1;
    }
    None
}

pub(crate) fn lieu_par_id_exec(ls: &Vec<Lieu>, id: &String) -> (r: Option<usize>)
    ensures
        match r {
            Some(k) => k == lieu_par_id(ls@, id@) && k < ls@.len(),
            None => lieu_par_id(ls@, id@) == -1,
        },
{
    let mut i = ls.len();
    assert(ls@.take(i as int) =~= ls@);
    while i > 0
        invariant
            i <= ls@.len(),
            lieu_par_id(ls@, id@) == lieu_par_id(ls@.take(i as int), id@),
        decreases i,
    {
        assert(ls@.take(i as int).drop_last() =~= ls@.take(i - 1));
        assert(ls@.take(i as int).last() == ls@[i - 1]);
        if ls[i - 1].id == *id {
            return Some(i - 1);
        }
        i -= 1;
    }
    None
}

/// Insère un jour dans une suite strictement croissante, s'il n'y est pas.
pub(crate) fn inserer_jour(v: &mut Vec<i64>, x: i64)
    requires
        jours_croissants(old(v)@),
    ensures
        jours_croissants(final(v)@),
        final(v)@.to_set() == old(v)@.to_set().insert(x),
{
    let ghost avant = v@;
    let mut p: usize = 0;
    while p < v.len() && v[p] < x
        invariant
            p <= v.len(),
            v@ == avant,
            forall|q: int| 0 <= q < p ==> v@[q] < x,
        decreases v.len() - p,
    {
        p += 1;
    }
    if p < v.len() && v[p] == x {
        assert(v@.to_set() =~= avant.to_set().insert(x));
        return;
    }
    v.insert(p, x);
    assert forall|y: i64| v@.to_set().contains(y) <==> avant.to_set().insert(x).contains(y) by {
        if v@.contains(y) {
            let k = choose|k: int| 0 <= k < v@.len() && v@[k] == y;
            if k < p {
                assert(avant[k] == y);
            } else if k > p {
                assert(avant[k - 1] == y);
            }
        }
        if avant.contains(y) {
            let k = choose|k: int| 0 <= k < avant.len() && avant[k] == y;
            if k < p {
                assert(v@[k] == y);
            } else {
                assert(v@[k + 1] == y);
            }
        }
        if y == x {
            assert(v@[p as int] == y);
        }
    }
    assert(v@.to_set() =~= avant.to_set().insert(x));
}

/// Les jours sans lieu des médias d'une suite.
pub open spec fn jours_sans_lieu(s: Seq<Media>, js: Seq<Journee>) -> Set<i64> {
    Set::new(|j: i64| exists|k: int| 0 <= k < s.len() && sans_lieu(s[k], js) && s[k].jour == Some(j))
}

fn heriter(medias: Vec<Media>, voyage: &Voyage, journees: &Vec<Journee>) -> (r: (Vec<Media>, usize, Vec<i64>))
    ensures
        r.0@ == heritage_seq(medias@, voyage.lieux@, journees@),
        r.1 == nb_heritees(medias@, voyage.lieux@, journees@),
        jours_croissants(r.2@),
        r.2@.to_set() == jours_sans_lieu(medias@, journees@),
{
    let ghost s = medias@;
    let ghost ls = voyage.lieux@;
    let ghost js = journees@;
    let mut r: Vec<Media> = Vec::new();
    let mut nombre: usize = 0;
    let mut manquants: Vec<i64> = Vec::new();
    let n = medias.len();
    for m in it: medias.into_iter()
        invariant
            it.seq() == s,
            s.len() == n,
            ls == voyage.lieux@,
            js == journees@,
            r@ == heritage_seq(s, ls, js).take(it.index() as int),
            nombre == nb_heritees(s.take(it.index() as int), ls, js),
            nombre <= it.index() <= n,
            jours_croissants(manquants@),
            manquants@.to_set() == jours_sans_lieu(s.take(it.index() as int), js),
    {
        let ghost i = it.index() as int;
        assert(s.take(i + 1).drop_last() =~= s.take(i));
        assert(s.take(i + 1).last() == m);
        let mut m = m;
        let ghost m0 = m;
        if m.position.is_none() && m.jour.is_some() {
            let jour = m.jour.unwrap();
            match lieu_du_jour_exec(journees, jour) {
                None => {
                    inserer_jour(&mut manquants, jour);
                },
                Some(l) => {
                    match lieu_par_id_exec(&voyage.lieux, l) {
                        Some(k) => {
                            let lieu = &voyage.lieux[k];
                            m.position = Some(lieu.position);
                            m.fiabilite = Fiabilite::Basse;
                            m.origine_position = Some(OriginePosition::Heritee);
                            m.lieu = Some(lieu.id.clone());
                            nombre = nombre + 1;
                        },
                        None => {},
                    }
                },
            }
        }
        r.push(m);
        assert(r@ =~= heritage_seq(s, ls, js).take(i + 1));
        let ghost t0 = s.take(i);
        let ghost t1 = s.take(i + 1);
        assert(manquants@.to_set() =~= jours_sans_lieu(t1, js)) by {
            assert forall|j: i64| jours_sans_lieu(t1, js).contains(j) implies manquants@.to_set().contains(j) by {
                let k = choose|k: int| 0 <= k < i + 1 && sans_lieu(#[trigger] t1[k], js) && t1[k].jour == Some(j);
                if k < i {
                    assert(t0[k] == t1[k]);
                    assert(jours_sans_lieu(t0, js).contains(j));
                }
            }
            assert forall|j: i64| manquants@.to_set().contains(j) implies jours_sans_lieu(t1, js).contains(j) by {
                if jours_sans_lieu(t0, js).contains(j) {
                    let k = choose|k: int| 0 <= k < i && sans_lieu(#[trigger] t0[k], js) && t0[k].jour == Some(j);
                    assert(t1[k] == t0[k]);
                } else {
                    assert(t1[i] == m0);
                }
            }
        }
    }
    assert(s.take(s.len() as int) =~= s);
    assert(heritage_seq(s, ls, js).take(s.len() as int) =~= heritage_seq(s, ls, js));
    (r, nombre, manquants)
}

/// Les médias, rangés puis repositionnés par les trois mécanismes.
pub open spec fn positions_reconstituees<F: Fn(Position, Position) -> u64>(
    s: Seq<Media>,
    ls: Seq<Lieu>,
    js: Seq<Journee>,
    f: F,
) -> Seq<Media> {
    heritage_seq(interpolation_seq(promotion(tri_medias(s), f), f), ls, js)
}

pub open spec fn nb_sans_position(s: Seq<Media>) -> nat
    decreases s.len(),
{
    if s.len() == 0 {
        0
    } else if s.last().fiabilite == Fiabilite::Absente {
        nb_sans_position(s.drop_last()) + 1
    } else {
        nb_sans_position(s.drop_last())
    }
}

/// Range les médias par horodatage, puis applique la promotion des vidéos,
/// l'interpolation et l'héritage, dans cet ordre.
pub fn appliquer<F: Fn(Position, Position) -> u64>(
    medias: &mut Vec<Media>,
    voyage: &Voyage,
    journees: &Vec<Journee>,
    distance: &F,
) -> (b: Bilan)
    requires
        mesure_valide(*distance),
    ensures
        final(medias)@ == positions_reconstituees(old(medias)@, voyage.lieux@, journees@, *distance),
        b.videos_promues == nb_promues(tri_medias(old(medias)@), tri_medias(old(medias)@), *distance),
        b.interpolees == nb_interpolees(
            promotion(tri_medias(old(medias)@), *distance),
            old(medias)@.len() as int,
            *distance,
        ),
        b.heritees == nb_heritees(
            interpolation_seq(promotion(tri_medias(old(medias)@), *distance), *distance),
            voyage.lieux@,
            journees@,
        ),
        b.sans_position == nb_sans_position(final(medias)@),
        jours_croissants(b.jours_sans_lieu@),
        b.jours_sans_lieu@.to_set() == jours_sans_lieu(
            interpolation_seq(promotion(tri_medias(old(medias)@), *distance), *distance),
            journees@,
        ),
{
    let mut anciens: Vec<Media> = Vec::new();
    std::mem::swap(&mut anciens, medias);
    let ghost avant = anciens@;
    let tries = trier_medias(anciens);
    proof {
        lemme_tri_longueur(avant);
    }
    let (promus, videos_promues) = promouvoir_videos(tries, distance);
    let (interpoles, interpolees) = interpoler(promus, distance);
    let (herites, heritees, jours_sans_lieu) = heriter(interpoles, voyage, journees);
    *medias = herites;
    let mut sans_position: usize = 0;
    let mut i: usize = 0;
    while i < medias.len()
        invariant
            i <= medias.len(),
            sans_position == nb_sans_position(medias@.take(i as int)),
            sans_position <= i,
        decreases medias.len() - i,
    {
        assert(medias@.take(i + 1).drop_last() =~= medias@.take(i as int));
        if medias[i].fiabilite == Fiabilite::Absente {
            sans_position = sans_position + 1;
        }
        i += 1;
    }
    assert(medias@.take(medias@.len() as int) =~= medias@);
    Bilan { videos_promues, interpolees, heritees, sans_position, jours_sans_lieu }
}

proof fn lemme_inserer_longueur(s: Seq<Media>, x: Media)
    ensures
        inserer_media(s, x).len() == s.len() + 1,
    decreases s.len(),
{
    if s.len() > 0 && !media_inf(x, s[0]) {
        lemme_inserer_longueur(s.drop_first(), x);
    }
}

proof fn lemme_tri_longueur(s: Seq<Media>)
    ensures
        tri_medias(s).len() == s.len(),
    decreases s.len(),
{
    if s.len() > 0 {
        lemme_tri_longueur(s.drop_last());
        lemme_inserer_longueur(tri_medias(s.drop_last()), s.last());
    }
}

/// Le quotient arrondi vers zéro s'écarte de moins d'une unité du quotient
/// exact.
pub proof fn lemme_quotient(x: int, d: int)
    requires
        d > 0,
    ensures
        -d < quotient(x, d) * d - x < d,
        x == 0 ==> quotient(x, d) == 0,
{
    if x >= 0 {
        assert(0 <= x - (x / d) * d < d) by (nonlinear_arith)
            requires
                x >= 0,
                d > 0,
        ;
    } else {
        let y = -x;
        assert(0 <= y - (y / d) * d < d) by (nonlinear_arith)
            requires
                y > 0,
                d > 0,
        ;
        assert(-(y / d) * d == -((y / d) * d)) by (nonlinear_arith);
    }
}

/// Un multiple exact se divise sans reste.
pub proof fn lemme_quotient_exact(c: int, d: int)
    requires
        d > 0,
    ensures
        quotient(c * d, d) == c,
{
    lemme_quotient(c * d, d);
    assert(quotient(c * d, d) == c) by (nonlinear_arith)
        requires
            d > 0,
            -d < quotient(c * d, d) * d - c * d < d,
    ;
}

/// Une position interpolée l'est au prorata du temps écoulé depuis la borne
/// d'avant : pour chaque coordonnée, l'écart à la borne d'avant, rapporté à
/// la durée entre les bornes, diffère de moins d'une unité de l'écart entre
/// les bornes rapporté au temps écoulé. Pris à l'instant de la borne d'avant,
/// le média en reçoit la position ; à l'instant de la borne d'après, celle
/// de cette borne. La position interpolée n'a pas d'altitude.
pub proof fn loi_interpolation_au_prorata<F: Fn(Position, Position) -> u64>(s: Seq<Media>, k: int, f: F)
    requires
        0 <= k < s.len(),
    ensures
        interpolation(s, k, f) matches Some(p) ==> ({
            let j = s[k].jour.unwrap();
            let a = borne_avant(s, k, j);
            let b = borne_apres(s, k, j);
            let t = utc(s[k]);
            let t0 = utc(s[a]);
            let t1 = utc(s[b]);
            let p0 = s[a].position.unwrap();
            let p1 = s[b].position.unwrap();
            &&& a >= 0 && b >= 0 && t0 < t1
            &&& p.alt is None
            &&& -(t1 - t0) < (p.lat - p0.lat) * (t1 - t0) - (p1.lat - p0.lat) * (t - t0) < t1 - t0
            &&& -(t1 - t0) < (p.lon - p0.lon) * (t1 - t0) - (p1.lon - p0.lon) * (t - t0) < t1 - t0
            &&& t == t0 ==> p.lat == p0.lat && p.lon == p0.lon
            &&& t == t1 ==> p.lat == p1.lat && p.lon == p1.lon
        }),
{
    if let Some(p) = interpolation(s, k, f) {
        let j = s[k].jour.unwrap();
        let a = borne_avant(s, k, j);
        let b = borne_apres(s, k, j);
        let t = utc(s[k]);
        let t0 = utc(s[a]);
        let t1 = utc(s[b]);
        let p0 = s[a].position.unwrap();
        let p1 = s[b].position.unwrap();
        let d = t1 - t0;
        let xa = (p1.lat - p0.lat) * (t - t0);
        let xo = (p1.lon - p0.lon) * (t - t0);
        lemme_quotient(xa, d);
        lemme_quotient(xo, d);
        assert(p.lat == p0.lat + quotient(xa, d));
        assert(p.lon == p0.lon + quotient(xo, d));
        if t == t1 {
            assert(xa == (p1.lat - p0.lat) * d);
            assert(xo == (p1.lon - p0.lon) * d);
            lemme_quotient_exact(p1.lat - p0.lat, d);
            lemme_quotient_exact(p1.lon - p0.lon, d);
        }
        if t == t0 {
            assert(xa == 0) by (nonlinear_arith)
                requires
                    t == t0,
                    xa == (p1.lat - p0.lat) * (t - t0),
            ;
            assert(xo == 0) by (nonlinear_arith)
                requires
                    t == t0,
                    xo == (p1.lon - p0.lon) * (t - t0),
            ;
        }
    }
}

} // verus!
