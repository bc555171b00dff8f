//! Ce que l'on publie et ce que l'on rapporte : l'index des journées, les
//! comptes du rapport de console, et leurs écritures lisibles.
//!
//! L'écriture des fichiers et l'impression se font au bord ; ici se
//! calcule ce qu'elles disent.

use vstd::prelude::*;
use vstd::string::StringExecFns;

use crate::jours::Journee;
use crate::noms::{vues, Convention};
use crate::quality::TrouCandidat;
use crate::scan::{Anomalie, Fiabilite, Instant, Media, OrigineDate, TypeMedia};
use crate::lieux::{inserer_jour, jours_croissants};
use crate::texte::{decimal, ecrire_decimal};
use crate::track::{vues_troncons, Mode, SourceTrace, Troncon, VueTroncon};
use crate::voyage::Voyage;

verus! {

// ---------------------------------------------------------------------------
// Noms
// ---------------------------------------------------------------------------

pub fn nom_convention(convention: Convention) -> (r: &'static str)
    ensures
        r@ == (match convention {
            Convention::Telephone => "IMG/VID + horodatage (téléphone)"@,
            Convention::Repartage => "IMG_date_heure (repartagé, C3)"@,
            Convention::Messagerie => "IMG-date-WAnnnn (messagerie, C10)"@,
            Convention::GoPro => "GOPRnnnn (GoPro, C4)"@,
            Convention::Compact => "Pnnnnnnn (compact)"@,
            Convention::AppareilPhoto => "DSCnnnn (appareil photo)"@,
            Convention::Autre => "hors convention"@,
        }),
{
    match convention {
        Convention::Telephone => "IMG/VID + horodatage (téléphone)",
        Convention::Repartage => "IMG_date_heure (repartagé, C3)",
        Convention::Messagerie => "IMG-date-WAnnnn (messagerie, C10)",
        Convention::GoPro => "GOPRnnnn (GoPro, C4)",
        Convention::Compact => "Pnnnnnnn (compact)",
        Convention::AppareilPhoto => "DSCnnnn (appareil photo)",
        Convention::Autre => "hors convention",
    }
}

pub fn nom_anomalie(anomalie: Anomalie) -> (r: &'static str)
    ensures
        r@ == (match anomalie {
            Anomalie::AltitudeNulle => "altitude_nulle (C1)"@,
            Anomalie::PositionClonee => "position_clonee (C2)"@,
            Anomalie::NomMenteur => "nom_menteur (C3)"@,
            Anomalie::HorlogePerdue => "horloge_perdue (C4)"@,
            Anomalie::Homonyme => "homonyme (C8)"@,
            Anomalie::NomNormalise => "nom_normalise (C6)"@,
            Anomalie::ExifAbsent => "exif_absent (C10)"@,
            Anomalie::DateDuNom => "date_du_nom (C10)"@,
            Anomalie::HemisphereAbsent => "hemisphere_absent (C9)"@,
        }),
{
    match anomalie {
        Anomalie::AltitudeNulle => "altitude_nulle (C1)",
        Anomalie::PositionClonee => "position_clonee (C2)",
        Anomalie::NomMenteur => "nom_menteur (C3)",
        Anomalie::HorlogePerdue => "horloge_perdue (C4)",
        Anomalie::Homonyme => "homonyme (C8)",
        Anomalie::NomNormalise => "nom_normalise (C6)",
        Anomalie::ExifAbsent => "exif_absent (C10)",
        Anomalie::DateDuNom => "date_du_nom (C10)",
        Anomalie::HemisphereAbsent => "hemisphere_absent (C9)",
    }
}

/// Le nom d'un mode dans les fichiers publiés.
pub fn nom_mode_json(mode: Mode) -> (r: &'static str)
    ensures
        r@ == (match mode {
            Mode::Route => "route"@,
            Mode::Marche => "marche"@,
            Mode::Velo => "velo"@,
            Mode::Bateau => "bateau"@,
            Mode::Train => "train"@,
            Mode::Telepherique => "telepherique"@,
        }),
{
    match mode {
        Mode::Route => "route",
        Mode::Marche => "marche",
        Mode::Velo => "velo",
        Mode::Bateau => "bateau",
        Mode::Train => "train",
        Mode::Telepherique => "telepherique",
    }
}

/// Le nom d'une source de tracé dans les fichiers publiés.
pub fn nom_source_json(source: SourceTrace) -> (r: &'static str)
    ensures
        r@ == (match source {
            SourceTrace::Mesuree => "mesuree"@,
            SourceTrace::Calculee => "calculee"@,
            SourceTrace::Manuelle => "manuelle"@,
            SourceTrace::Heritee => "heritee"@,
        }),
{
    match source {
        SourceTrace::Mesuree => "mesuree",
        SourceTrace::Calculee => "calculee",
        SourceTrace::Manuelle => "manuelle",
        SourceTrace::Heritee => "heritee",
    }
}

// ---------------------------------------------------------------------------
// Nombres lisibles
// ---------------------------------------------------------------------------

/// `n / d` arrondi à l'entier le plus proche, une moitié exacte allant au
/// pair.
pub open spec fn arrondi_pair(n: nat, d: nat) -> nat {
    let q = n / d;
    let r = n % d;
    if 2 * r > d || (2 * r == d && q % 2 == 1) {
        q + 1
    } else {
        q
    }
}

fn arrondi_pair_exec(n: u64, d: u64) -> (r: u64)
    requires
        d > 0,
    ensures
        r == arrondi_pair(n as nat, d as nat),
{
    let q = n / d;
    let r = n % d;
    assert(q <= n) by (nonlinear_arith)
        requires
            q == n / d,
            d > 0,
    ;
    if 2 * (r as u128) > d as u128 || (2 * (r as u128) == d as u128 && q % 2 == 1) {
        assert(q < u64::MAX) by (nonlinear_arith)
            requires
                q == n / d,
                d > 1 || r == 0,
                2 * r >= d,
                d > 0,
                r == n % d,
        ;
        q + 1
    } else {
        q
    }
}

pub(crate) fn arrondi_pair_large(n: u128, d: u128) -> (r: u128)
    requires
        d > 0,
        n < u128::MAX,
    ensures
        r == arrondi_pair(n as nat, d as nat),
        r * d <= n + d,
        r * d + d > n,
{
    let q = n / d;
    let r = n % d;
    assert(q * d + r == n && r < d) by (nonlinear_arith)
        requires
            q == n / d,
            r == n % d,
            d > 0,
    ;
    if r > d - r || (r == d - r && q % 2 == 1) {
        assert(q < u128::MAX) by (nonlinear_arith)
            requires
                q * d + r == n,
                n < u128::MAX,
                d > 0,
        ;
        assert((q + 1) * d == q * d + d) by (nonlinear_arith);
        q + 1
    } else {
        q
    }
}

// ---------------------------------------------------------------------------
// Les gigaoctets, tels que les écrit la double précision
// ---------------------------------------------------------------------------

/// Deux à la puissance `k`.
pub open spec fn deux_puissance(k: nat) -> nat
    decreases k,
{
    if k == 0 {
        1
    } else {
        2 * deux_puissance((k - 1) as nat)
    }
}

/// Le plus grand `e` tel que `d · 2^e ≤ p`, quand `0 < d ≤ p` ; zéro sinon.
pub open spec fn exposant(p: nat, d: nat) -> nat
    decreases p - d,
{
    if d == 0 || p < 2 * d {
        0
    } else {
        1 + exposant(p, 2 * d)
    }
}

/// L'entier `x` converti en double précision (`as f64`) : exact sous 2^53 ;
/// au-delà, arrondi au plus proche multiple de l'unité de son
/// cinquante-troisième chiffre binaire, une moitié allant au pair.
pub open spec fn en_double(x: nat) -> nat {
    if x < deux_puissance(53) {
        x
    } else {
        let u = deux_puissance(exposant(x, deux_puissance(53)) + 1);
        arrondi_pair(x, u) * u
    }
}

/// Les dixièmes de gigaoctet qu'écrit `{:.1}` pour `octets as f64 / 1e9`,
/// au-delà d'un milliard d'octets. Le quotient en double précision vaut
/// `m / 2^(52 - e)`, où `2^e ≤ x / 10^9 < 2^(e+1)` pour `x` l'entier converti
/// et `m` le quotient `x · 2^(52 - e) / 10^9` arrondi au plus proche, une
/// moitié au pair ; l'écriture à un chiffre arrondit ce double, pris
/// exactement, au dixième le plus proche, une moitié exacte au pair.
pub open spec fn dixiemes_go(octets: nat) -> nat {
    let x = en_double(octets);
    let u = deux_puissance((52 - exposant(x, 1_000_000_000)) as nat);
    arrondi_pair(10 * arrondi_pair(x * u, 1_000_000_000), u)
}

pub(crate) proof fn lemme_puissance_croissante(a: nat, b: nat)
    requires
        a <= b,
    ensures
        1 <= deux_puissance(a) <= deux_puissance(b),
        a < deux_puissance(a),
    decreases b,
{
    if b > 0 {
        if a < b {
            lemme_puissance_croissante(a, (b - 1) as nat);
        } else {
            lemme_puissance_croissante((a - 1) as nat, (b - 1) as nat);
        }
    }
}

proof fn lemme_puissance_somme(a: nat, b: nat)
    ensures
        deux_puissance(a) * deux_puissance(b) == deux_puissance(a + b),
    decreases a,
{
    if a > 0 {
        lemme_puissance_somme((a - 1) as nat, b);
        let x = deux_puissance((a - 1) as nat);
        let y = deux_puissance(b);
        assert(deux_puissance(a) == 2 * x);
        assert(((a - 1) as nat + b) as nat == (a + b - 1) as nat);
        assert(deux_puissance(a + b) == 2 * deux_puissance((a + b - 1) as nat));
        assert((2 * x) * y == 2 * (x * y)) by (nonlinear_arith);
    } else {
        assert(deux_puissance(0) == 1);
    }
}

/// Les puissances de deux dont les bornes ont besoin.
proof fn lemme_valeurs()
    ensures
        deux_puissance(11) == 2048,
        deux_puissance(36) == 68719476736,
        deux_puissance(52) == 4503599627370496,
        deux_puissance(53) == 9007199254740992,
        deux_puissance(63) == 9223372036854775808,
{
    reveal_with_fuel(deux_puissance, 64);
}

fn deux_puissance_exec(k: u64) -> (r: u128)
    requires
        k <= 64,
    ensures
        r == deux_puissance(k as nat),
{
    let mut r: u128 = 1;
    let mut i: u64 = 0;
    while i < k
        invariant
            i <= k <= 64,
            r == deux_puissance(i as nat),
        decreases k - i,
    {
        proof {
            lemme_puissance_croissante(i as nat, 63);
            lemme_valeurs();
        }
        r = 2 * r;
        i += 1;
    }
    r
}

fn exposant_exec(p: u128, d: u128) -> (e: u128)
    requires
        0 < d <= p,
        p <= 0x2_0000_0000_0000_0000,
    ensures
        e == exposant(p as nat, d as nat),
        d * deux_puissance(e as nat) <= p < 2 * d * deux_puissance(e as nat),
{
    let mut e: u128 = 0;
    let mut dd: u128 = d;
    assert(deux_puissance(0) == 1);
    while p >= 2 * dd
        invariant
            0 < d <= dd <= p,
            p <= 0x2_0000_0000_0000_0000,
            dd == d * deux_puissance(e as nat),
            e < deux_puissance(e as nat),
            exposant(p as nat, d as nat) == e + exposant(p as nat, dd as nat),
        decreases p - dd,
    {
        let ghost x = deux_puissance(e as nat);
        assert(x <= dd) by (nonlinear_arith)
            requires
                dd == d * x,
                d >= 1,
        ;
        assert(d * (2 * x) == 2 * (d * x)) by (nonlinear_arith);
        dd = 2 * dd;
        e = e + 1;
    }
    assert(2 * d * deux_puissance(e as nat) == 2 * (d * deux_puissance(e as nat))) by (nonlinear_arith);
    e
}

pub(crate) fn en_double_exec(x: u64) -> (r: u128)
    ensures
        r == en_double(x as nat),
        r <= 0x2_0000_0000_0000_0000,
        x >= 1_000_000_000 ==> r >= 1_000_000_000,
        x > 0 ==> r > 0,
{
    proof {
        lemme_valeurs();
    }
    if (x as u128) < 9007199254740992 {
        x as u128
    } else {
        let e = exposant_exec(x as u128, 9007199254740992);
        proof {
            lemme_valeurs();
            if e >= 11 {
                lemme_puissance_croissante(11, e as nat);
                assert(9007199254740992 * deux_puissance(e as nat) >= 9007199254740992 * 2048) by (nonlinear_arith)
                    requires
                        deux_puissance(e as nat) >= 2048,
                ;
            }
        }
        let u = deux_puissance_exec((e + 1) as u64);
        proof {
            lemme_puissance_croissante((e + 1) as nat, 11);
        }
        let m = arrondi_pair_large(x as u128, u);
        assert(m * u <= 0x2_0000_0000_0000_0000);
        m * u
    }
}

fn dixiemes_go_exec(octets: u64) -> (t: u128)
    requires
        octets >= 1_000_000_000,
    ensures
        t == dixiemes_go(octets as nat),
{
    let x = en_double_exec(octets);
    let e = exposant_exec(x, 1_000_000_000);
    proof {
        lemme_valeurs();
        if e >= 36 {
            lemme_puissance_croissante(36, e as nat);
            assert(1_000_000_000 * deux_puissance(e as nat) >= 1_000_000_000 * 68719476736) by (nonlinear_arith)
                requires
                    deux_puissance(e as nat) >= 68719476736,
            ;
        }
    }
    let u = deux_puissance_exec((52 - e) as u64);
    proof {
        lemme_puissance_somme(e as nat, (52 - e) as nat);
        lemme_puissance_croissante(0, (52 - e) as nat);
        lemme_valeurs();
        let a = deux_puissance(e as nat);
        assert(x * u < 2 * 1_000_000_000 * 4503599627370496) by (nonlinear_arith)
            requires
                x < 2 * 1_000_000_000 * a,
                a * u == 4503599627370496,
                u >= 1,
        ;
    }
    let n = x * u;
    let m = arrondi_pair_large(n, 1_000_000_000);
    assert(m <= 20_000_000_000_000_000_000_000) by (nonlinear_arith)
        requires
            m * 1_000_000_000 <= n + 1_000_000_000,
            n < 2 * 1_000_000_000 * 4503599627370496,
    ;
    arrondi_pair_large(10 * m, u)
}

/// Go et Mo au sens décimal : au-delà d'un milliard d'octets, des gigaoctets
/// au dixième, avec une virgule, tels que les écrit `{:.1}` pour le quotient
/// en double précision ; en deçà, des mégaoctets entiers. Sous le milliard,
/// le quotient par un million tombe juste aux demis, et l'arrondi exact au
/// pair est celui de l'écriture.
pub open spec fn octets_lisibles_spec(octets: nat) -> Seq<char> {
    if octets >= 1_000_000_000 {
        let dixiemes = dixiemes_go(octets);
        decimal(dixiemes / 10) + ","@ + decimal(dixiemes % 10) + " Go"@
    } else {
        decimal(arrondi_pair(octets, 1_000_000)) + " Mo"@
    }
}

pub fn octets_lisibles(octets: u64) -> (r: String)
    ensures
        r@ == octets_lisibles_spec(octets as nat),
{
    if octets >= 1_000_000_000 {
        let dixiemes = dixiemes_go_exec(octets);
        let mut r = crate::texte::ecrire_decimal_large(dixiemes / 10);
        r.append(",");
        let x = crate::texte::ecrire_decimal_large(dixiemes % 10);
        r.append(x.as_str());
        r.append(" Go");
        r
    } else {
        let mut r = ecrire_decimal(arrondi_pair_exec(octets, 1_000_000));
        r.append(" Mo");
        r
    }
}

/// Un pourcentage entier, `0 %` d'un total nul.
pub open spec fn pourcent_spec(partie: nat, total: nat) -> Seq<char> {
    if total == 0 {
        "0 %"@
    } else {
        decimal(arrondi_pair(100 * partie, total)) + " %"@
    }
}

pub fn pourcent(partie: usize, total: usize) -> (r: String)
    ensures
        r@ == pourcent_spec(partie as nat, total as nat),
{
    if total == 0 {
        return String::from_str("0 %");
    }
    let cent = 100 * (partie as u128);
    let q = cent / (total as u128);
    let reste = cent % (total as u128);
    let arrondi = if 2 * reste > total as u128 || (2 * reste == total as u128 && q % 2 == 1) {
        q + 1
    } else {
        q
    };
    assert(arrondi == arrondi_pair(100 * partie as nat, total as nat));
    assert(q <= cent) by (nonlinear_arith)
        requires
            q == cent / (total as u128),
            total > 0,
    ;
    assert(arrondi <= cent + 1);
    let mut r = crate::texte::ecrire_decimal_large(arrondi);
    r.append(" %");
    r
}


// ---------------------------------------------------------------------------
// Comptes du rapport
// ---------------------------------------------------------------------------

/// Nombre de médias qui satisfont `p`.
pub open spec fn compte(s: Seq<Media>, p: spec_fn(Media) -> bool) -> nat
    decreases s.len(),
{
    if s.len() == 0 {
        0
    } else if p(s.last()) {
        compte(s.drop_last(), p) + 1
    } else {
        compte(s.drop_last(), p)
    }
}

/// Somme des octets des médias qui satisfont `p`.
pub open spec fn somme_octets(s: Seq<Media>, p: spec_fn(Media) -> bool) -> nat
    decreases s.len(),
{
    if s.len() == 0 {
        0
    } else if p(s.last()) {
        somme_octets(s.drop_last(), p) + s.last().octets as nat
    } else {
        somme_octets(s.drop_last(), p)
    }
}

pub open spec fn rang_convention(c: Convention) -> int {
    match c {
        Convention::Telephone => 0,
        Convention::Repartage => 1,
        Convention::Messagerie => 2,
        Convention::GoPro => 3,
        Convention::Compact => 4,
        Convention::AppareilPhoto => 5,
        Convention::Autre => 6,
    }
}

pub open spec fn rang_anomalie(a: Anomalie) -> int {
    match a {
        Anomalie::AltitudeNulle => 0,
        Anomalie::PositionClonee => 1,
        Anomalie::NomMenteur => 2,
        Anomalie::HorlogePerdue => 3,
        Anomalie::Homonyme => 4,
        Anomalie::NomNormalise => 5,
        Anomalie::ExifAbsent => 6,
        Anomalie::DateDuNom => 7,
        Anomalie::HemisphereAbsent => 8,
    }
}

fn rang_convention_exec(c: Convention) -> (r: usize)
    ensures
        r == rang_convention(c),
{
    match c {
        Convention::Telephone => 0,
        Convention::Repartage => 1,
        Convention::Messagerie => 2,
        Convention::GoPro => 3,
        Convention::Compact => 4,
        Convention::AppareilPhoto => 5,
        Convention::Autre => 6,
    }
}

fn rang_anomalie_exec(a: Anomalie) -> (r: usize)
    ensures
        r == rang_anomalie(a),
{
    match a {
        Anomalie::AltitudeNulle => 0,
        Anomalie::PositionClonee => 1,
        Anomalie::NomMenteur => 2,
        Anomalie::HorlogePerdue => 3,
        Anomalie::Homonyme => 4,
        Anomalie::NomNormalise => 5,
        Anomalie::ExifAbsent => 6,
        Anomalie::DateDuNom => 7,
        Anomalie::HemisphereAbsent => 8,
    }
}

/// Nombre d'anomalies de ce rang portées par les médias.
pub open spec fn occurrences(s: Seq<Media>, rang: int) -> nat
    decreases s.len(),
{
    if s.len() == 0 {
        0
    } else {
        occurrences(s.drop_last(), rang) + occurrences_dans(s.last().anomalies@, rang)
    }
}

pub open spec fn occurrences_dans(a: Seq<Anomalie>, rang: int) -> nat
    decreases a.len(),
{
    if a.len() == 0 {
        0
    } else if rang_anomalie(a.last()) == rang {
        occurrences_dans(a.drop_last(), rang) + 1
    } else {
        occurrences_dans(a.drop_last(), rang)
    }
}

/// Les comptes du rapport de console.
#[derive(Debug, Clone)]
pub struct Statistiques {
    pub total: usize,
    pub photos: usize,
    pub videos: usize,
    pub octets: u64,
    pub octets_video: u64,
    pub par_exif: usize,
    pub par_nom: usize,
    pub sans_date: usize,
    pub haute: usize,
    pub basse: usize,
    pub absente: usize,
    /// Médias par convention de nommage, au rang de la convention.
    pub par_convention: Vec<usize>,
    /// Anomalies par motif, au rang du motif.
    pub par_anomalie: Vec<usize>,
    /// Les jours couverts par les médias, rangés.
    pub jours: Vec<i64>,
    /// Ceux de ces jours qui tombent hors de la période du voyage.
    pub hors_periode: Vec<i64>,
}

pub open spec fn jours_des_medias(s: Seq<Media>) -> Set<i64> {
    Set::new(|j: i64| exists|k: int| 0 <= k < s.len() && (#[trigger] s[k]).jour == Some(j))
}

pub open spec fn hors_periode_spec(jours: Seq<i64>, v: Voyage) -> Seq<i64>
    decreases jours.len(),
{
    if jours.len() == 0 {
        seq![]
    } else if jours.last() < v.date_debut || jours.last() > v.date_fin {
        hors_periode_spec(jours.drop_last(), v).push(jours.last())
    } else {
        hors_periode_spec(jours.drop_last(), v)
    }
}

fn compter_anomalies(a: &Vec<Anomalie>, comptes: &mut Vec<usize>, borne: Ghost<int>)
    requires
        old(comptes)@.len() == 9,
        forall|r: int| 0 <= r < 9 ==> old(comptes)@[r] + a@.len() <= borne@,
        borne@ <= usize::MAX,
    ensures
        final(comptes)@.len() == 9,
        forall|r: int| 0 <= r < 9 ==> final(comptes)@[r] == old(comptes)@[r] + occurrences_dans(a@, r),
{
    let mut i: usize = 0;
    while i < a.len()
        invariant
            i <= a@.len(),
            comptes@.len() == 9,
            forall|r: int| 0 <= r < 9 ==> old(comptes)@[r] + a@.len() <= borne@,
            borne@ <= usize::MAX,
            forall|r: int| 0 <= r < 9 ==> comptes@[r] == old(comptes)@[r] + occurrences_dans(a@.take(i as int), r),
            forall|r: int| 0 <= r < 9 ==> occurrences_dans(a@.take(i as int), r) <= i,
        decreases a@.len() - i,
    {
        assert(a@.take(i + 1).drop_last() =~= a@.take(i as int));
        assert forall|q: int| 0 <= q < 9 implies #[trigger] occurrences_dans(a@.take(i + 1), q) == occurrences_dans(
            a@.take(i as int),
            q,
        ) + (if rang_anomalie(a@[i as int]) == q { 1int } else { 0int }) by {
            assert(a@.take(i + 1).last() == a@[i as int]);
        }
        let r = rang_anomalie_exec(a[i]);
        let x = comptes[r];
        comptes.set(r, x + 1);
        i += 1;
    }
    assert(a@.take(a@.len() as int) =~= a@);
}


/// Les comptes du rapport de console : volumétrie, datation, positions,
/// conventions de nommage, anomalies, journées.
pub fn statistiques(medias: &Vec<Media>, voyage: &Voyage) -> (r: Statistiques)
    requires
        somme_octets(medias@, |m: Media| true) <= u64::MAX,
        nb_anomalies(medias@) <= usize::MAX,
    ensures
        r.total == medias@.len(),
        r.photos == compte(medias@, |m: Media| m.type_media == TypeMedia::Photo),
        r.videos == medias@.len() - r.photos,
        r.octets == somme_octets(medias@, |m: Media| true),
        r.octets_video == somme_octets(medias@, |m: Media| m.type_media == TypeMedia::Video),
        r.par_exif == compte(medias@, |m: Media| m.origine_date == OrigineDate::Exif),
        r.par_nom == compte(medias@, |m: Media| m.origine_date == OrigineDate::Nom),
        r.sans_date == compte(medias@, |m: Media| m.origine_date == OrigineDate::Absente),
        r.haute == compte(medias@, |m: Media| m.fiabilite == Fiabilite::Haute),
        r.basse == compte(medias@, |m: Media| m.fiabilite == Fiabilite::Basse),
        r.absente == compte(medias@, |m: Media| m.fiabilite == Fiabilite::Absente),
        r.par_convention@.len() == 7,
        forall|c: Convention| #[trigger] r.par_convention@[rang_convention(c)] == compte(medias@, |m: Media| m.convention == c),
        r.par_anomalie@.len() == 9,
        forall|a: Anomalie| #[trigger] r.par_anomalie@[rang_anomalie(a)] == occurrences(medias@, rang_anomalie(a)),
        jours_croissants(r.jours@),
        r.jours@.to_set() == jours_des_medias(medias@),
        r.hors_periode@ == hors_periode_spec(r.jours@, *voyage),
{
    let ghost s = medias@;
    let n = medias.len();
    let mut photos: usize = 0;
    let mut octets: u64 = 0;
    let mut octets_video: u64 = 0;
    let mut par_exif: usize = 0;
    let mut par_nom: usize = 0;
    let mut sans_date: usize = 0;
    let mut haute: usize = 0;
    let mut basse: usize = 0;
    let mut absente: usize = 0;
    let mut par_convention: Vec<usize> = vec![0, 0, 0, 0, 0, 0, 0];
    let mut par_anomalie: Vec<usize> = vec![0, 0, 0, 0, 0, 0, 0, 0, 0];
    let mut jours: Vec<i64> = Vec::new();
    let mut i: usize = 0;
    proof {
        lemme_somme_prefixe(s, 0);
    }
    while i < n
        invariant
            i <= n,
            n == s.len(),
            s == medias@,
            somme_octets(s, |m: Media| true) <= u64::MAX,
            nb_anomalies(s) <= usize::MAX,
            photos == compte(s.take(i as int), |m: Media| m.type_media == TypeMedia::Photo),
            octets == somme_octets(s.take(i as int), |m: Media| true),
            octets_video == somme_octets(s.take(i as int), |m: Media| m.type_media == TypeMedia::Video),
            octets_video <= octets,
            par_exif == compte(s.take(i as int), |m: Media| m.origine_date == OrigineDate::Exif),
            par_nom == compte(s.take(i as int), |m: Media| m.origine_date == OrigineDate::Nom),
            sans_date == compte(s.take(i as int), |m: Media| m.origine_date == OrigineDate::Absente),
            haute == compte(s.take(i as int), |m: Media| m.fiabilite == Fiabilite::Haute),
            basse == compte(s.take(i as int), |m: Media| m.fiabilite == Fiabilite::Basse),
            absente == compte(s.take(i as int), |m: Media| m.fiabilite == Fiabilite::Absente),
            photos <= i && par_exif <= i && par_nom <= i && sans_date <= i && haute <= i && basse <= i && absente <= i,
            par_convention@.len() == 7,
            forall|c: Convention| #[trigger] par_convention@[rang_convention(c)] == compte(s.take(i as int), |m: Media| m.convention == c),
            forall|r: int| 0 <= r < 7 ==> par_convention@[r] <= i,
            par_anomalie@.len() == 9,
            forall|r: int| 0 <= r < 9 ==> par_anomalie@[r] == occurrences(s.take(i as int), r),
            jours_croissants(jours@),
            jours@.to_set() == jours_des_medias(s.take(i as int)),
        decreases n - i,
    {
        let ghost t = s.take(i as int);
        let ghost t1 = s.take(i + 1);
        assert(t1.drop_last() =~= t);
        assert(t1.last() == s[i as int]);
        let m = &medias[i];
        proof {
            lemme_somme_prefixe(s, i + 1);
        }
        if m.type_media == TypeMedia::Photo {
            photos = photos + 1;
        } else {
            octets_video = octets_video + m.octets;
        }
        octets = octets + m.octets;
        match m.origine_date {
            OrigineDate::Exif => { par_exif = par_exif + 1; },
            OrigineDate::Nom => { par_nom = par_nom + 1; },
            OrigineDate::Absente => { sans_date = sans_date + 1; },
        }
        match m.fiabilite {
            Fiabilite::Haute => { haute = haute + 1; },
            Fiabilite::Basse => { basse = basse + 1; },
            Fiabilite::Absente => { absente = absente + 1; },
        }
        let rc = rang_convention_exec(m.convention);
        let x = par_convention[rc];
        par_convention.set(rc, x + 1);
        assert forall|c: Convention| #[trigger] par_convention@[rang_convention(c)] == compte(t1, |m: Media| m.convention == c) by {
            assert(compte(t1, |m: Media| m.convention == c) == compte(t, |m: Media| m.convention == c) + (if s[i as int].convention == c { 1nat } else { 0nat }));
        }
        proof {
            lemme_nb_anomalies_prefixe(s, i as int);
            assert forall|q: int| 0 <= q < 9 implies par_anomalie@[q] + m.anomalies@.len() <= nb_anomalies(s) by {
                lemme_occurrences(t, q);
            }
        }
        compter_anomalies(&m.anomalies, &mut par_anomalie, Ghost(nb_anomalies(s) as int));
        assert forall|q: int| 0 <= q < 9 implies par_anomalie@[q] == occurrences(t1, q) by {
        }
        if let Some(j) = m.jour {
            inserer_jour(&mut jours, j);
        }
        assert(jours@.to_set() =~= jours_des_medias(t1)) by {
            assert forall|j: i64| jours_des_medias(t1).contains(j) implies jours@.to_set().contains(j) by {
                let k = choose|k: int| 0 <= k < t1.len() && (#[trigger] t1[k]).jour == Some(j);
                if k < i {
                    assert(t[k] == t1[k]);
                    assert(jours_des_medias(t).contains(j));
                }
            }
            assert forall|j: i64| jours@.to_set().contains(j) implies jours_des_medias(t1).contains(j) by {
                if jours_des_medias(t).contains(j) {
                    let k = choose|k: int| 0 <= k < t.len() && (#[trigger] t[k]).jour == Some(j);
                    assert(t1[k] == t[k]);
                }
            }
        }
        i += 1;
    }
    assert(s.take(n as int) =~= s);
    let mut hors_periode: Vec<i64> = Vec::new();
    let mut k: usize = 0;
    while k < jours.len()
        invariant
            k <= jours@.len(),
            hors_periode@ == hors_periode_spec(jours@.take(k as int), *voyage),
        decreases jours@.len() - k,
    {
        assert(jours@.take(k + 1).drop_last() =~= jours@.take(k as int));
        if jours[k] < voyage.date_debut || jours[k] > voyage.date_fin {
            hors_periode.push(jours[k]);
        }
        k += 1;
    }
    assert(jours@.take(jours@.len() as int) =~= jours@);
    Statistiques {
        total: n,
        photos,
        videos: n - photos,
        octets,
        octets_video,
        par_exif,
        par_nom,
        sans_date,
        haute,
        basse,
        absente,
        par_convention,
        par_anomalie,
        jours,
        hors_periode,
    }
}

proof fn lemme_somme_prefixe(s: Seq<Media>, n: int)
    requires
        0 <= n <= s.len(),
    ensures
        somme_octets(s.take(n), |m: Media| true) <= somme_octets(s, |m: Media| true),
        somme_octets(s.take(n), |m: Media| m.type_media == TypeMedia::Video) <= somme_octets(s.take(n), |m: Media| true),
    decreases s.len(),
{
    if s.len() > 0 {
        if n == s.len() {
            assert(s.take(n) =~= s);
            lemme_somme_prefixe(s.drop_last(), n - 1);
            assert(s.take(n).drop_last() =~= s.drop_last().take(n - 1));
        } else {
            assert(s.drop_last().take(n) =~= s.take(n));
            lemme_somme_prefixe(s.drop_last(), n);
        }
    }
}

proof fn lemme_occurrences_dans(a: Seq<Anomalie>, r: int)
    ensures
        occurrences_dans(a, r) <= a.len(),
    decreases a.len(),
{
    if a.len() > 0 {
        lemme_occurrences_dans(a.drop_last(), r);
    }
}

/// Nombre d'anomalies portées par les médias, tous motifs confondus.
pub open spec fn nb_anomalies(s: Seq<Media>) -> nat
    decreases s.len(),
{
    if s.len() == 0 {
        0
    } else {
        nb_anomalies(s.drop_last()) + s.last().anomalies@.len()
    }
}

/// Les anomalies d'une suite, comptées rang par rang.
pub open spec fn somme_des_rangs(a: Seq<Anomalie>) -> nat {
    occurrences_dans(a, 0) + occurrences_dans(a, 1) + occurrences_dans(a, 2) + occurrences_dans(a, 3)
        + occurrences_dans(a, 4) + occurrences_dans(a, 5) + occurrences_dans(a, 6) + occurrences_dans(a, 7)
        + occurrences_dans(a, 8)
}

pub open spec fn somme_des_occurrences(s: Seq<Media>) -> nat {
    occurrences(s, 0) + occurrences(s, 1) + occurrences(s, 2) + occurrences(s, 3) + occurrences(s, 4) + occurrences(s, 5)
        + occurrences(s, 6) + occurrences(s, 7) + occurrences(s, 8)
}

proof fn lemme_rangs(a: Seq<Anomalie>)
    ensures
        somme_des_rangs(a) == a.len(),
    decreases a.len(),
{
    if a.len() > 0 {
        lemme_rangs(a.drop_last());
    }
}

proof fn lemme_somme_des_occurrences(s: Seq<Media>)
    ensures
        somme_des_occurrences(s) == nb_anomalies(s),
        nb_anomalies(s) == 0 <==> forall|k: int| 0 <= k < s.len() ==> (#[trigger] s[k]).anomalies@.len() == 0,
    decreases s.len(),
{
    if s.len() > 0 {
        lemme_somme_des_occurrences(s.drop_last());
        lemme_rangs(s.last().anomalies@);
        if nb_anomalies(s) == 0 {
            assert forall|k: int| 0 <= k < s.len() implies (#[trigger] s[k]).anomalies@.len() == 0 by {
                if k < s.len() - 1 {
                    assert(s[k] == s.drop_last()[k]);
                }
            }
        } else if forall|k: int| 0 <= k < s.len() ==> (#[trigger] s[k]).anomalies@.len() == 0 {
            assert forall|k: int| 0 <= k < s.drop_last().len() implies (#[trigger] s.drop_last()[k]).anomalies@.len() == 0 by {
                assert(s[k] == s.drop_last()[k]);
            }
            assert(s[s.len() - 1].anomalies@.len() == 0);
        }
    }
}

/// La section des anomalies dit « aucune » exactement quand aucun média
/// n'en porte : tous les comptes par motif sont nuls si et seulement si
/// chaque média a une liste d'anomalies vide.
pub proof fn loi_aucune_anomalie(s: Seq<Media>)
    ensures
        (forall|r: int| 0 <= r < 9 ==> #[trigger] occurrences(s, r) == 0) <==> forall|k: int|
            0 <= k < s.len() ==> (#[trigger] s[k]).anomalies@.len() == 0,
{
    lemme_somme_des_occurrences(s);
    if forall|k: int| 0 <= k < s.len() ==> (#[trigger] s[k]).anomalies@.len() == 0 {
        assert forall|r: int| 0 <= r < 9 implies #[trigger] occurrences(s, r) == 0 by {
            assert(occurrences(s, 0) + occurrences(s, 1) + occurrences(s, 2) + occurrences(s, 3) + occurrences(s, 4)
                + occurrences(s, 5) + occurrences(s, 6) + occurrences(s, 7) + occurrences(s, 8) == 0);
        }
    } else {
        assert(nb_anomalies(s) > 0);
        if forall|r: int| 0 <= r < 9 ==> #[trigger] occurrences(s, r) == 0 {
            assert(occurrences(s, 0) == 0 && occurrences(s, 1) == 0 && occurrences(s, 2) == 0 && occurrences(s, 3) == 0
                && occurrences(s, 4) == 0 && occurrences(s, 5) == 0 && occurrences(s, 6) == 0 && occurrences(s, 7) == 0
                && occurrences(s, 8) == 0);
        }
    }
}

/// Vrai quand aucun motif d'anomalie n'est compté : la section des
/// anomalies dit alors « aucune ».
pub fn aucune_anomalie(s: &Statistiques) -> (r: bool)
    ensures
        r == forall|i: int| 0 <= i < s.par_anomalie@.len() ==> #[trigger] s.par_anomalie@[i] == 0,
{
    let mut i: usize = 0;
    while i < s.par_anomalie.len()
        invariant
            i <= s.par_anomalie@.len(),
            forall|k: int| 0 <= k < i ==> #[trigger] s.par_anomalie@[k] == 0,
        decreases s.par_anomalie.len() - i,
    {
        if s.par_anomalie[i] != 0 {
            return false;
        }
        i += 1;
    }
    true
}

proof fn lemme_occurrences(s: Seq<Media>, r: int)
    ensures
        occurrences(s, r) <= nb_anomalies(s),
    decreases s.len(),
{
    if s.len() > 0 {
        lemme_occurrences(s.drop_last(), r);
        lemme_occurrences_dans(s.last().anomalies@, r);
    }
}

proof fn lemme_nb_anomalies_prefixe(s: Seq<Media>, n: int)
    requires
        0 <= n < s.len(),
    ensures
        nb_anomalies(s.take(n)) + s[n].anomalies@.len() <= nb_anomalies(s),
    decreases s.len(),
{
    if n == s.len() - 1 {
        assert(s.drop_last() =~= s.take(n));
    } else {
        assert(s.drop_last().take(n) =~= s.take(n));
        lemme_nb_anomalies_prefixe(s.drop_last(), n);
    }
}


// ---------------------------------------------------------------------------
// L'index des journées
// ---------------------------------------------------------------------------

#[derive(Debug, Clone, Copy)]
pub struct Comptes {
    pub photo: usize,
    pub video: usize,
    pub total: usize,
}

/// L'index dérivé d'une journée, sans sa longueur de trace. Il ne contient
/// jamais de contenu rédactionnel.
#[derive(Debug, Clone)]
pub struct JourAgrege {
    pub jour: i64,
    pub lieu: Option<String>,
    pub camp: Option<String>,
    pub premiere_prise: Option<Instant>,
    pub derniere_prise: Option<Instant>,
    pub medias: Comptes,
    pub couverture: Option<String>,
    /// `[lon_min, lat_min, lon_max, lat_max]`.
    pub bbox: Option<[i64; 4]>,
    pub modes: Vec<Mode>,
    pub anomalies: Vec<String>,
}

pub open spec fn vue_option(o: Option<String>) -> Option<Seq<char>> {
    match o {
        Some(s) => Some(s@),
        None => None,
    }
}

/// Nombre de médias du jour parmi les `n` premiers, photos seulement si
/// `photos`.
pub open spec fn nb_du_jour(s: Seq<Media>, j: i64, n: int, photos: bool) -> nat
    decreases n,
{
    if n <= 0 {
        0
    } else if s[n - 1].jour == Some(j) && (!photos || s[n - 1].type_media == TypeMedia::Photo) {
        nb_du_jour(s, j, n - 1, photos) + 1
    } else {
        nb_du_jour(s, j, n - 1, photos)
    }
}

/// La première prise du jour parmi les `n` premiers médias : la plus
/// ancienne, la première venue à égalité.
pub open spec fn premiere_prise(s: Seq<Media>, j: i64, n: int) -> Option<Instant>
    decreases n,
{
    if n <= 0 {
        None
    } else {
        let a = premiere_prise(s, j, n - 1);
        let m = s[n - 1];
        if m.jour == Some(j) && m.prise_le is Some {
            match a {
                Some(x) => if m.prise_le.unwrap().utc < x.utc {
                    m.prise_le
                } else {
                    a
                },
                None => m.prise_le,
            }
        } else {
            a
        }
    }
}

/// La dernière prise du jour : la plus récente, la dernière venue à égalité.
pub open spec fn derniere_prise(s: Seq<Media>, j: i64, n: int) -> Option<Instant>
    decreases n,
{
    if n <= 0 {
        None
    } else {
        let a = derniere_prise(s, j, n - 1);
        let m = s[n - 1];
        if m.jour == Some(j) && m.prise_le is Some {
            match a {
                Some(x) => if m.prise_le.unwrap().utc >= x.utc {
                    m.prise_le
                } else {
                    a
                },
                None => m.prise_le,
            }
        } else {
            a
        }
    }
}

pub open spec fn min_i64(a: i64, b: i64) -> i64 {
    if a <= b { a } else { b }
}

pub open spec fn max_i64(a: i64, b: i64) -> i64 {
    if a >= b { a } else { b }
}

/// L'emprise des positions du jour.
pub open spec fn emprise(s: Seq<Media>, j: i64, n: int) -> Option<[i64; 4]>
    decreases n,
{
    if n <= 0 {
        None
    } else {
        let b = emprise(s, j, n - 1);
        let m = s[n - 1];
        if m.jour == Some(j) && m.position is Some {
            let p = m.position.unwrap();
            match b {
                None => Some([p.lon, p.lat, p.lon, p.lat]),
                Some(x) => Some([min_i64(x[0], p.lon), min_i64(x[1], p.lat), max_i64(x[2], p.lon), max_i64(x[3], p.lat)]),
            }
        } else {
            b
        }
    }
}

/// La dernière journée du récit qui porte cette date, ou -1.
pub open spec fn frontmatter(js: Seq<Journee>, j: i64) -> int
    decreases js.len(),
{
    if js.len() == 0 {
        -1
    } else if js.last().date == j {
        js.len() - 1
    } else {
        frontmatter(js.drop_last(), j)
    }
}

/// La première photo fiable du jour, parmi les `n` premiers médias.
pub open spec fn premiere_photo_fiable(s: Seq<Media>, j: i64, n: int) -> int
    decreases n,
{
    if n <= 0 {
        -1
    } else if premiere_photo_fiable(s, j, n - 1) >= 0 {
        premiere_photo_fiable(s, j, n - 1)
    } else if s[n - 1].jour == Some(j) && s[n - 1].type_media == TypeMedia::Photo && s[n - 1].fiabilite == Fiabilite::Haute {
        n - 1
    } else {
        -1
    }
}

/// La couverture déclarée par la rédaction l'emporte ; à défaut, la
/// première photo fiable de la journée.
pub open spec fn couverture_du_jour(s: Seq<Media>, js: Seq<Journee>, j: i64) -> Option<Seq<char>> {
    let f = frontmatter(js, j);
    if f >= 0 && js[f].couverture is Some {
        Some(js[f].couverture.unwrap()@)
    } else if premiere_photo_fiable(s, j, s.len() as int) >= 0 {
        Some(s[premiere_photo_fiable(s, j, s.len() as int)].id@)
    } else {
        None
    }
}

pub open spec fn rang_mode(m: Mode) -> int {
    match m {
        Mode::Route => 0,
        Mode::Marche => 1,
        Mode::Velo => 2,
        Mode::Bateau => 3,
        Mode::Train => 4,
        Mode::Telepherique => 5,
    }
}

/// Les modes des tronçons de ce jour.
pub open spec fn modes_du_jour(ts: Seq<VueTroncon>, j: i64) -> Set<Mode> {
    Set::new(|m: Mode| exists|i: int| 0 <= i < ts.len() && (#[trigger] ts[i]).0 == j && ts[i].1 == m)
}

pub open spec fn modes_ranges(v: Seq<Mode>) -> bool {
    forall|a: int, b: int| 0 <= a < b < v.len() ==> rang_mode(v[a]) < rang_mode(v[b])
}

/// Nombre de trous candidats de ce jour.
pub open spec fn nb_trous(t: Seq<TrouCandidat>, j: i64) -> nat
    decreases t.len(),
{
    if t.len() == 0 {
        0
    } else if t.last().jour == j {
        nb_trous(t.drop_last(), j) + 1
    } else {
        nb_trous(t.drop_last(), j)
    }
}

/// L'index d'une journée est celui que disent ses médias, ses tronçons et
/// ses trous candidats.
pub open spec fn jour_agrege(
    a: JourAgrege,
    s: Seq<Media>,
    js: Seq<Journee>,
    ts: Seq<VueTroncon>,
    trous: Seq<TrouCandidat>,
    j: i64,
) -> bool {
    let f = frontmatter(js, j);
    &&& a.jour == j
    &&& vue_option(a.lieu) == (if f >= 0 { vue_option(js[f].lieu) } else { None })
    &&& vue_option(a.camp) == (if f >= 0 { vue_option(js[f].camp) } else { None })
    &&& a.premiere_prise == premiere_prise(s, j, s.len() as int)
    &&& a.derniere_prise == derniere_prise(s, j, s.len() as int)
    &&& a.medias.photo == nb_du_jour(s, j, s.len() as int, true)
    &&& a.medias.total == nb_du_jour(s, j, s.len() as int, false)
    &&& a.medias.video == a.medias.total - a.medias.photo
    &&& vue_option(a.couverture) == couverture_du_jour(s, js, j)
    &&& a.bbox == emprise(s, j, s.len() as int)
    &&& modes_ranges(a.modes@)
    &&& a.modes@.to_set() == modes_du_jour(ts, j)
    &&& a.anomalies@.len() == nb_trous(trous, j)
    &&& forall|i: int| 0 <= i < a.anomalies@.len() ==> (#[trigger] a.anomalies@[i])@ == "trou_candidat"@
}

fn cloner_option(o: &Option<String>) -> (r: Option<String>)
    ensures
        vue_option(r) == vue_option(*o),
{
    match o {
        Some(s) => Some(s.clone()),
        None => None,
    }
}

proof fn lemme_nb_du_jour(s: Seq<Media>, j: i64, n: int)
    requires
        0 <= n <= s.len(),
    ensures
        nb_du_jour(s, j, n, true) <= nb_du_jour(s, j, n, false) <= n,
    decreases n,
{
    if n > 0 {
        lemme_nb_du_jour(s, j, n - 1);
    }
}

fn rang_mode_exec(m: Mode) -> (r: u8)
    ensures
        r == rang_mode(m),
{
    match m {
        Mode::Route => 0,
        Mode::Marche => 1,
        Mode::Velo => 2,
        Mode::Bateau => 3,
        Mode::Train => 4,
        Mode::Telepherique => 5,
    }
}

/// Insère un mode à son rang, s'il n'y est pas.
fn inserer_mode(v: &mut Vec<Mode>, x: Mode)
    requires
        modes_ranges(old(v)@),
    ensures
        modes_ranges(final(v)@),
        final(v)@.to_set() == old(v)@.to_set().insert(x),
{
    let ghost avant = v@;
    let rx = rang_mode_exec(x);
    let mut p: usize = 0;
    while p < v.len() && rang_mode_exec(v[p]) < rx
        invariant
            p <= v.len(),
            v@ == avant,
            rx == rang_mode(x),
            forall|q: int| 0 <= q < p ==> rang_mode(v@[q]) < rang_mode(x),
        decreases v.len() - p,
    {
        p += 1;
    }
    if p < v.len() && rang_mode_exec(v[p]) == rx {
        assert(v@[p as int] == x);
        assert(v@.to_set() =~= avant.to_set().insert(x));
        return;
    }
    v.insert(p, x);
    assert forall|y: Mode| v@.to_set().contains(y) <==> avant.to_set().insert(x).contains(y) by {
        if v@.contains(y) {
            let k = choose|k: int| 0 <= k < v@.len() && v@[k] == y;
            if k < p {
                assert(avant[k] == y);
            } else if k > p {
                assert(avant[k - 1] == y);
            }
        }
        if avant.contains(y) {
            let k = choose|k: int| 0 <= k < avant.len() && avant[k] == y;
            if k < p {
                assert(v@[k] == y);
            } else {
                assert(v@[k + 1] == y);
            }
        }
        if y == x {
            assert(v@[p as int] == y);
        }
    }
    assert(v@.to_set() =~= avant.to_set().insert(x));
}

fn modes_exec(troncons: &Vec<Troncon>, j: i64) -> (r: Vec<Mode>)
    ensures
        modes_ranges(r@),
        r@.to_set() == modes_du_jour(vues_troncons(troncons@), j),
{
    let ghost ts = vues_troncons(troncons@);
    let mut r: Vec<Mode> = Vec::new();
    let mut i: usize = 0;
    while i < troncons.len()
        invariant
            i <= troncons@.len(),
            ts == vues_troncons(troncons@),
            modes_ranges(r@),
            r@.to_set() == Set::new(|m: Mode| exists|q: int| 0 <= q < i && (#[trigger] ts[q]).0 == j && ts[q].1 == m),
        decreases troncons@.len() - i,
    {
        let ghost avant = r@.to_set();
        if troncons[i].jour == j {
            inserer_mode(&mut r, troncons[i].mode);
        }
        assert(r@.to_set() =~= Set::new(|m: Mode| exists|q: int| 0 <= q < i + 1 && (#[trigger] ts[q]).0 == j && ts[q].1 == m)) by {
            assert forall|m: Mode| (exists|q: int| 0 <= q < i + 1 && (#[trigger] ts[q]).0 == j && ts[q].1 == m) implies r@.to_set().contains(m) by {
                let q = choose|q: int| 0 <= q < i + 1 && (#[trigger] ts[q]).0 == j && ts[q].1 == m;
                if q < i {
                    assert(avant.contains(m));
                }
            }
            assert forall|m: Mode| r@.to_set().contains(m) implies (exists|q: int| 0 <= q < i + 1 && (#[trigger] ts[q]).0 == j && ts[q].1 == m) by {
                if avant.contains(m) {
                    let q = choose|q: int| 0 <= q < i && (#[trigger] ts[q]).0 == j && ts[q].1 == m;
                    assert(ts[q].0 == j);
                } else {
                    assert(ts[i as int].0 == j && ts[i as int].1 == m);
                }
            }
        }
        i += 1;
    }
    assert(r@.to_set() =~= modes_du_jour(ts, j));
    r
}

fn frontmatter_exec(journees: &Vec<Journee>, j: i64) -> (r: Option<usize>)
    ensures
        match r {
            Some(x) => frontmatter(journees@, j) == x && x < journees@.len(),
            None => frontmatter(journees@, j) == -1,
        },
{
    let mut k: usize = journees.len();
    assert(journees@.take(k as int) =~= journees@);
    while k > 0
        invariant
            k <= journees@.len(),
            frontmatter(journees@, j) == frontmatter(journees@.take(k as int), j),
        decreases k,
    {
        assert(journees@.take(k as int).drop_last() =~= journees@.take(k - 1));
        if journees[k - 1].date == j {
            return Some(k - 1);
        }
        k -= 1;
    }
    None
}

/// L'index d'une journée.
fn agreger_jour(
    medias: &Vec<Media>,
    journees: &Vec<Journee>,
    troncons: &Vec<Troncon>,
    trous: &Vec<TrouCandidat>,
    j: i64,
) -> (r: JourAgrege)
    ensures
        jour_agrege(r, medias@, journees@, vues_troncons(troncons@), trous@, j),
{
    let ghost s = medias@;
    let n = medias.len();
    let mut photo: usize = 0;
    let mut total: usize = 0;
    let mut premiere: Option<Instant> = None;
    let mut derniere: Option<Instant> = None;
    let mut bbox: Option<[i64; 4]> = None;
    let mut fiable: Option<usize> = None;
    let mut i: usize = 0;
    while i < n
        invariant
            i <= n,
            n == s.len(),
            s == medias@,
            photo == nb_du_jour(s, j, i as int, true),
            total == nb_du_jour(s, j, i as int, false),
            premiere == premiere_prise(s, j, i as int),
            derniere == derniere_prise(s, j, i as int),
            bbox == emprise(s, j, i as int),
            match fiable {
                Some(k) => k == premiere_photo_fiable(s, j, i as int) && k < i,
                None => premiere_photo_fiable(s, j, i as int) == -1,
            },
        decreases n - i,
    {
        proof {
            lemme_nb_du_jour(s, j, i as int);
        }
        let m = &medias[i];
        if m.jour == Some(j) {
            total = total + 1;
            if m.type_media == TypeMedia::Photo {
                photo = photo + 1;
            }
            if let Some(t) = m.prise_le {
                premiere = match premiere {
                    Some(x) => if t.utc < x.utc { Some(t) } else { Some(x) },
                    None => Some(t),
                };
                derniere = match derniere {
                    Some(x) => if t.utc >= x.utc { Some(t) } else { Some(x) },
                    None => Some(t),
                };
            }
            if let Some(p) = m.position {
                bbox = match bbox {
                    None => Some([p.lon, p.lat, p.lon, p.lat]),
                    Some(x) => Some([
                        if x[0] <= p.lon { x[0] } else { p.lon },
                        if x[1] <= p.lat { x[1] } else { p.lat },
                        if x[2] >= p.lon { x[2] } else { p.lon },
                        if x[3] >= p.lat { x[3] } else { p.lat },
                    ]),
                };
            }
            if fiable.is_none() && m.type_media == TypeMedia::Photo && m.fiabilite == Fiabilite::Haute {
                fiable = Some(i);
            }
        }
        i += 1;
    }
    proof {
        lemme_nb_du_jour(s, j, n as int);
    }
    // La dernière journée du récit qui porte cette date.
    let f = frontmatter_exec(journees, j);
    let (lieu, camp, declaree) = match f {
        Some(x) => (cloner_option(&journees[x].lieu), cloner_option(&journees[x].camp), cloner_option(&journees[x].couverture)),
        None => (None, None, None),
    };
    let couverture = match declaree {
        Some(c) => Some(c),
        None => match fiable {
            Some(x) => Some(medias[x].id.clone()),
            None => None,
        },
    };
    let modes = modes_exec(troncons, j);
    let mut anomalies: Vec<String> = Vec::new();
    let mut q: usize = 0;
    while q < trous.len()
        invariant
            q <= trous@.len(),
            anomalies@.len() == nb_trous(trous@.take(q as int), j),
            anomalies@.len() <= q,
            forall|x: int| 0 <= x < anomalies@.len() ==> (#[trigger] anomalies@[x])@ == "trou_candidat"@,
        decreases trous@.len() - q,
    {
        assert(trous@.take(q + 1).drop_last() =~= trous@.take(q as int));
        if trous[q].jour == j {
            anomalies.push(String::from_str("trou_candidat"));
        }
        q += 1;
    }
    assert(trous@.take(trous@.len() as int) =~= trous@);
    JourAgrege {
        jour: j,
        lieu,
        camp,
        premiere_prise: premiere,
        derniere_prise: derniere,
        medias: Comptes { photo, video: total - photo, total },
        couverture,
        bbox,
        modes,
        anomalies,
    }
}

/// Construit l'index des journées : une entrée par jour couvert par les
/// médias, dans l'ordre des jours.
pub fn construire_jours(
    medias: &Vec<Media>,
    journees: &Vec<Journee>,
    troncons: &Vec<Troncon>,
    trous: &Vec<TrouCandidat>,
) -> (r: Vec<JourAgrege>)
    ensures
        ({
            let jours = r@.map_values(|a: JourAgrege| a.jour);
            &&& jours_croissants(jours)
            &&& jours.to_set() == jours_des_medias(medias@)
        }),
        forall|i: int| 0 <= i < r@.len() ==> jour_agrege(
            #[trigger] r@[i],
            medias@,
            journees@,
            vues_troncons(troncons@),
            trous@,
            r@[i].jour,
        ),
{
    let ghost s = medias@;
    let mut jours: Vec<i64> = Vec::new();
    let mut k: usize = 0;
    while k < medias.len()
        invariant
            k <= s.len(),
            s == medias@,
            jours_croissants(jours@),
            jours@.to_set() == jours_des_medias(s.take(k as int)),
        decreases s.len() - k,
    {
        let ghost t = s.take(k as int);
        let ghost t1 = s.take(k + 1);
        if let Some(j) = medias[k].jour {
            inserer_jour(&mut jours, j);
        }
        assert(jours@.to_set() =~= jours_des_medias(t1)) by {
            assert forall|j: i64| jours_des_medias(t1).contains(j) implies jours@.to_set().contains(j) by {
                let q = choose|q: int| 0 <= q < t1.len() && (#[trigger] t1[q]).jour == Some(j);
                if q < k {
                    assert(t[q] == t1[q]);
                    assert(jours_des_medias(t).contains(j));
                }
            }
            assert forall|j: i64| jours@.to_set().contains(j) implies jours_des_medias(t1).contains(j) by {
                if jours_des_medias(t).contains(j) {
                    let q = choose|q: int| 0 <= q < t.len() && (#[trigger] t[q]).jour == Some(j);
                    assert(t1[q] == t[q]);
                } else {
                    assert(t1[k as int] == s[k as int]);
                    assert(t1[k as int].jour == Some(j));
                }
            }
        }
        k += 1;
    }
    assert(s.take(s.len() as int) =~= s);
    let mut r: Vec<JourAgrege> = Vec::new();
    let mut d: usize = 0;
    while d < jours.len()
        invariant
            d <= jours@.len(),
            s == medias@,
            r@.len() == d,
            forall|i: int| 0 <= i < d ==> (#[trigger] r@[i]).jour == jours@[i],
            forall|i: int| 0 <= i < d ==> jour_agrege(#[trigger] r@[i], s, journees@, vues_troncons(troncons@), trous@, r@[i].jour),
        decreases jours@.len() - d,
    {
        r.push(agreger_jour(medias, journees, troncons, trous, jours[d]));
        d += 1;
    }
    assert(r@.map_values(|a: JourAgrege| a.jour) =~= jours@);
    r
}

// ---------------------------------------------------------------------------
// Tronçons par source
// ---------------------------------------------------------------------------

/// Rang d'une source dans le rapport : l'ordre alphabétique de son nom.
pub open spec fn rang_source(source: SourceTrace) -> int {
    match source {
        SourceTrace::Calculee => 0,
        SourceTrace::Heritee => 1,
        SourceTrace::Manuelle => 2,
        SourceTrace::Mesuree => 3,
    }
}

/// Nombre de tronçons de `s` venus de `source`.
pub open spec fn nb_de_source(s: Seq<Troncon>, source: SourceTrace) -> nat
    decreases s.len(),
{
    if s.len() == 0 {
        0
    } else if s.last().source == source {
        nb_de_source(s.drop_last(), source) + 1
    } else {
        nb_de_source(s.drop_last(), source)
    }
}

fn rang_source_exec(source: SourceTrace) -> (r: usize)
    ensures
        r == rang_source(source),
{
    match source {
        SourceTrace::Calculee => 0,
        SourceTrace::Heritee => 1,
        SourceTrace::Manuelle => 2,
        SourceTrace::Mesuree => 3,
    }
}

/// Décompte des tronçons par source, rangé par `rang_source`.
pub fn troncons_par_source(troncons: &Vec<Troncon>) -> (r: Vec<usize>)
    ensures
        r@.len() == 4,
        forall|source: SourceTrace| #[trigger] r@[rang_source(source)] == nb_de_source(troncons@, source),
{
    let mut r: Vec<usize> = vec![0, 0, 0, 0];
    let mut i: usize = 0;
    while i < troncons.len()
        invariant
            i <= troncons@.len(),
            r@.len() == 4,
            forall|source: SourceTrace| #[trigger] r@[rang_source(source)] == nb_de_source(troncons@.take(i as int), source),
            forall|k: int| 0 <= k < 4 ==> r@[k] <= i,
        decreases troncons@.len() - i,
    {
        let ghost t = troncons@.take(i as int);
        let ghost t1 = troncons@.take(i + 1);
        assert(t1.drop_last() =~= t);
        let k = rang_source_exec(troncons[i].source);
        let x = r[k];
        r.set(k, x + 1);
        assert forall|source: SourceTrace| #[trigger] r@[rang_source(source)] == nb_de_source(t1, source) by {
            assert(nb_de_source(t1, source) == nb_de_source(t, source) + (if troncons@[i as int].source == source { 1nat } else { 0nat }));
        }
        i = i + 1;
    }
    assert(troncons@.take(troncons@.len() as int) =~= troncons@);
    r
}

} // verus!
