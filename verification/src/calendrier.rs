//! Dates civiles, jours et instants.
//!
//! Une date de prise de vue est un instant : des secondes depuis l'époque
//! Unix, en temps universel, et le décalage horaire sous lequel elle a été
//! lue. Une journée est le numéro du jour civil, compté depuis le
//! 1er janvier 1970. Les deux se comparent en entiers, sans horloge.

use vstd::prelude::*;

verus! {

/// Secondes dans une journée.
pub const SECONDES_PAR_JOUR: i64 = 86400;

/// Année bissextile du calendrier grégorien.
pub open spec fn bissextile(a: int) -> bool {
    (a % 4 == 0 && a % 100 != 0) || a % 400 == 0
}

/// Nombre de jours du mois `m` de l'année `a`.
pub open spec fn jours_du_mois(a: int, m: int) -> int {
    if m == 2 {
        if bissextile(a) {
            29
        } else {
            28
        }
    } else if m == 4 || m == 6 || m == 9 || m == 11 {
        30
    } else {
        31
    }
}

/// Une date et une heure civiles, sans fuseau : ce qu'écrit un nom de fichier.
#[derive(Debug, Clone, Copy, PartialEq, Eq, Structural)]
pub struct DateHeure {
    pub annee: u32,
    pub mois: u32,
    pub jour: u32,
    pub heure: u32,
    pub minute: u32,
    pub seconde: u32,
}

/// Composantes qui désignent une date et une heure qui existent.
pub open spec fn composantes_valides(a: int, m: int, j: int, h: int, mi: int, s: int) -> bool {
    &&& 1 <= m <= 12
    &&& 1 <= j <= jours_du_mois(a, m)
    &&& 0 <= h < 24
    &&& 0 <= mi < 60
    &&& 0 <= s < 60
}

/// La date et l'heure formées de ces composantes, si elles existent.
pub open spec fn date_heure(a: int, m: int, j: int, h: int, mi: int, s: int) -> Option<DateHeure> {
    if composantes_valides(a, m, j, h, mi, s) && 0 <= a <= 9999 {
        Some(
            DateHeure {
                annee: a as u32,
                mois: m as u32,
                jour: j as u32,
                heure: h as u32,
                minute: mi as u32,
                seconde: s as u32,
            },
        )
    } else {
        None
    }
}

impl DateHeure {
    pub open spec fn valide(self) -> bool {
        composantes_valides(
            self.annee as int,
            self.mois as int,
            self.jour as int,
            self.heure as int,
            self.minute as int,
            self.seconde as int,
        ) && self.annee <= 9999
    }
}

/// Construit une date et une heure, ou rien si elles n'existent pas.
///
/// Une date impossible n'est pas une erreur : c'est un nom qui ne porte pas
/// de date.
pub fn date_heure_exec(a: u32, m: u32, j: u32, h: u32, mi: u32, s: u32) -> (r: Option<DateHeure>)
    ensures
        r == date_heure(a as int, m as int, j as int, h as int, mi as int, s as int),
{
    if a > 9999 || m < 1 || m > 12 || j < 1 || h >= 24 || mi >= 60 || s >= 60 {
        return None;
    }
    let bis = (a % 4 == 0 && a % 100 != 0) || a % 400 == 0;
    let max = if m == 2 {
        if bis {
            29
        } else {
            28
        }
    } else if m == 4 || m == 6 || m == 9 || m == 11 {
        30
    } else {
        31
    };
    if j > max {
        return None;
    }
    Some(DateHeure { annee: a, mois: m, jour: j, heure: h, minute: mi, seconde: s })
}

/// Numéro du jour civil `a-m-j`, compté depuis le 1er janvier 1970.
///
/// C'est la formule de l'ère de 400 ans : elle compte les jours écoulés
/// depuis le 1er mars de l'an 0, puis les ramène à l'époque Unix.
pub open spec fn jours_civils(a: int, m: int, j: int) -> int {
    let y = if m <= 2 {
        a - 1
    } else {
        a
    };
    let ere = y / 400;
    let annee_de_l_ere = y - ere * 400;
    let mp = if m > 2 {
        m - 3
    } else {
        m + 9
    };
    let jour_de_l_annee = (153 * mp + 2) / 5 + j - 1;
    let jour_de_l_ere = annee_de_l_ere * 365 + annee_de_l_ere / 4 - annee_de_l_ere / 100
        + jour_de_l_annee;
    ere * 146097 + jour_de_l_ere - 719468
}

/// Secondes écoulées depuis l'époque, la date étant lue en temps universel.
pub open spec fn secondes_naives(d: DateHeure) -> int {
    jours_civils(d.annee as int, d.mois as int, d.jour as int) * 86400 + d.heure as int * 3600
        + d.minute as int * 60 + d.seconde as int
}

/// Numéro du jour civil d'une date qui existe.
pub fn jours_civils_exec(a: u32, m: u32, j: u32) -> (r: i64)
    requires
        a <= 9999,
        1 <= m <= 12,
        1 <= j <= 31,
    ensures
        r == jours_civils(a as int, m as int, j as int),
        -800_000 < r < 3_000_000,
{
    let a = a as i64;
    let m = m as i64;
    let j = j as i64;
    let y: i64 = if m <= 2 {
        a - 1
    } else {
        a
    };
    // L'an -1 n'apparaît que pour janvier et février de l'an 0.
    let ere: i64 = if y >= 0 {
        y / 400
    } else {
        -1
    };
    assert(ere == y / 400);
    let annee_de_l_ere: i64 = y - ere * 400;
    let mp: i64 = if m > 2 {
        m - 3
    } else {
        m + 9
    };
    let jour_de_l_annee: i64 = (153 * mp + 2) / 5 + j - 1;
    let jour_de_l_ere: i64 = annee_de_l_ere * 365 + annee_de_l_ere / 4 - annee_de_l_ere / 100
        + jour_de_l_annee;
    ere * 146097 + jour_de_l_ere - 719468
}

pub fn secondes_naives_exec(d: &DateHeure) -> (r: i64)
    requires
        d.valide(),
    ensures
        r == secondes_naives(*d),
        -80_000_000_000 < r < 300_000_000_000,
{
    let jours = jours_civils_exec(d.annee, d.mois, d.jour);
    jours * 86400 + d.heure as i64 * 3600 + d.minute as i64 * 60 + d.seconde as i64
}

/// Jour civil d'un nombre de secondes depuis l'époque : la division
/// arrondie vers le bas.
pub open spec fn jour_de(secondes: int) -> int {
    secondes / 86400
}

/// Seconde de la journée, de 0 à 86 399.
pub open spec fn seconde_du_jour(secondes: int) -> int {
    secondes % 86400
}

pub fn jour_de_exec(secondes: i64) -> (r: i64)
    ensures
        r == jour_de(secondes as int),
{
    if secondes >= 0 {
        secondes / 86400
    } else {
        let q = (-(secondes + 1)) / 86400;
        assert(secondes / 86400 == -q - 1) by (nonlinear_arith)
            requires
                secondes < 0,
                q == (-(secondes + 1)) / 86400,
        ;
        -q - 1
    }
}

pub fn seconde_du_jour_exec(secondes: i64) -> (r: i64)
    ensures
        r == seconde_du_jour(secondes as int),
        0 <= r < 86400,
{
    if secondes >= 0 {
        secondes % 86400
    } else {
        let q = (-(secondes + 1)) % 86400;
        assert(secondes % 86400 == 86399 - q) by (nonlinear_arith)
            requires
                secondes < 0,
                q == (-(secondes + 1)) % 86400,
        ;
        86399 - q
    }
}

} // verus!
