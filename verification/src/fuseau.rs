//! Décalages horaires d'un fuseau nommé, lus dans la base de `chrono-tz`.
//!
//! Le fuseau du voyage est désigné par son nom IANA, `Europe/Paris`. Ce que
//! vaut son décalage à un instant donné dépend de la base des fuseaux que
//! porte `chrono-tz` : ce module ne l'énonce pas, il le nomme.

use vstd::prelude::*;

use chrono::{Offset, TimeZone};

verus! {

/// Décalage, en secondes, du fuseau nommé `fuseau` à l'instant `utc`
/// (secondes depuis l'époque), ou rien si ce nom n'est pas un fuseau connu.
pub uninterp spec fn decalage_universel(fuseau: Seq<char>, utc: int) -> Option<int>;

/// Décalage, en secondes, le plus ancien sous lequel l'heure locale `naif`
/// (secondes depuis l'époque, lues comme une heure du fuseau) existe, ou
/// rien si cette heure tombe dans un saut d'heure ou si le fuseau est
/// inconnu.
pub uninterp spec fn decalage_local_au_plus_tot(fuseau: Seq<char>, naif: int) -> Option<int>;

/// `TimeZone::offset_from_utc_datetime` de `chrono-tz` : le décalage du
/// fuseau à cet instant. Le nom est lu par `Tz::from_str` ; un nom inconnu, ou
/// un instant hors de la plage de `chrono`, ne donne rien. Un décalage de
/// `chrono` est toujours inférieur à un jour, en valeur absolue.
#[verifier::external_body]
pub(crate) fn decalage_a(fuseau: &str, utc: i64) -> (r: Option<i32>)
    ensures
        r matches Some(d) ==> decalage_universel(fuseau@, utc as int) == Some(d as int),
        r is None ==> decalage_universel(fuseau@, utc as int) is None,
        r matches Some(d) ==> -86400 < d < 86400,
{
    let tz: chrono_tz::Tz = fuseau.parse().ok()?;
    let instant = chrono::DateTime::from_timestamp(utc, 0)?;
    Some(tz.offset_from_utc_datetime(&instant.naive_utc()).fix().local_minus_utc())
}

/// `TimeZone::from_local_datetime` de `chrono-tz`, suivi de `earliest` : le
/// décalage de la plus ancienne lecture de cette heure locale dans le fuseau,
/// rien si l'heure n'existe pas (saut d'heure d'été), si le nom est inconnu ou
/// si l'heure sort de la plage de `chrono`.
#[verifier::external_body]
pub(crate) fn decalage_local(fuseau: &str, naif: i64) -> (r: Option<i32>)
    ensures
        r matches Some(d) ==> decalage_local_au_plus_tot(fuseau@, naif as int) == Some(d as int),
        r is None ==> decalage_local_au_plus_tot(fuseau@, naif as int) is None,
        r matches Some(d) ==> -86400 < d < 86400,
{
    let tz: chrono_tz::Tz = fuseau.parse().ok()?;
    let local = chrono::DateTime::from_timestamp(naif, 0)?.naive_utc();
    tz.from_local_datetime(&local).earliest().map(|d| d.offset().fix().local_minus_utc())
}

} // verus!
