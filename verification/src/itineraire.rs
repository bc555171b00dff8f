//! Itinéraires calculés : ce que l'on décide autour de chaque appel au
//! moteur.
//!
//! L'appel lui-même, le cache sur disque et les pauses se font au bord. Ici,
//! une demande passe par deux décisions : avant l'appel (le mode, le cache,
//! la clé, le quota), et après (le trajet, le refus, la panne), avec les
//! comptes qui disent au rapport ce qui s'est passé.

use vstd::prelude::*;
use vstd::string::StringExecFns;

use crate::emit::{arrondi_pair, arrondi_pair_large, deux_puissance, en_double, en_double_exec};
use crate::scan::Position;
use crate::texte::{chiffre, chiffre_exec, decimal, decimal_car, en_caracteres, en_chaine};
use crate::track::{calculable_spec, Mode, Point};

verus! {

// ---------------------------------------------------------------------------
// Clé du cache
// ---------------------------------------------------------------------------

/// Cinq chiffres, zéros en tête compris.
pub open spec fn cinq_chiffres(n: nat) -> Seq<char> {
    seq![
        chiffre((n / 10000 % 10) as int),
        chiffre((n / 1000 % 10) as int),
        chiffre((n / 100 % 10) as int),
        chiffre((n / 10 % 10) as int),
        chiffre((n % 10) as int),
    ]
}

/// Le nombre de doublements qui portent `p` à `c` au moins.
pub open spec fn doublements(p: nat, c: nat) -> nat
    decreases (if p < c { c - p } else { 0 }),
{
    if p == 0 || p >= c {
        0
    } else {
        1 + doublements(2 * p, c)
    }
}

/// `10^7 · 2^52` : un quotient par `10^7` dont le numérateur, doublé `s`
/// fois, atteint ce seuil sans le dépasser du double a sa mantisse de
/// cinquante-trois chiffres binaires sous l'échelle `2^s`.
pub open spec fn seuil_mantisse() -> nat {
    45035996273704960000000
}

/// Les cent-millièmes de degré qu'écrit `{:.5}` pour `a as f64 / 1e7` :
/// l'entier converti en double précision (`en_double`), le quotient arrondi
/// à cinquante-trois chiffres binaires, `m / 2^s`, une moitié au pair ; puis
/// ce double, pris exactement, arrondi au cent-millième, une moitié exacte
/// au pair.
pub open spec fn cent_milliemes(a: nat) -> nat {
    if a == 0 {
        0
    } else {
        let x = en_double(a);
        let u = deux_puissance(doublements(x, seuil_mantisse()));
        arrondi_pair(100000 * arrondi_pair(x * u, 10_000_000), u)
    }
}

/// Une coordonnée en dix-millionièmes de degré, écrite en degrés à la
/// cinquième décimale, soit environ un mètre, comme `{:.5}` écrit le double
/// `e7 as f64 / 1e7` : le signe de toute valeur négative, puis les degrés
/// et cinq décimales.
pub open spec fn cinq_decimales(e7: int) -> Seq<char> {
    let a: int = if e7 < 0 { -e7 } else { e7 };
    let k = cent_milliemes(a as nat);
    (if e7 < 0 { seq!['-'] } else { Seq::<char>::empty() }) + decimal(k / 100000) + seq!['.'] + cinq_chiffres(
        k % 100000,
    )
}

fn cent_milliemes_exec(a: u64) -> (k: u128)
    ensures
        k == cent_milliemes(a as nat),
{
    if a == 0 {
        return 0;
    }
    let x = en_double_exec(a);
    let c: u128 = 45035996273704960000000;
    let mut p: u128 = x;
    let mut u: u128 = 1;
    let ghost mut s: nat = 0;
    assert(deux_puissance(0) == 1);
    while p < c
        invariant
            x > 0,
            x <= 0x2_0000_0000_0000_0000,
            c == seuil_mantisse(),
            0 < p < 2 * c,
            u <= p,
            p == x * u,
            u == deux_puissance(s),
            doublements(x as nat, c as nat) == s + doublements(p as nat, c as nat),
        decreases doublements(p as nat, c as nat),
    {
        assert(x * (2 * u) == 2 * (x * u)) by (nonlinear_arith);
        p = 2 * p;
        u = 2 * u;
        proof {
            s = s + 1;
        }
    }
    assert(x * u == p);
    let m = arrondi_pair_large(p, 10_000_000);
    assert(m <= 10_000_000_000_000_000) by (nonlinear_arith)
        requires
            m * 10_000_000 <= p + 10_000_000,
            p < 2 * 45035996273704960000000,
    ;
    arrondi_pair_large(100000 * m, u)
}

/// Un point de la clé : longitude, puis latitude.
pub open spec fn paire(lon: int, lat: int) -> Seq<char> {
    cinq_decimales(lon) + seq![','] + cinq_decimales(lat)
}

/// Les points de passage, chacun précédé d'une barre.
pub open spec fn suite_passages(p: Seq<Point>) -> Seq<char>
    decreases p.len(),
{
    if p.len() == 0 {
        Seq::empty()
    } else {
        suite_passages(p.drop_last()) + seq!['|'] + paire(p.last()[0] as int, p.last()[1] as int)
    }
}

/// Nom du mode dans la clé, celui du rapport.
pub open spec fn nom_du_mode(mode: Mode) -> Seq<char> {
    match mode {
        Mode::Route => "route"@,
        Mode::Marche => "marche"@,
        Mode::Velo => "vélo"@,
        Mode::Bateau => "bateau"@,
        Mode::Train => "train"@,
        Mode::Telepherique => "téléphérique"@,
    }
}

/// La clé du cache d'itinéraires : mode, extrémités et points de passage.
pub open spec fn cle_spec(mode: Mode, depart: Position, arrivee: Position, passages: Seq<Point>) -> Seq<char> {
    nom_du_mode(mode) + seq!['|'] + paire(depart.lon as int, depart.lat as int) + seq!['|'] + paire(
        arrivee.lon as int,
        arrivee.lat as int,
    ) + suite_passages(passages)
}

fn ajouter_cinq_decimales(v: &mut Vec<char>, e7: i64)
    ensures
        final(v)@ == old(v)@ + cinq_decimales(e7 as int),
{
    let a: u64 = if e7 < 0 { (-(e7 as i128)) as u64 } else { e7 as u64 };
    let q = cent_milliemes_exec(a);
    let ghost avant = v@;
    if e7 < 0 {
        v.push('-');
    }
    let ent = decimal_car(q / 100000);
    let mut i: usize = 0;
    while i < ent.len()
        invariant
            i <= ent@.len(),
            v@ == avant + (if e7 < 0 { seq!['-'] } else { Seq::<char>::empty() }) + ent@.take(i as int),
        decreases ent@.len() - i,
    {
        v.push(ent[i]);
        i += 1;
        assert(ent@.take(i as int) =~= ent@.take(i - 1).push(ent@[i - 1]));
    }
    assert(ent@.take(ent@.len() as int) =~= ent@);
    let f: u128 = q % 100000;
    v.push('.');
    v.push(chiffre_exec(f / 10000 % 10));
    v.push(chiffre_exec(f / 1000 % 10));
    v.push(chiffre_exec(f / 100 % 10));
    v.push(chiffre_exec(f / 10 % 10));
    v.push(chiffre_exec(f % 10));
    assert(v@ =~= avant + cinq_decimales(e7 as int));
}

fn ajouter_paire(v: &mut Vec<char>, lon: i64, lat: i64)
    ensures
        final(v)@ == old(v)@ + paire(lon as int, lat as int),
{
    ajouter_cinq_decimales(v, lon);
    v.push(',');
    ajouter_cinq_decimales(v, lat);
    assert(v@ =~= old(v)@ + paire(lon as int, lat as int));
}

/// La clé sous laquelle un itinéraire est gardé en cache. Deux photos prises
/// au même endroit, au mètre près, partagent la clé ; forcer un point de
/// passage en donne une autre.
pub fn cle_cache(mode: Mode, depart: &Position, arrivee: &Position, passages: &Vec<Point>) -> (r: String)
    ensures
        r@ == cle_spec(mode, *depart, *arrivee, passages@),
{
    let mut v = en_caracteres(mode.nom());
    v.push('|');
    ajouter_paire(&mut v, depart.lon, depart.lat);
    v.push('|');
    ajouter_paire(&mut v, arrivee.lon, arrivee.lat);
    let ghost tete = v@;
    let mut i: usize = 0;
    while i < passages.len()
        invariant
            i <= passages@.len(),
            v@ == tete + suite_passages(passages@.take(i as int)),
        decreases passages@.len() - i,
    {
        let ghost t = passages@.take(i as int);
        assert(passages@.take(i + 1).drop_last() =~= t);
        v.push('|');
        let p = passages[i];
        ajouter_paire(&mut v, p[0], p[1]);
        i += 1;
        assert(v@ =~= tete + suite_passages(passages@.take(i as int)));
    }
    assert(passages@.take(passages@.len() as int) =~= passages@);
    en_chaine(&v)
}

/// Adresse du moteur d'itinéraire, pour un profil de routage.
pub open spec fn url_ors_spec(profil: Seq<char>) -> Seq<char> {
    "https://api.heigit.org/openrouteservice/v2/directions/"@ + profil + "/geojson"@
}

pub fn url_ors(profil: &str) -> (r: String)
    ensures
        r@ == url_ors_spec(profil@),
{
    let mut r = String::from_str("https://api.heigit.org/openrouteservice/v2/directions/");
    r.append(profil);
    r.append("/geojson");
    r
}

/// Nombre maximal de refus détaillés en clair dans le rapport.
pub const DETAILS_MAXIMUM: usize = 8;

/// Les comptes des appels au moteur.
#[derive(Debug, Clone)]
pub struct EtatItineraires {
    /// Appels réussis.
    pub appels: usize,
    /// Demandes restées sans itinéraire, faute de clé.
    pub manques: usize,
    /// Appels refusés, ou demandes abandonnées après un quota épuisé.
    pub refus: usize,
    /// Vrai dès que le moteur refuse la clé, ou refuse deux fois de suite
    /// pour cause de quota : les appels suivants ne partent plus.
    pub quota_epuise: bool,
    /// Codes de refus rencontrés, rangés, et combien de fois chacun.
    pub refus_par_code: Vec<(u16, usize)>,
    /// Nombre de refus détaillés en clair.
    pub details: usize,
}

/// Combien de fois ce code a été rencontré.
pub open spec fn compte_code(v: Seq<(u16, usize)>, code: u16) -> nat
    decreases v.len(),
{
    if v.len() == 0 {
        0
    } else if v.last().0 == code {
        v.last().1 as nat
    } else {
        compte_code(v.drop_last(), code)
    }
}

pub open spec fn codes_ranges(v: Seq<(u16, usize)>) -> bool {
    forall|i: int, j: int| 0 <= i < j < v.len() ==> (#[trigger] v[i]).0 < (#[trigger] v[j]).0
}

/// Les compteurs tiennent dans leur type : on ne fait pas plus d'appels
/// que la mémoire n'en compte.
pub open spec fn etat_borne(e: EtatItineraires) -> bool {
    &&& e.appels < usize::MAX
    &&& e.manques < usize::MAX
    &&& e.refus < usize::MAX
    &&& e.details < usize::MAX
    &&& codes_ranges(e.refus_par_code@)
    &&& forall|i: int| 0 <= i < e.refus_par_code@.len() ==> (#[trigger] e.refus_par_code@[i]).1 < usize::MAX
}

/// Ce qu'il faut faire d'une demande, avant tout appel.
#[derive(Debug, Clone, Copy, PartialEq, Eq, Structural)]
pub enum Decision {
    /// Un mode sans réseau ne part jamais au moteur.
    NonCalculable,
    /// Le cache répond : aucun appel.
    DepuisLeCache,
    /// Pas de clé, ou quota épuisé : le tronçon restera droit.
    Indisponible,
    /// Appeler le moteur, après une pause si un appel a déjà eu lieu.
    Appeler { pause: bool },
}

/// L'issue d'un appel au moteur.
#[derive(Debug, Clone, Copy, PartialEq, Eq, Structural)]
pub enum Issue {
    /// Un trajet lisible.
    Trajet,
    /// Un refus, et son code.
    Refus(u16),
    /// Une panne du réseau, ou une réponse inexploitable.
    Echec,
}

/// Ce qui suit un appel.
#[derive(Debug, Clone, Copy, PartialEq, Eq, Structural)]
pub enum Suite {
    /// Le trajet est calculé ; il entre au cache.
    Calcule,
    /// Un refus de débit : attendre, puis réessayer une fois.
    Reessayer,
    /// Le tronçon restera droit ; `detail` dit s'il faut écrire le refus en
    /// clair.
    Indisponible { detail: bool },
    /// Une panne à remonter.
    Erreur,
}

pub open spec fn meme_etat_sauf(a: EtatItineraires, b: EtatItineraires) -> bool {
    &&& b.appels == a.appels
    &&& b.manques == a.manques
    &&& b.refus == a.refus
    &&& b.quota_epuise == a.quota_epuise
    &&& b.refus_par_code@ == a.refus_par_code@
    &&& b.details == a.details
}

impl EtatItineraires {
    pub fn nouveau() -> (r: EtatItineraires)
        ensures
            r.appels == 0 && r.manques == 0 && r.refus == 0 && !r.quota_epuise && r.refus_par_code@.len() == 0
                && r.details == 0,
            codes_ranges(r.refus_par_code@),
    {
        EtatItineraires { appels: 0, manques: 0, refus: 0, quota_epuise: false, refus_par_code: Vec::new(), details: 0 }
    }

    /// Avant l'appel : la garde des modes, le cache d'abord, puis la clé,
    /// puis le quota.
    pub fn decider(&mut self, mode: Mode, en_cache: bool, cle_presente: bool) -> (d: Decision)
        requires
            etat_borne(*old(self)),
        ensures
            codes_ranges(final(self).refus_par_code@),
            !calculable_spec(mode) ==> d == Decision::NonCalculable && meme_etat_sauf(*old(self), *final(self)),
            calculable_spec(mode) && en_cache ==> d == Decision::DepuisLeCache && meme_etat_sauf(*old(self), *final(self)),
            calculable_spec(mode) && !en_cache && !cle_presente ==> d == Decision::Indisponible && final(self).manques
                == old(self).manques + 1 && meme_etat_sauf(
                EtatItineraires { manques: final(self).manques, ..*old(self) },
                *final(self),
            ),
            calculable_spec(mode) && !en_cache && cle_presente && old(self).quota_epuise ==> d == Decision::Indisponible
                && final(self).refus == old(self).refus + 1 && meme_etat_sauf(
                EtatItineraires { refus: final(self).refus, ..*old(self) },
                *final(self),
            ),
            calculable_spec(mode) && !en_cache && cle_presente && !old(self).quota_epuise ==> d == (Decision::Appeler {
                pause: old(self).appels > 0,
            }) && meme_etat_sauf(*old(self), *final(self)),
    {
        if !mode.calculable() {
            return Decision::NonCalculable;
        }
        if en_cache {
            return Decision::DepuisLeCache;
        }
        if !cle_presente {
            self.manques = self.manques + 1;
            return Decision::Indisponible;
        }
        if self.quota_epuise {
            self.refus = self.refus + 1;
            return Decision::Indisponible;
        }
        Decision::Appeler { pause: self.appels > 0 }
    }
}


fn compter_code(v: &mut Vec<(u16, usize)>, code: u16)
    requires
        codes_ranges(old(v)@),
        compte_code(old(v)@, code) < usize::MAX,
    ensures
        codes_ranges(final(v)@),
        forall|c: u16| #[trigger] compte_code(final(v)@, c) == compte_code(old(v)@, c) + (if c == code { 1nat } else { 0nat }),
{
    let ghost avant = v@;
    let mut p: usize = 0;
    while p < v.len() && v[p].0 < code
        invariant
            p <= v@.len(),
            v@ == avant,
            forall|q: int| 0 <= q < p ==> (#[trigger] v@[q]).0 < code,
        decreases v@.len() - p,
    {
        p += 1;
    }
    if p < v.len() && v[p].0 == code {
        let n = v[p].1;
        proof {
            lemme_compte_en(avant, p as int);
        }
        v.set(p, (code, n + 1));
        proof {
            assert forall|c: u16| #[trigger] compte_code(v@, c) == compte_code(avant, c) + (if c == code { 1nat } else { 0nat }) by {
                lemme_compte_update(avant, p as int, (code, (n + 1) as usize), c);
            }
            assert forall|i: int, j: int| 0 <= i < j < v@.len() implies (#[trigger] v@[i]).0 < (#[trigger] v@[j]).0 by {
                assert(avant[i].0 < avant[j].0);
            }
        }
    } else {
        v.insert(p, (code, 1));
        proof {
            assert forall|i: int, j: int| 0 <= i < j < v@.len() implies (#[trigger] v@[i]).0 < (#[trigger] v@[j]).0 by {
                if j < p {
                    assert(avant[i].0 < avant[j].0);
                } else if j == p {
                } else if i < p {
                    assert(avant[i].0 < avant[j - 1].0);
                } else if i == p {
                    assert(avant[p as int].0 <= avant[j - 1].0);
                } else {
                    assert(avant[i - 1].0 < avant[j - 1].0);
                }
            }
            assert forall|c: u16| #[trigger] compte_code(v@, c) == compte_code(avant, c) + (if c == code { 1nat } else { 0nat }) by {
                lemme_compte_insert(avant, p as int, code, c);
            }
        }
    }
}

proof fn lemme_compte_en(v: Seq<(u16, usize)>, p: int)
    requires
        codes_ranges(v),
        0 <= p < v.len(),
    ensures
        compte_code(v, v[p].0) == v[p].1,
    decreases v.len(),
{
    if p < v.len() - 1 {
        assert(v.last().0 != v[p].0) by {
            assert(v[p].0 < v[v.len() - 1].0);
        }
        assert(v.drop_last()[p] == v[p]);
        lemme_compte_en(v.drop_last(), p);
    }
}

proof fn lemme_compte_update(v: Seq<(u16, usize)>, p: int, x: (u16, usize), c: u16)
    requires
        codes_ranges(v),
        0 <= p < v.len(),
        x.0 == v[p].0,
    ensures
        compte_code(v.update(p, x), c) == (if c == x.0 { x.1 as nat } else { compte_code(v, c) }),
    decreases v.len(),
{
    let w = v.update(p, x);
    if p == v.len() - 1 {
        assert(w.drop_last() =~= v.drop_last());
        if c == x.0 {
        } else {
        }
    } else {
        assert(w.drop_last() =~= v.drop_last().update(p, x));
        assert(w.last() == v.last());
        assert(v.last().0 != v[p].0) by {
            assert(v[p].0 < v[v.len() - 1].0);
        }
        lemme_compte_update(v.drop_last(), p, x, c);
        if c == x.0 {
            assert(v.drop_last()[p] == v[p]);
        }
    }
}

proof fn lemme_compte_absent(v: Seq<(u16, usize)>, c: u16)
    requires
        forall|i: int| 0 <= i < v.len() ==> (#[trigger] v[i]).0 != c,
    ensures
        compte_code(v, c) == 0,
    decreases v.len(),
{
    if v.len() > 0 {
        lemme_compte_absent(v.drop_last(), c);
    }
}

proof fn lemme_compte_insert(v: Seq<(u16, usize)>, p: int, code: u16, c: u16)
    requires
        codes_ranges(v),
        0 <= p <= v.len(),
        forall|q: int| 0 <= q < p ==> (#[trigger] v[q]).0 < code,
        p < v.len() ==> v[p].0 > code,
    ensures
        compte_code(v.insert(p, (code, 1usize)), c) == compte_code(v, c) + (if c == code { 1nat } else { 0nat }),
    decreases v.len(),
{
    let w = v.insert(p, (code, 1usize));
    if p == v.len() {
        assert(w.drop_last() =~= v);
        if c == code {
            assert forall|i: int| 0 <= i < v.len() implies (#[trigger] v[i]).0 != c by {
                assert(v[i].0 < code);
            }
            lemme_compte_absent(v, c);
        }
    } else {
        assert(w.drop_last() =~= v.drop_last().insert(p, (code, 1usize)));
        assert(w.last() == v.last());
        assert forall|q: int| 0 <= q < p implies (#[trigger] v.drop_last()[q]).0 < code by {
            assert(v.drop_last()[q] == v[q]);
        }
        if p < v.len() - 1 {
            assert(v.drop_last()[p] == v[p]);
        }
        assert(v.last().0 > code) by {
            if p < v.len() - 1 {
                assert(v[p].0 < v[v.len() - 1].0);
            }
        }
        lemme_compte_insert(v.drop_last(), p, code, c);
    }
}

impl EtatItineraires {
    /// Après le premier appel. Un refus de débit se rattrape une fois ; une
    /// clé refusée (401, 403) arrête les appels ; un autre refus ne concerne
    /// que cette demande, dont les premiers sont écrits en clair.
    pub fn apres_appel(&mut self, issue: Issue) -> (s: Suite)
        requires
            etat_borne(*old(self)),
        ensures
            codes_ranges(final(self).refus_par_code@),
            match issue {
                Issue::Trajet => s == Suite::Calcule && final(self).appels == old(self).appels + 1 && meme_etat_sauf(
                    EtatItineraires { appels: final(self).appels, ..*old(self) },
                    *final(self),
                ),
                Issue::Echec => s == Suite::Erreur && meme_etat_sauf(*old(self), *final(self)),
                Issue::Refus(code) => {
                    &&& forall|c: u16| #[trigger] compte_code(final(self).refus_par_code@, c) == compte_code(
                        old(self).refus_par_code@,
                        c,
                    ) + (if c == code { 1nat } else { 0nat })
                    &&& final(self).appels == old(self).appels
                    &&& final(self).manques == old(self).manques
                    &&& if code == 429 {
                        &&& s == Suite::Reessayer
                        &&& final(self).refus == old(self).refus
                        &&& final(self).quota_epuise == old(self).quota_epuise
                        &&& final(self).details == old(self).details
                    } else if code == 401 || code == 403 {
                        &&& s == (Suite::Indisponible { detail: false })
                        &&& final(self).refus == old(self).refus + 1
                        &&& final(self).quota_epuise
                        &&& final(self).details == old(self).details
                    } else {
                        &&& s == (Suite::Indisponible { detail: old(self).details < DETAILS_MAXIMUM })
                        &&& final(self).refus == old(self).refus + 1
                        &&& final(self).quota_epuise == old(self).quota_epuise
                        &&& final(self).details == old(self).details + (if old(self).details < DETAILS_MAXIMUM { 1int } else { 0int })
                    }
                },
            },
    {
        match issue {
            Issue::Trajet => {
                self.appels = self.appels + 1;
                Suite::Calcule
            },
            Issue::Echec => Suite::Erreur,
            Issue::Refus(code) => {
                proof {
                    lemme_compte_borne(self.refus_par_code@, code);
                }
                compter_code(&mut self.refus_par_code, code);
                if code == 429 {
                    Suite::Reessayer
                } else if code == 401 || code == 403 {
                    self.quota_epuise = true;
                    self.refus = self.refus + 1;
                    Suite::Indisponible { detail: false }
                } else {
                    self.refus = self.refus + 1;
                    let detail = self.details < DETAILS_MAXIMUM;
                    if detail {
                        self.details = self.details + 1;
                    }
                    Suite::Indisponible { detail }
                }
            },
        }
    }

    /// Après le second appel, qui suit un refus de débit : un trajet est
    /// retenu ; tout autre issue dit le quota épuisé pour ce build.
    pub fn apres_reessai(&mut self, issue: Issue) -> (s: Suite)
        requires
            old(self).appels < usize::MAX,
            old(self).refus < usize::MAX,
        ensures
            issue == Issue::Trajet ==> s == Suite::Calcule && final(self).appels == old(self).appels + 1 && meme_etat_sauf(
                EtatItineraires { appels: final(self).appels, ..*old(self) },
                *final(self),
            ),
            issue != Issue::Trajet ==> s == (Suite::Indisponible { detail: false }) && final(self).quota_epuise
                && final(self).refus == old(self).refus + 1 && meme_etat_sauf(
                EtatItineraires { quota_epuise: true, refus: final(self).refus, ..*old(self) },
                *final(self),
            ),
    {
        match issue {
            Issue::Trajet => {
                self.appels = self.appels + 1;
                Suite::Calcule
            },
            _ => {
                self.quota_epuise = true;
                self.refus = self.refus + 1;
                Suite::Indisponible { detail: false }
            },
        }
    }
}

proof fn lemme_compte_borne(v: Seq<(u16, usize)>, code: u16)
    requires
        forall|i: int| 0 <= i < v.len() ==> (#[trigger] v[i]).1 < usize::MAX,
    ensures
        compte_code(v, code) < usize::MAX,
    decreases v.len(),
{
    if v.len() > 0 {
        lemme_compte_borne(v.drop_last(), code);
    }
}

} // verus!
