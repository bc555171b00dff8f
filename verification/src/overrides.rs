//! Les surcharges d'un voyage : ce que l'humain corrige à la main.
//!
//! Règle de priorité : une surcharge écrase l'EXIF, toujours. En
//! contrepartie, le journal dit ce qui a été appliqué, et signale toute
//! surcharge qui ne vise rien : une correction qui ne s'applique pas est une
//! correction perdue.
//!
//! La lecture du fichier YAML se fait au bord ; ici arrivent des valeurs.
//! Les coordonnées sont en dix-millionièmes de degré, en ordre GeoJSON
//! `[longitude, latitude]` ; les jours sont des jours civils comptés depuis
//! le 1er janvier 1970 ; les heures, des secondes depuis minuit.

use vstd::prelude::*;
use vstd::string::StringExecFns;

use crate::motif::{correspond, minuscules, motif_correspond};
use crate::noms::{dernier, dernier_exec, vues};
use crate::ordre::lex_inf;
use crate::scan::{instant_lisible, jour_local, jour_local_exec, Anomalie, Fiabilite, Instant, Media, OriginePosition, Position};
use crate::texte::{blanc, est_blanc};
use crate::track::Mode;

verus! {

/// Ce qu'une surcharge mal formée fait refuser, avant d'avoir touché un média.
#[derive(Debug, Clone, Copy, PartialEq, Eq, Structural)]
pub enum ErreurOverrides {
    /// Un lot porte un motif vide, ce qui viserait tous les médias.
    MotifVide,
    /// Un segment ne porte qu'un point ; il en faut au moins deux.
    SegmentTropCourt { jour: i64, nombre: usize },
    /// Une coordonnée hors limites, dans un segment ou un forçage
    /// d'itinéraire de ce jour.
    CoordonneeInvalide { jour: i64, lon: i64, lat: i64 },
}

/// Correction visant un média précis.
#[derive(Debug, Clone)]
pub struct SurchargeMedia {
    pub position: Option<Position>,
    pub prise_le: Option<Instant>,
    pub jour: Option<i64>,
    pub note: Option<String>,
}

/// Correction visant un ensemble de fichiers désignés par un motif.
#[derive(Debug, Clone)]
pub struct Lot {
    /// Motif appliqué au nom de fichier, extension comprise : `*` et `?`.
    pub motif: String,
    pub jour: Option<i64>,
    pub position: Option<Position>,
    pub prise_le: Option<Instant>,
    /// Répartir les médias le long du segment manuel de la journée, plutôt
    /// que de les empiler sur un point unique.
    pub repartir_sur_segment: bool,
    pub note: Option<String>,
}

/// Tronçon de trace saisi à la main, là où aucune photo ne documente le trajet.
#[derive(Debug, Clone)]
pub struct Segment {
    pub jour: i64,
    pub mode: Mode,
    /// Identifiant du média après lequel insérer le tronçon.
    pub apres: Option<String>,
    /// Points en ordre GeoJSON : `[longitude, latitude]`.
    pub points: Vec<[i64; 2]>,
    /// Faire calculer le tracé entre les points par le moteur d'itinéraire.
    pub calculer: bool,
    pub note: Option<String>,
}

/// Mode imposé à une journée, ou à une tranche horaire de journée.
#[derive(Debug, Clone)]
pub struct ForcageMode {
    pub jour: i64,
    pub mode: Mode,
    /// Début de la tranche, en secondes depuis minuit, heure locale. À
    /// défaut, le début de journée.
    pub de: Option<u32>,
    /// Fin de la tranche. À défaut, la fin de journée.
    pub a: Option<u32>,
    pub note: Option<String>,
}

/// Points de passage imposés à un itinéraire calculé.
#[derive(Debug, Clone)]
pub struct ForcageItineraire {
    pub jour: i64,
    pub mode: Mode,
    pub points_de_passage: Vec<[i64; 2]>,
    pub note: Option<String>,
}

/// Les surcharges d'un voyage. Les corrections individuelles sont rangées
/// par identifiant, chacun une seule fois.
#[derive(Debug, Clone)]
pub struct Overrides {
    pub medias: Vec<(String, SurchargeMedia)>,
    pub exclusions: Vec<String>,
    pub lots: Vec<Lot>,
    pub segments: Vec<Segment>,
    pub itineraires: Vec<ForcageItineraire>,
    pub modes: Vec<ForcageMode>,
}

impl Default for Overrides {
    fn default() -> (r: Overrides)
        ensures
            r.medias@.len() == 0,
            r.exclusions@.len() == 0,
            r.lots@.len() == 0,
            r.segments@.len() == 0,
            r.itineraires@.len() == 0,
            r.modes@.len() == 0,
    {
        Overrides {
            medias: Vec::new(),
            exclusions: Vec::new(),
            lots: Vec::new(),
            segments: Vec::new(),
            itineraires: Vec::new(),
            modes: Vec::new(),
        }
    }
}

/// Les clés d'une suite de corrections.
pub open spec fn cles(m: Seq<(String, SurchargeMedia)>) -> Seq<Seq<char>> {
    m.map_values(|p: (String, SurchargeMedia)| p.0@)
}

impl Overrides {
    /// Les corrections individuelles sont rangées par identifiant strictement
    /// croissant, comme dans une table ordonnée ; les instants qu'elles
    /// portent sont lisibles.
    pub open spec fn bien_forme(&self) -> bool {
        &&& forall|i: int, j: int| 0 <= i < j < self.medias@.len() ==> lex_inf(
            (#[trigger] self.medias@[i]).0@,
            (#[trigger] self.medias@[j]).0@,
        )
        &&& forall|i: int| 0 <= i < self.medias@.len() ==> ((#[trigger] self.medias@[i]).1.prise_le matches Some(p) ==> instant_lisible(p.utc as int))
        &&& forall|i: int| 0 <= i < self.lots@.len() ==> ((#[trigger] self.lots@[i]).prise_le matches Some(p) ==> instant_lisible(p.utc as int))
    }
}

// ---------------------------------------------------------------------------
// Modes imposés
// ---------------------------------------------------------------------------

/// La règle couvre ce jour et cet instant, bornes comprises.
pub open spec fn couvre(f: ForcageMode, jour: i64, instant: u32) -> bool {
    &&& f.jour == jour
    &&& (f.de matches Some(debut) ==> instant >= debut)
    &&& (f.a matches Some(fin) ==> instant <= fin)
}

impl ForcageMode {
    fn couvre(&self, jour: i64, instant: u32) -> (r: bool)
        ensures
            r == couvre(*self, jour, instant),
    {
        self.jour == jour && match self.de {
            Some(debut) => instant >= debut,
            None => true,
        } && match self.a {
            Some(fin) => instant <= fin,
            None => true,
        }
    }
}

impl Overrides {
    /// Mode imposé pour un instant donné, s'il y en a un. La première règle
    /// qui couvre l'instant gagne : une tranche horaire déclarée avant la
    /// règle de journée l'emporte donc sur elle.
    pub fn mode_force(&self, jour: i64, instant: u32) -> (r: Option<Mode>)
        ensures
            r matches Some(m) ==> exists|i: int|
                0 <= i < self.modes@.len() && couvre(#[trigger] self.modes@[i], jour, instant)
                    && self.modes@[i].mode == m && forall|j: int| 0 <= j < i ==> !couvre(
                    #[trigger] self.modes@[j],
                    jour,
                    instant,
                ),
            r is None ==> forall|i: int| 0 <= i < self.modes@.len() ==> !couvre(#[trigger] self.modes@[i], jour, instant),
    {
        let mut i: usize = 0;
        while i < self.modes.len()
            invariant
                i <= self.modes.len(),
                forall|j: int| 0 <= j < i ==> !couvre(#[trigger] self.modes@[j], jour, instant),
            decreases self.modes.len() - i,
        {
            if self.modes[i].couvre(jour, instant) {
                return Some(self.modes[i].mode);
            }
            i += 1;
        }
        None
    }
}

// ---------------------------------------------------------------------------
// Validation
// ---------------------------------------------------------------------------

/// Un motif qui, une fois les blancs retirés, est vide.
pub open spec fn motif_vide(m: Seq<char>) -> bool {
    forall|i: int| 0 <= i < m.len() ==> blanc(#[trigger] m[i])
}

fn motif_vide_exec(m: &str) -> (r: bool)
    ensures
        r == motif_vide(m@),
{
    let c = crate::texte::en_caracteres(m);
    let mut i: usize = 0;
    while i < c.len()
        invariant
            i <= c.len(),
            c@ == m@,
            forall|k: int| 0 <= k < i ==> blanc(#[trigger] m@[k]),
        decreases c.len() - i,
    {
        if !est_blanc(c[i]) {
            return false;
        }
        i += 1;
    }
    true
}

/// Une coordonnée dans ses limites : longitude entre -180 et 180 degrés,
/// latitude entre -90 et 90.
pub open spec fn coordonnee_valide(p: [i64; 2]) -> bool {
    &&& -1_800_000_000 <= p[0] <= 1_800_000_000
    &&& -900_000_000 <= p[1] <= 900_000_000
}

fn coordonnee_valide_exec(p: &[i64; 2]) -> (r: bool)
    ensures
        r == coordonnee_valide(*p),
{
    -1_800_000_000 <= p[0] && p[0] <= 1_800_000_000 && -900_000_000 <= p[1] && p[1] <= 900_000_000
}

/// Le premier point hors limites d'une suite.
pub open spec fn premier_invalide(p: Seq<[i64; 2]>) -> Option<[i64; 2]>
    decreases p.len(),
{
    if p.len() == 0 {
        None
    } else if !coordonnee_valide(p[0]) {
        Some(p[0])
    } else {
        premier_invalide(p.drop_first())
    }
}

fn premier_invalide_exec(p: &Vec<[i64; 2]>) -> (r: Option<[i64; 2]>)
    ensures
        r == premier_invalide(p@),
{
    let mut i: usize = 0;
    assert(p@.skip(0) =~= p@);
    while i < p.len()
        invariant
            i <= p.len(),
            premier_invalide(p@) == premier_invalide(p@.skip(i as int)),
        decreases p.len() - i,
    {
        assert(p@.skip(i as int).drop_first() =~= p@.skip(i + 1));
        if !coordonnee_valide_exec(&p[i]) {
            return Some(p[i]);
        }
        i += 1;
    }
    None
}

/// L'erreur que porte un segment, s'il en porte une.
pub open spec fn erreur_segment(s: Segment) -> Option<ErreurOverrides> {
    if s.points@.len() < 2 {
        Some(ErreurOverrides::SegmentTropCourt { jour: s.jour, nombre: s.points@.len() as usize })
    } else {
        match premier_invalide(s.points@) {
            Some(p) => Some(ErreurOverrides::CoordonneeInvalide { jour: s.jour, lon: p[0], lat: p[1] }),
            None => None,
        }
    }
}

/// L'erreur que porte un forçage d'itinéraire, s'il en porte une.
pub open spec fn erreur_itineraire(f: ForcageItineraire) -> Option<ErreurOverrides> {
    match premier_invalide(f.points_de_passage@) {
        Some(p) => Some(ErreurOverrides::CoordonneeInvalide { jour: f.jour, lon: p[0], lat: p[1] }),
        None => None,
    }
}

/// La première erreur d'une suite, rangée dans l'ordre des contrôles : les
/// motifs de lots, puis les segments, puis les itinéraires, chacun dans son
/// ordre.
pub open spec fn premiere_erreur(o: Overrides) -> Option<ErreurOverrides> {
    if exists|i: int| 0 <= i < o.lots@.len() && motif_vide((#[trigger] o.lots@[i]).motif@) {
        Some(ErreurOverrides::MotifVide)
    } else if exists|i: int| 0 <= i < o.segments@.len() && (#[trigger] erreur_segment(o.segments@[i])) is Some {
        let i = choose|i: int| 0 <= i < o.segments@.len() && (#[trigger] erreur_segment(o.segments@[i])) is Some
            && forall|j: int| 0 <= j < i ==> (#[trigger] erreur_segment(o.segments@[j])) is None;
        erreur_segment(o.segments@[i])
    } else if exists|i: int| 0 <= i < o.itineraires@.len() && (#[trigger] erreur_itineraire(o.itineraires@[i])) is Some {
        let i = choose|i: int| 0 <= i < o.itineraires@.len() && (#[trigger] erreur_itineraire(o.itineraires@[i])) is Some
            && forall|j: int| 0 <= j < i ==> (#[trigger] erreur_itineraire(o.itineraires@[j])) is None;
        erreur_itineraire(o.itineraires@[i])
    } else {
        None
    }
}

impl Overrides {
    /// Contrôles qui ne dépendent d'aucun média : un fichier incohérent doit
    /// être refusé avant d'avoir touché quoi que ce soit.
    pub fn valider(&self) -> (r: Result<(), ErreurOverrides>)
        ensures
            match r {
                Ok(()) => premiere_erreur(*self) is None,
                Err(e) => premiere_erreur(*self) == Some(e),
            },
            r is Ok <==> {
                &&& forall|i: int| 0 <= i < self.lots@.len() ==> !motif_vide((#[trigger] self.lots@[i]).motif@)
                &&& forall|i: int|
                    0 <= i < self.segments@.len() ==> (#[trigger] self.segments@[i]).points@.len() >= 2 && forall|q: int|
                        0 <= q < self.segments@[i].points@.len() ==> coordonnee_valide(#[trigger] self.segments@[i].points@[q])
                &&& forall|i: int|
                    0 <= i < self.itineraires@.len() ==> forall|q: int|
                        0 <= q < (#[trigger] self.itineraires@[i]).points_de_passage@.len() ==> coordonnee_valide(
                            #[trigger] self.itineraires@[i].points_de_passage@[q],
                        )
            },
    {
        proof {
            loi_valider(*self);
        }
        self.premiere_erreur_exec()
    }

    fn premiere_erreur_exec(&self) -> (r: Result<(), ErreurOverrides>)
        ensures
            match r {
                Ok(()) => premiere_erreur(*self) is None,
                Err(e) => premiere_erreur(*self) == Some(e),
            },
    {
        let mut i: usize = 0;
        while i < self.lots.len()
            invariant
                i <= self.lots.len(),
                forall|k: int| 0 <= k < i ==> !motif_vide((#[trigger] self.lots@[k]).motif@),
            decreases self.lots.len() - i,
        {
            if motif_vide_exec(self.lots[i].motif.as_str()) {
                return Err(ErreurOverrides::MotifVide);
            }
            i += 1;
        }
        let mut i: usize = 0;
        while i < self.segments.len()
            invariant
                i <= self.segments.len(),
                forall|k: int| 0 <= k < self.lots@.len() ==> !motif_vide((#[trigger] self.lots@[k]).motif@),
                forall|k: int| 0 <= k < i ==> (#[trigger] erreur_segment(self.segments@[k])) is None,
            decreases self.segments.len() - i,
        {
            let segment = &self.segments[i];
            if segment.points.len() < 2 {
                let e = ErreurOverrides::SegmentTropCourt { jour: segment.jour, nombre: segment.points.len() };
                proof {
                    lemme_premiere_segment(*self, i as int);
                }
                return Err(e);
            }
            match premier_invalide_exec(&segment.points) {
                Some(p) => {
                    proof {
                        lemme_premiere_segment(*self, i as int);
                    }
                    return Err(ErreurOverrides::CoordonneeInvalide { jour: segment.jour, lon: p[0], lat: p[1] });
                },
                None => {},
            }
            i += 1;
        }
        let mut i: usize = 0;
        while i < self.itineraires.len()
            invariant
                i <= self.itineraires.len(),
                forall|k: int| 0 <= k < self.lots@.len() ==> !motif_vide((#[trigger] self.lots@[k]).motif@),
                forall|k: int| 0 <= k < self.segments@.len() ==> (#[trigger] erreur_segment(self.segments@[k])) is None,
                forall|k: int| 0 <= k < i ==> (#[trigger] erreur_itineraire(self.itineraires@[k])) is None,
            decreases self.itineraires.len() - i,
        {
            match premier_invalide_exec(&self.itineraires[i].points_de_passage) {
                Some(p) => {
                    proof {
                        lemme_premiere_itineraire(*self, i as int);
                    }
                    return Err(ErreurOverrides::CoordonneeInvalide { jour: self.itineraires[i].jour, lon: p[0], lat: p[1] });
                },
                None => {},
            }
            i += 1;
        }
        Ok(())
    }
}

proof fn lemme_premiere_segment(o: Overrides, i: int)
    requires
        0 <= i < o.segments@.len(),
        forall|k: int| 0 <= k < o.lots@.len() ==> !motif_vide((#[trigger] o.lots@[k]).motif@),
        forall|k: int| 0 <= k < i ==> (#[trigger] erreur_segment(o.segments@[k])) is None,
        erreur_segment(o.segments@[i]) is Some,
    ensures
        premiere_erreur(o) == erreur_segment(o.segments@[i]),
{
    let j = choose|j: int| 0 <= j < o.segments@.len() && (#[trigger] erreur_segment(o.segments@[j])) is Some
        && forall|k: int| 0 <= k < j ==> (#[trigger] erreur_segment(o.segments@[k])) is None;
    assert(0 <= j < o.segments@.len() && erreur_segment(o.segments@[j]) is Some
        && forall|k: int| 0 <= k < j ==> (#[trigger] erreur_segment(o.segments@[k])) is None);
    if j < i {
        assert(erreur_segment(o.segments@[j]) is None);
    }
    if i < j {
        assert(erreur_segment(o.segments@[i]) is None);
    }
}

proof fn lemme_premiere_itineraire(o: Overrides, i: int)
    requires
        0 <= i < o.itineraires@.len(),
        forall|k: int| 0 <= k < o.lots@.len() ==> !motif_vide((#[trigger] o.lots@[k]).motif@),
        forall|k: int| 0 <= k < o.segments@.len() ==> (#[trigger] erreur_segment(o.segments@[k])) is None,
        forall|k: int| 0 <= k < i ==> (#[trigger] erreur_itineraire(o.itineraires@[k])) is None,
        erreur_itineraire(o.itineraires@[i]) is Some,
    ensures
        premiere_erreur(o) == erreur_itineraire(o.itineraires@[i]),
{
    let j = choose|j: int| 0 <= j < o.itineraires@.len() && (#[trigger] erreur_itineraire(o.itineraires@[j])) is Some
        && forall|k: int| 0 <= k < j ==> (#[trigger] erreur_itineraire(o.itineraires@[k])) is None;
    assert(0 <= j < o.itineraires@.len() && erreur_itineraire(o.itineraires@[j]) is Some
        && forall|k: int| 0 <= k < j ==> (#[trigger] erreur_itineraire(o.itineraires@[k])) is None);
    if j < i {
        assert(erreur_itineraire(o.itineraires@[j]) is None);
    }
    if i < j {
        assert(erreur_itineraire(o.itineraires@[i]) is None);
    }
}

// ---------------------------------------------------------------------------
// Nom de fichier
// ---------------------------------------------------------------------------

/// Position du dernier séparateur de chemin, `/` ou `\`, ou -1.
pub open spec fn dernier_separateur(s: Seq<char>) -> int {
    if dernier(s, '/') > dernier(s, '\\') {
        dernier(s, '/')
    } else {
        dernier(s, '\\')
    }
}

/// Ce qui suit le dernier séparateur d'un chemin relatif.
pub open spec fn nom_de_fichier_spec(chemin: Seq<char>) -> Seq<char> {
    chemin.skip(dernier_separateur(chemin) + 1)
}

/// Le nom de fichier d'un chemin relatif : ce qui suit le dernier `/` ou `\`.
pub fn nom_de_fichier(chemin_relatif: &str) -> (r: String)
    ensures
        r@ == nom_de_fichier_spec(chemin_relatif@),
{
    let c = crate::texte::en_caracteres(chemin_relatif);
    proof {
        crate::noms::lemme_dernier(c@, '/');
        crate::noms::lemme_dernier(c@, '\\');
    }
    let a = dernier_exec(c.as_slice(), '/');
    let b = dernier_exec(c.as_slice(), '\\');
    let debut: usize = match (a, b) {
        (Some(x), Some(y)) => if x > y { x + 1 } else { y + 1 },
        (Some(x), None) => x + 1,
        (None, Some(y)) => y + 1,
        (None, None) => 0,
    };
    let mut v: Vec<char> = Vec::new();
    let mut i: usize = debut;
    while i < c.len()
        invariant
            debut <= i <= c.len(),
            c@ == chemin_relatif@,
            debut == dernier_separateur(c@) + 1,
            v@ == c@.subrange(debut as int, i as int),
        decreases c.len() - i,
    {
        v.push(c[i]);
        i += 1;
        assert(v@ =~= c@.subrange(debut as int, i as int));
    }
    assert(v@ =~= c@.skip(debut as int));
    crate::texte::en_chaine(&v)
}


// ---------------------------------------------------------------------------
// Application
// ---------------------------------------------------------------------------

/// Médias d'un lot à répartir le long du segment manuel de leur journée.
#[derive(Debug, Clone)]
pub struct Repartition {
    pub jour: i64,
    /// Identifiants dans leur ordre relatif : horodatage d'abord, nom de
    /// fichier ensuite.
    pub identifiants: Vec<String>,
}

/// Ce que l'application des surcharges a produit.
#[derive(Debug, Clone)]
pub struct Journal {
    pub medias_surcharges: Vec<String>,
    pub exclus: Vec<String>,
    /// Motif du lot et nombre de médias touchés.
    pub lots_appliques: Vec<(String, usize)>,
    /// Surcharges qui ne visent aucun média.
    pub inutilisees: Vec<String>,
    pub repartitions: Vec<Repartition>,
}

pub open spec fn somme_lots(l: Seq<(String, usize)>) -> int
    decreases l.len(),
{
    if l.len() == 0 {
        0
    } else {
        somme_lots(l.drop_last()) + l.last().1
    }
}

impl Journal {
    /// Nombre de surcharges appliquées : médias corrigés, médias exclus, et
    /// médias touchés par les lots.
    pub fn total_applique(&self) -> (r: usize)
        requires
            self.medias_surcharges@.len() + self.exclus@.len() + somme_lots(self.lots_appliques@) <= usize::MAX,
        ensures
            r == self.medias_surcharges@.len() + self.exclus@.len() + somme_lots(self.lots_appliques@),
    {
        let mut somme: usize = 0;
        let mut i: usize = 0;
        while i < self.lots_appliques.len()
            invariant
                i <= self.lots_appliques.len(),
                somme == somme_lots(self.lots_appliques@.take(i as int)),
                self.medias_surcharges@.len() + self.exclus@.len() + somme_lots(self.lots_appliques@) <= usize::MAX,
            decreases self.lots_appliques.len() - i,
        {
            assert(self.lots_appliques@.take(i + 1).drop_last() =~= self.lots_appliques@.take(i as int));
            proof {
                lemme_somme_prefixe(self.lots_appliques@, i + 1);
            }
            somme = somme + self.lots_appliques[i].1;
            i += 1;
        }
        assert(self.lots_appliques@.take(i as int) =~= self.lots_appliques@);
        self.medias_surcharges.len() + self.exclus.len() + somme
    }
}

proof fn lemme_somme_prefixe(l: Seq<(String, usize)>, n: int)
    requires
        0 <= n <= l.len(),
    ensures
        0 <= somme_lots(l.take(n)) <= somme_lots(l),
    decreases l.len(),
{
    if l.len() > 0 {
        if n == l.len() {
            assert(l.take(n) =~= l);
            lemme_somme_prefixe(l.drop_last(), n - 1);
        } else {
            assert(l.drop_last().take(n) =~= l.take(n));
            lemme_somme_prefixe(l.drop_last(), n);
        }
    }
}

/// L'état d'un média que les surcharges peuvent changer.
pub struct EtatMedia {
    pub prise_le: Option<Instant>,
    pub jour: Option<i64>,
    pub position: Option<Position>,
    pub fiabilite: Fiabilite,
    pub origine_position: Option<OriginePosition>,
    pub anomalies: Seq<Anomalie>,
}

pub open spec fn etat(m: Media) -> EtatMedia {
    EtatMedia {
        prise_le: m.prise_le,
        jour: m.jour,
        position: m.position,
        fiabilite: m.fiabilite,
        origine_position: m.origine_position,
        anomalies: m.anomalies@,
    }
}

/// Ce que les surcharges ne changent jamais d'un média.
pub open spec fn meme_media(a: Media, b: Media) -> bool {
    &&& b.id == a.id
    &&& b.type_media == a.type_media
    &&& b.fichier_source == a.fichier_source
    &&& b.origine_date == a.origine_date
    &&& b.lieu == a.lieu
    &&& b.publie == a.publie
    &&& b.derives == a.derives
    &&& b.lqip == a.lqip
    &&& b.largeur == a.largeur
    &&& b.hauteur == a.hauteur
    &&& b.orientation == a.orientation
    &&& b.appareil == a.appareil
    &&& b.convention == a.convention
    &&& b.octets == a.octets
}

/// Les anomalies, moins toutes celles de ce motif.
pub open spec fn sans(s: Seq<Anomalie>, a: Anomalie) -> Seq<Anomalie>
    decreases s.len(),
{
    if s.len() == 0 {
        s
    } else if s.last() == a {
        sans(s.drop_last(), a)
    } else {
        sans(s.drop_last(), a).push(s.last())
    }
}

/// Le jour civil d'un instant, dans le fuseau du voyage.
pub open spec fn jour_de_l_instant(i: Instant, fuseau: Seq<char>) -> Option<i64> {
    match jour_local(i.utc as int, fuseau) {
        Some(j) => Some(j as i64),
        None => None,
    }
}

/// Une position posée à la main : elle devient fiable, et l'altitude nulle
/// cesse d'être une anomalie.
pub open spec fn poser(e: EtatMedia, p: Position) -> EtatMedia {
    EtatMedia {
        position: Some(p),
        fiabilite: Fiabilite::Haute,
        origine_position: Some(OriginePosition::Override),
        anomalies: sans(e.anomalies, Anomalie::AltitudeNulle),
        ..e
    }
}

/// Un lot appliqué à un média qu'il touche. `jour` sans `prise_le` corrige
/// la journée en gardant l'horodatage d'origine, qui porte l'ordre relatif.
pub open spec fn par_lot(e: EtatMedia, lot: Lot, fuseau: Seq<char>) -> EtatMedia {
    let e1 = match lot.prise_le {
        Some(p) => EtatMedia { prise_le: Some(p), jour: jour_de_l_instant(p, fuseau), ..e },
        None => e,
    };
    let e2 = match lot.jour {
        Some(j) => EtatMedia { jour: Some(j), ..e1 },
        None => e1,
    };
    match lot.position {
        Some(p) => poser(e2, p),
        None => e2,
    }
}

/// Une correction individuelle appliquée à son média. Une date corrigée
/// lève le soupçon d'un nom menteur.
pub open spec fn par_surcharge(e: EtatMedia, s: SurchargeMedia, fuseau: Seq<char>) -> EtatMedia {
    let e1 = match s.prise_le {
        Some(p) => EtatMedia {
            prise_le: Some(p),
            jour: jour_de_l_instant(p, fuseau),
            anomalies: sans(e.anomalies, Anomalie::NomMenteur),
            ..e
        },
        None => e,
    };
    let e2 = match s.jour {
        Some(j) => EtatMedia { jour: Some(j), ..e1 },
        None => e1,
    };
    match s.position {
        Some(p) => poser(e2, p),
        None => e2,
    }
}

/// Le lot désigne ce fichier : son motif correspond au nom, sans
/// distinction de casse.
pub open spec fn touche(lot: Lot, fichier: Seq<char>) -> bool {
    correspond(minuscules(lot.motif@), minuscules(nom_de_fichier_spec(fichier)))
}

/// L'état d'un média après une suite de lots, chacun à son tour.
pub open spec fn apres_lots(e: EtatMedia, fichier: Seq<char>, lots: Seq<Lot>, fuseau: Seq<char>) -> EtatMedia
    decreases lots.len(),
{
    if lots.len() == 0 {
        e
    } else {
        let avant = apres_lots(e, fichier, lots.drop_last(), fuseau);
        if touche(lots.last(), fichier) {
            par_lot(avant, lots.last(), fuseau)
        } else {
            avant
        }
    }
}

/// La correction individuelle d'un identifiant, s'il en a une.
pub open spec fn surcharge_de(m: Seq<(String, SurchargeMedia)>, id: Seq<char>) -> Option<SurchargeMedia>
    decreases m.len(),
{
    if m.len() == 0 {
        None
    } else if m.last().0@ == id {
        Some(m.last().1)
    } else {
        surcharge_de(m.drop_last(), id)
    }
}

/// Le média `k` est le premier de la suite à porter son identifiant.
pub open spec fn premier_de_son_nom(r: Seq<Media>, k: int) -> bool {
    forall|j: int| 0 <= j < k ==> (#[trigger] r[j]).id@ != r[k].id@
}

/// L'état final du média `k` des médias gardés : les lots, puis sa
/// correction individuelle, qui l'emporte donc sur le lot.
pub open spec fn etat_final(r: Seq<Media>, k: int, o: Overrides, fuseau: Seq<char>) -> EtatMedia {
    let e = apres_lots(etat(r[k]), r[k].fichier_source@, o.lots@, fuseau);
    match surcharge_de(o.medias@, r[k].id@) {
        Some(s) => if premier_de_son_nom(r, k) {
            par_surcharge(e, s, fuseau)
        } else {
            e
        },
        None => e,
    }
}

pub open spec fn identifiants(r: Seq<Media>) -> Seq<Seq<char>> {
    r.map_values(|m: Media| m.id@)
}

/// Les médias qu'aucune exclusion ne vise, dans leur ordre.
pub open spec fn gardes(r: Seq<Media>, exclusions: Seq<Seq<char>>) -> Seq<Media>
    decreases r.len(),
{
    if r.len() == 0 {
        r
    } else if exclusions.contains(r.last().id@) {
        gardes(r.drop_last(), exclusions)
    } else {
        gardes(r.drop_last(), exclusions).push(r.last())
    }
}

/// Les noms d'une suite qui sont (`present`) ou non parmi `ids`.
pub open spec fn selon_presence(noms: Seq<Seq<char>>, ids: Seq<Seq<char>>, present: bool) -> Seq<Seq<char>>
    decreases noms.len(),
{
    if noms.len() == 0 {
        noms
    } else if ids.contains(noms.last()) == present {
        selon_presence(noms.drop_last(), ids, present).push(noms.last())
    } else {
        selon_presence(noms.drop_last(), ids, present)
    }
}

pub open spec fn message_exclusion(id: Seq<char>) -> Seq<char> {
    "exclusion « "@ + id + " » : aucun média de ce nom"@
}

pub open spec fn message_lot(motif: Seq<char>) -> Seq<char> {
    "lot « "@ + motif + " » : aucun fichier ne correspond"@
}

pub open spec fn message_surcharge(id: Seq<char>) -> Seq<char> {
    "surcharge « "@ + id + " » : aucun média de ce nom"@
}

/// Nombre de médias que le lot touche.
pub open spec fn nb_touches(lot: Lot, r: Seq<Media>) -> nat
    decreases r.len(),
{
    if r.len() == 0 {
        0
    } else if touche(lot, r.last().fichier_source@) {
        nb_touches(lot, r.drop_last()) + 1
    } else {
        nb_touches(lot, r.drop_last())
    }
}

/// Pour chaque lot qui touche quelque chose : son motif et son compte.
pub open spec fn lots_appliques(lots: Seq<Lot>, r: Seq<Media>) -> Seq<(Seq<char>, nat)>
    decreases lots.len(),
{
    if lots.len() == 0 {
        seq![]
    } else if nb_touches(lots.last(), r) > 0 {
        lots_appliques(lots.drop_last(), r).push((lots.last().motif@, nb_touches(lots.last(), r)))
    } else {
        lots_appliques(lots.drop_last(), r)
    }
}

/// Pour chaque lot qui ne touche rien : son message.
pub open spec fn messages_lots(lots: Seq<Lot>, r: Seq<Media>) -> Seq<Seq<char>>
    decreases lots.len(),
{
    if lots.len() == 0 {
        seq![]
    } else if nb_touches(lots.last(), r) == 0 {
        messages_lots(lots.drop_last(), r).push(message_lot(lots.last().motif@))
    } else {
        messages_lots(lots.drop_last(), r)
    }
}

/// Clé de l'ordre relatif d'un média touché : horodatage en temps
/// universel, nom de fichier, identifiant.
pub type Cle = (Option<i64>, Seq<char>, Seq<char>);

pub open spec fn instant_inf(a: Option<i64>, b: Option<i64>) -> bool {
    match (a, b) {
        (None, Some(_)) => true,
        (Some(x), Some(y)) => x < y,
        _ => false,
    }
}

/// `a` se range strictement avant `b` : horodatage d'abord (l'absence en
/// premier), nom de fichier ensuite.
pub open spec fn cle_inf(a: Cle, b: Cle) -> bool {
    instant_inf(a.0, b.0) || (a.0 == b.0 && lex_inf(a.1, b.1))
}

/// Insère `x` après tout ce qui ne se range pas strictement après lui.
pub open spec fn inserer_cle(s: Seq<Cle>, x: Cle) -> Seq<Cle>
    decreases s.len(),
{
    if s.len() == 0 {
        seq![x]
    } else if cle_inf(x, s[0]) {
        seq![x] + s
    } else {
        seq![s[0]] + inserer_cle(s.drop_first(), x)
    }
}

/// Le tri stable des clés.
pub open spec fn tri_stable(t: Seq<Cle>) -> Seq<Cle>
    decreases t.len(),
{
    if t.len() == 0 {
        t
    } else {
        inserer_cle(tri_stable(t.drop_last()), t.last())
    }
}

pub open spec fn utc_de(p: Option<Instant>) -> Option<i64> {
    match p {
        Some(i) => Some(i.utc),
        None => None,
    }
}

/// Les clés des médias que touche le dernier lot de `lots`, une fois tous
/// ces lots appliqués, dans l'ordre des médias.
pub open spec fn cles_touchees(r: Seq<Media>, lots: Seq<Lot>, fuseau: Seq<char>) -> Seq<Cle>
    decreases r.len(),
{
    if r.len() == 0 {
        seq![]
    } else {
        let m = r.last();
        let avant = cles_touchees(r.drop_last(), lots, fuseau);
        if touche(lots.last(), m.fichier_source@) {
            avant.push(
                (
                    utc_de(apres_lots(etat(m), m.fichier_source@, lots, fuseau).prise_le),
                    nom_de_fichier_spec(m.fichier_source@),
                    m.id@,
                ),
            )
        } else {
            avant
        }
    }
}

pub open spec fn ids_des_cles(t: Seq<Cle>) -> Seq<Seq<char>> {
    t.map_values(|c: Cle| c.2)
}

/// Les répartitions : pour chaque lot qui en demande une et touche quelque
/// chose, son jour (le 1er janvier 1970 à défaut) et ses médias rangés.
pub open spec fn repartitions(lots: Seq<Lot>, r: Seq<Media>, fuseau: Seq<char>) -> Seq<(i64, Seq<Seq<char>>)>
    decreases lots.len(),
{
    if lots.len() == 0 {
        seq![]
    } else {
        let avant = repartitions(lots.drop_last(), r, fuseau);
        let lot = lots.last();
        if lot.repartir_sur_segment && nb_touches(lot, r) > 0 {
            avant.push(
                (
                    match lot.jour {
                        Some(j) => j,
                        None => 0,
                    },
                    ids_des_cles(tri_stable(cles_touchees(r, lots, fuseau))),
                ),
            )
        } else {
            avant
        }
    }
}

pub open spec fn vue_lots(v: Seq<(String, usize)>) -> Seq<(Seq<char>, nat)> {
    v.map_values(|p: (String, usize)| (p.0@, p.1 as nat))
}

pub open spec fn vue_repartitions(v: Seq<Repartition>) -> Seq<(i64, Seq<Seq<char>>)> {
    v.map_values(|p: Repartition| (p.jour, vues(p.identifiants@)))
}


fn retirer_anomalie(v: Vec<Anomalie>, a: Anomalie) -> (r: Vec<Anomalie>)
    ensures
        r@ == sans(v@, a),
{
    let ghost s = v@;
    let mut r: Vec<Anomalie> = Vec::new();
    for x in it: v.into_iter()
        invariant
            it.seq() == s,
            r@ == sans(s.take(it.index() as int), a),
    {
        let ghost i = it.index() as int;
        assert(s.take(i + 1).drop_last() =~= s.take(i));
        if x != a {
            r.push(x);
        }
    }
    assert(s.take(s.len() as int) =~= s);
    r
}

fn jour_de_l_instant_exec(p: Instant, fuseau: &str) -> (r: Option<i64>)
    requires
        instant_lisible(p.utc as int),
    ensures
        r == jour_de_l_instant(p, fuseau@),
{
    jour_local_exec(p.utc, fuseau)
}

fn poser_exec(m: Media, p: Position) -> (r: Media)
    ensures
        meme_media(m, r),
        etat(r) == poser(etat(m), p),
{
    let mut m = m;
    m.position = Some(p);
    m.fiabilite = Fiabilite::Haute;
    m.origine_position = Some(OriginePosition::Override);
    let mut anomalies: Vec<Anomalie> = Vec::new();
    std::mem::swap(&mut anomalies, &mut m.anomalies);
    m.anomalies = retirer_anomalie(anomalies, Anomalie::AltitudeNulle);
    m
}

fn par_lot_exec(m: Media, lot: &Lot, fuseau: &str) -> (r: Media)
    requires
        lot.prise_le matches Some(p) ==> instant_lisible(p.utc as int),
    ensures
        meme_media(m, r),
        etat(r) == par_lot(etat(m), *lot, fuseau@),
{
    let mut m = m;
    if let Some(p) = lot.prise_le {
        m.prise_le = Some(p);
        m.jour = jour_de_l_instant_exec(p, fuseau);
    }
    if let Some(j) = lot.jour {
        m.jour = Some(j);
    }
    match lot.position {
        Some(p) => poser_exec(m, p),
        None => m,
    }
}

fn par_surcharge_exec(m: Media, s: &SurchargeMedia, fuseau: &str) -> (r: Media)
    requires
        s.prise_le matches Some(p) ==> instant_lisible(p.utc as int),
    ensures
        meme_media(m, r),
        etat(r) == par_surcharge(etat(m), *s, fuseau@),
{
    let mut m = m;
    if let Some(p) = s.prise_le {
        m.prise_le = Some(p);
        m.jour = jour_de_l_instant_exec(p, fuseau);
        let mut anomalies: Vec<Anomalie> = Vec::new();
        std::mem::swap(&mut anomalies, &mut m.anomalies);
        m.anomalies = retirer_anomalie(anomalies, Anomalie::NomMenteur);
    }
    if let Some(j) = s.jour {
        m.jour = Some(j);
    }
    match s.position {
        Some(p) => poser_exec(m, p),
        None => m,
    }
}


/// Clé exécutable d'un média touché : horodatage, nom de fichier, identifiant.
type CleExec = (Option<i64>, String, String);

pub open spec fn vue_cle(c: (Option<i64>, String, String)) -> Cle {
    (c.0, c.1@, c.2@)
}

pub open spec fn vues_cles(v: Seq<(Option<i64>, String, String)>) -> Seq<Cle> {
    v.map_values(|c: (Option<i64>, String, String)| vue_cle(c))
}

fn cle_inf_exec(a: &CleExec, b: &CleExec) -> (r: bool)
    ensures
        r == cle_inf(vue_cle(*a), vue_cle(*b)),
{
    match (a.0, b.0) {
        (None, Some(_)) => true,
        (Some(x), Some(y)) => x < y || (x == y && crate::ordre::lex_inf_exec(a.1.as_str(), b.1.as_str())),
        (None, None) => crate::ordre::lex_inf_exec(a.1.as_str(), b.1.as_str()),
        (Some(_), None) => false,
    }
}

proof fn lemme_inserer_cle(s: Seq<Cle>, x: Cle, p: int)
    requires
        0 <= p <= s.len(),
        forall|q: int| 0 <= q < p ==> !cle_inf(x, #[trigger] s[q]),
        p < s.len() ==> cle_inf(x, s[p]),
    ensures
        inserer_cle(s, x) == s.insert(p, x),
    decreases s.len(),
{
    if s.len() == 0 {
        assert(s.insert(p, x) =~= seq![x]);
    } else if p == 0 {
        assert(s.insert(0, x) =~= seq![x] + s);
    } else {
        assert(!cle_inf(x, s[0]));
        assert forall|q: int| 0 <= q < p - 1 implies !cle_inf(x, #[trigger] s.drop_first()[q]) by {
            assert(s.drop_first()[q] == s[q + 1]);
        }
        lemme_inserer_cle(s.drop_first(), x, p - 1);
        assert(s.insert(p, x) =~= seq![s[0]] + s.drop_first().insert(p - 1, x));
    }
}

/// Range les clés par tri stable : horodatage d'abord, nom ensuite, l'ordre
/// d'arrivée départageant le reste.
fn trier(t: Vec<CleExec>) -> (r: Vec<CleExec>)
    ensures
        vues_cles(r@) == tri_stable(vues_cles(t@)),
{
    let ghost s = t@;
    let mut r: Vec<CleExec> = Vec::new();
    for x in it: t.into_iter()
        invariant
            it.seq() == s,
            vues_cles(r@) == tri_stable(vues_cles(s.take(it.index() as int))),
    {
        let ghost i = it.index() as int;
        let ghost avant = r@;
        let mut p: usize = 0;
        while p < r.len() && !cle_inf_exec(&x, &r[p])
            invariant
                p <= r.len(),
                r@ == avant,
                forall|q: int| 0 <= q < p ==> !cle_inf(vue_cle(x), #[trigger] vues_cles(r@)[q]),
            decreases r.len() - p,
        {
            p += 1;
        }
        proof {
            lemme_inserer_cle(vues_cles(r@), vue_cle(x), p as int);
            assert(vues_cles(s.take(i + 1)).drop_last() =~= vues_cles(s.take(i)));
            assert(vues_cles(s.take(i + 1)).last() == vue_cle(x));
        }
        r.insert(p, x);
        assert(vues_cles(r@) =~= vues_cles(avant).insert(p as int, vue_cle(x)));
    }
    assert(s.take(s.len() as int) =~= s);
    r
}

fn identifiants_des_cles(t: Vec<CleExec>) -> (r: Vec<String>)
    ensures
        vues(r@) == ids_des_cles(vues_cles(t@)),
{
    let ghost s = t@;
    let mut r: Vec<String> = Vec::new();
    for x in it: t.into_iter()
        invariant
            it.seq() == s,
            vues(r@) == ids_des_cles(vues_cles(s.take(it.index() as int))),
    {
        let ghost i = it.index() as int;
        assert(s.take(i + 1) =~= s.take(i).push(x));
        assert(vues_cles(s.take(i + 1)) =~= vues_cles(s.take(i)).push(vue_cle(x)));
        let ghost avant = r@;
        r.push(x.2);
        assert(vues(r@) =~= vues(avant).push(vue_cle(x).2));
        assert(vues(r@) =~= ids_des_cles(vues_cles(s.take(i + 1))));
    }
    assert(s.take(s.len() as int) =~= s);
    r
}

fn contient(v: &Vec<String>, x: &String) -> (r: bool)
    ensures
        r == vues(v@).contains(x@),
{
    let mut i: usize = 0;
    while i < v.len()
        invariant
            i <= v.len(),
            forall|k: int| 0 <= k < i ==> vues(v@)[k] != x@,
        decreases v.len() - i,
    {
        if v[i] == *x {
            assert(vues(v@)[i as int] == x@);
            return true;
        }
        i += 1;
    }
    false
}

fn contient_media(v: &Vec<Media>, x: &String) -> (r: bool)
    ensures
        r == identifiants(v@).contains(x@),
{
    let mut i: usize = 0;
    while i < v.len()
        invariant
            i <= v.len(),
            forall|k: int| 0 <= k < i ==> identifiants(v@)[k] != x@,
        decreases v.len() - i,
    {
        if v[i].id == *x {
            assert(identifiants(v@)[i as int] == x@);
            return true;
        }
        i += 1;
    }
    false
}

/// Le premier média qui porte cet identifiant.
fn position_de(v: &Vec<Media>, x: &String) -> (r: Option<usize>)
    ensures
        match r {
            Some(k) => k < v@.len() && v@[k as int].id@ == x@ && forall|j: int| 0 <= j < k ==> (#[trigger] v@[j]).id@ != x@,
            None => forall|j: int| 0 <= j < v@.len() ==> (#[trigger] v@[j]).id@ != x@,
        },
{
    let mut i: usize = 0;
    while i < v.len()
        invariant
            i <= v.len(),
            forall|j: int| 0 <= j < i ==> (#[trigger] v@[j]).id@ != x@,
        decreases v.len() - i,
    {
        if v[i].id == *x {
            return Some(i);
        }
        i += 1;
    }
    None
}

fn exclure(medias: Vec<Media>, exclusions: &Vec<String>) -> (r: Vec<Media>)
    ensures
        r@ == gardes(medias@, vues(exclusions@)),
{
    let ghost s = medias@;
    let mut r: Vec<Media> = Vec::new();
    for m in it: medias.into_iter()
        invariant
            it.seq() == s,
            r@ == gardes(s.take(it.index() as int), vues(exclusions@)),
    {
        let ghost i = it.index() as int;
        assert(s.take(i + 1).drop_last() =~= s.take(i));
        if !contient(exclusions, &m.id) {
            r.push(m);
        }
    }
    assert(s.take(s.len() as int) =~= s);
    r
}

/// Les clés des médias d'une suite que touche un lot, une fois le lot appliqué.
pub open spec fn cles_du_lot(r: Seq<Media>, lot: Lot, fuseau: Seq<char>) -> Seq<Cle>
    decreases r.len(),
{
    if r.len() == 0 {
        seq![]
    } else {
        let m = r.last();
        let avant = cles_du_lot(r.drop_last(), lot, fuseau);
        if touche(lot, m.fichier_source@) {
            avant.push(
                (
                    utc_de(par_lot(etat(m), lot, fuseau).prise_le),
                    nom_de_fichier_spec(m.fichier_source@),
                    m.id@,
                ),
            )
        } else {
            avant
        }
    }
}

proof fn lemme_cles(ms: Seq<Media>, r: Seq<Media>, lots: Seq<Lot>, fuseau: Seq<char>)
    requires
        lots.len() > 0,
        ms.len() == r.len(),
        forall|k: int| 0 <= k < r.len() ==> meme_media(r[k], #[trigger] ms[k]),
        forall|k: int| 0 <= k < r.len() ==> etat(#[trigger] ms[k]) == apres_lots(etat(r[k]), r[k].fichier_source@, lots.drop_last(), fuseau),
    ensures
        cles_du_lot(ms, lots.last(), fuseau) == cles_touchees(r, lots, fuseau),
        nb_touches(lots.last(), ms) == nb_touches(lots.last(), r),
    decreases r.len(),
{
    if r.len() > 0 {
        let n = r.len() - 1;
        assert(meme_media(r[n], ms[n]));
        assert(etat(ms[n]) == apres_lots(etat(r[n]), r[n].fichier_source@, lots.drop_last(), fuseau));
        lemme_cles(ms.drop_last(), r.drop_last(), lots, fuseau);
    }
}

/// Applique un lot aux médias qu'il touche, et rend leurs clés.
fn appliquer_lot(medias: Vec<Media>, lot: &Lot, fuseau: &str) -> (r: (Vec<Media>, Vec<CleExec>))
    requires
        lot.prise_le matches Some(p) ==> instant_lisible(p.utc as int),
    ensures
        r.0@.len() == medias@.len(),
        forall|k: int| 0 <= k < medias@.len() ==> meme_media(medias@[k], #[trigger] r.0@[k]),
        forall|k: int| 0 <= k < medias@.len() ==> etat(#[trigger] r.0@[k]) == (if touche(*lot, medias@[k].fichier_source@) {
            par_lot(etat(medias@[k]), *lot, fuseau@)
        } else {
            etat(medias@[k])
        }),
        vues_cles(r.1@) == cles_du_lot(medias@, *lot, fuseau@),
        r.1@.len() == nb_touches(*lot, medias@),
{
    let ghost s = medias@;
    let mut sortie: Vec<Media> = Vec::new();
    let mut touches: Vec<CleExec> = Vec::new();
    for m in it: medias.into_iter()
        invariant
            it.seq() == s,
            lot.prise_le matches Some(p) ==> instant_lisible(p.utc as int),
            sortie@.len() == it.index(),
            forall|k: int| 0 <= k < it.index() ==> meme_media(s[k], #[trigger] sortie@[k]),
            forall|k: int| 0 <= k < it.index() ==> etat(#[trigger] sortie@[k]) == (if touche(*lot, s[k].fichier_source@) {
                par_lot(etat(s[k]), *lot, fuseau@)
            } else {
                etat(s[k])
            }),
            vues_cles(touches@) == cles_du_lot(s.take(it.index() as int), *lot, fuseau@),
            touches@.len() == nb_touches(*lot, s.take(it.index() as int)),
    {
        let ghost i = it.index() as int;
        assert(s.take(i + 1).drop_last() =~= s.take(i));
        assert(s.take(i + 1).last() == m);
        let nom = nom_de_fichier(m.fichier_source.as_str());
        if motif_correspond(lot.motif.as_str(), nom.as_str()) {
            let m2 = par_lot_exec(m, lot, fuseau);
            let horodatage = match m2.prise_le {
                Some(p) => Some(p.utc),
                None => None,
            };
            let id = m2.id.clone();
            touches.push((horodatage, nom, id));
            sortie.push(m2);
            assert(vues_cles(touches@) =~= cles_du_lot(s.take(i + 1), *lot, fuseau@));
        } else {
            sortie.push(m);
        }
    }
    assert(s.take(s.len() as int) =~= s);
    (sortie, touches)
}

fn texte_entre(debut: &str, milieu: &str, fin: &str) -> (r: String)
    ensures
        r@ == debut@ + milieu@ + fin@,
{
    let mut r = String::from_str(debut);
    r.append(milieu);
    r.append(fin);
    r
}

pub open spec fn gardes_par(o: Overrides, avant: Seq<Media>) -> Seq<Media> {
    gardes(avant, vues(o.exclusions@))
}

pub open spec fn inutilisees_attendues(o: Overrides, avant: Seq<Media>) -> Seq<Seq<char>> {
    let r = gardes_par(o, avant);
    selon_presence(vues(o.exclusions@), identifiants(avant), false).map_values(|id: Seq<char>| message_exclusion(id))
        + messages_lots(o.lots@, r) + selon_presence(cles(o.medias@), identifiants(r), false).map_values(
        |id: Seq<char>| message_surcharge(id),
    )
}


/// L'état d'un média après les lots et les `n` premières corrections
/// individuelles.
pub open spec fn etat_partiel(r: Seq<Media>, k: int, o: Overrides, n: int, fuseau: Seq<char>) -> EtatMedia {
    let e = apres_lots(etat(r[k]), r[k].fichier_source@, o.lots@, fuseau);
    match surcharge_de(o.medias@.take(n), r[k].id@) {
        Some(s) => if premier_de_son_nom(r, k) {
            par_surcharge(e, s, fuseau)
        } else {
            e
        },
        None => e,
    }
}

proof fn lemme_sans_cle(m: Seq<(String, SurchargeMedia)>, id: Seq<char>)
    requires
        forall|i: int| 0 <= i < m.len() ==> (#[trigger] m[i]).0@ != id,
    ensures
        surcharge_de(m, id) is None,
    decreases m.len(),
{
    if m.len() > 0 {
        lemme_sans_cle(m.drop_last(), id);
    }
}

/// Des clés strictement croissantes sont distinctes.
proof fn lemme_cles_distinctes(o: Overrides, n: int)
    requires
        o.bien_forme(),
        0 <= n < o.medias@.len(),
    ensures
        surcharge_de(o.medias@.take(n), o.medias@[n].0@) is None,
{
    assert forall|i: int| 0 <= i < n implies (#[trigger] o.medias@.take(n)[i]).0@ != o.medias@[n].0@ by {
        assert(lex_inf(o.medias@[i].0@, o.medias@[n].0@));
        crate::ordre::lemme_irreflexif(o.medias@[n].0@);
    }
    lemme_sans_cle(o.medias@.take(n), o.medias@[n].0@);
}

impl Overrides {
    /// Applique les surcharges à l'inventaire, dans cet ordre : exclusions,
    /// puis lots, puis corrections individuelles. Une correction
    /// individuelle l'emporte donc sur le lot qui la couvrirait.
    pub fn appliquer(&self, medias: &mut Vec<Media>, fuseau: &str) -> (j: Journal)
        requires
            self.bien_forme(),
        ensures
            final(medias)@.len() == gardes_par(*self, old(medias)@).len(),
            forall|k: int| 0 <= k < final(medias)@.len() ==> meme_media(gardes_par(*self, old(medias)@)[k], #[trigger] final(medias)@[k]),
            forall|k: int| 0 <= k < final(medias)@.len() ==> etat(#[trigger] final(medias)@[k]) == etat_final(
                gardes_par(*self, old(medias)@),
                k,
                *self,
                fuseau@,
            ),
            vues(j.exclus@) == selon_presence(vues(self.exclusions@), identifiants(old(medias)@), true),
            vue_lots(j.lots_appliques@) == lots_appliques(self.lots@, gardes_par(*self, old(medias)@)),
            vue_repartitions(j.repartitions@) == repartitions(self.lots@, gardes_par(*self, old(medias)@), fuseau@),
            vues(j.medias_surcharges@) == selon_presence(cles(self.medias@), identifiants(gardes_par(*self, old(medias)@)), true),
            vues(j.inutilisees@) == inutilisees_attendues(*self, old(medias)@),
            identifiants(final(medias)@) == selon_presence(identifiants(old(medias)@), vues(self.exclusions@), false),
            j.inutilisees@.len() == selon_presence(vues(self.exclusions@), identifiants(old(medias)@), false).len()
                + messages_lots(self.lots@, gardes_par(*self, old(medias)@)).len() + selon_presence(
                cles(self.medias@),
                identifiants(gardes_par(*self, old(medias)@)),
                false,
            ).len(),
    {
        let ghost avant = medias@;
        let ghost ex = vues(self.exclusions@);
        // 1. Exclusions.
        let mut exclus: Vec<String> = Vec::new();
        let mut inutilisees: Vec<String> = Vec::new();
        let mut i: usize = 0;
        while i < self.exclusions.len()
            invariant
                i <= self.exclusions.len(),
                medias@ == avant,
                ex == vues(self.exclusions@),
                vues(exclus@) == selon_presence(ex.take(i as int), identifiants(avant), true),
                vues(inutilisees@) == selon_presence(ex.take(i as int), identifiants(avant), false).map_values(
                    |id: Seq<char>| message_exclusion(id),
                ),
            decreases self.exclusions.len() - i,
        {
            let id = &self.exclusions[i];
            assert(ex.take(i + 1).drop_last() =~= ex.take(i as int));
            assert(ex.take(i + 1).last() == id@);
            if contient_media(medias, id) {
                exclus.push(id.clone());
                assert(vues(exclus@) =~= selon_presence(ex.take(i + 1), identifiants(avant), true));
                assert(vues(inutilisees@) =~= selon_presence(ex.take(i + 1), identifiants(avant), false).map_values(
                    |id: Seq<char>| message_exclusion(id),
                ));
            } else {
                let ghost avant_msg = inutilisees@;
                inutilisees.push(texte_entre("exclusion « ", id.as_str(), " » : aucun média de ce nom"));
                assert(vues(inutilisees@) =~= vues(avant_msg).push(message_exclusion(id@)));
                assert(selon_presence(ex.take(i + 1), identifiants(avant), false) =~= selon_presence(ex.take(i as int), identifiants(avant), false).push(id@));
                assert(vues(exclus@) =~= selon_presence(ex.take(i + 1), identifiants(avant), true));
                assert(vues(inutilisees@) =~= selon_presence(ex.take(i + 1), identifiants(avant), false).map_values(
                    |id: Seq<char>| message_exclusion(id),
                ));
            }
            i += 1;
        }
        assert(ex.take(ex.len() as int) =~= ex);
        let ghost messages_exclusions = vues(inutilisees@);
        let mut anciens: Vec<Media> = Vec::new();
        std::mem::swap(&mut anciens, medias);
        *medias = exclure(anciens, &self.exclusions);
        let ghost r = medias@;
        assert(r == gardes_par(*self, avant));

        // 2. Lots, désignés par motif sur le nom de fichier.
        let mut lots_faits: Vec<(String, usize)> = Vec::new();
        let mut reparties: Vec<Repartition> = Vec::new();
        let mut l: usize = 0;
        assert(self.lots@.take(0) =~= Seq::<Lot>::empty());
        while l < self.lots.len()
            invariant
                l <= self.lots.len(),
                self.bien_forme(),
                r == gardes_par(*self, avant),
                medias@.len() == r.len(),
                forall|k: int| 0 <= k < r.len() ==> meme_media(r[k], #[trigger] medias@[k]),
                forall|k: int| 0 <= k < r.len() ==> etat(#[trigger] medias@[k]) == apres_lots(
                    etat(r[k]),
                    r[k].fichier_source@,
                    self.lots@.take(l as int),
                    fuseau@,
                ),
                vues(exclus@) == selon_presence(vues(self.exclusions@), identifiants(avant), true),
                vues(inutilisees@) == messages_exclusions + messages_lots(self.lots@.take(l as int), r),
                vue_lots(lots_faits@) == lots_appliques(self.lots@.take(l as int), r),
                vue_repartitions(reparties@) == repartitions(self.lots@.take(l as int), r, fuseau@),
            decreases self.lots.len() - l,
        {
            let lot = &self.lots[l];
            let ghost lots_l = self.lots@.take(l + 1);
            assert(lots_l.drop_last() =~= self.lots@.take(l as int));
            assert(lots_l.last() == *lot);
            let ghost entree = medias@;
            let mut anciens: Vec<Media> = Vec::new();
            std::mem::swap(&mut anciens, medias);
            let (sortie, touches) = appliquer_lot(anciens, lot, fuseau);
            *medias = sortie;
            proof {
                lemme_cles(entree, r, lots_l, fuseau@);
                assert forall|k: int| 0 <= k < r.len() implies etat(#[trigger] medias@[k]) == apres_lots(
                    etat(r[k]),
                    r[k].fichier_source@,
                    lots_l,
                    fuseau@,
                ) by {
                    assert(meme_media(r[k], entree[k]));
                    assert(meme_media(entree[k], medias@[k]));
                }
                assert forall|k: int| 0 <= k < r.len() implies meme_media(r[k], #[trigger] medias@[k]) by {
                    assert(meme_media(r[k], entree[k]));
                    assert(meme_media(entree[k], medias@[k]));
                }
            }
            if touches.len() == 0 {
                let ghost avant_msg = inutilisees@;
                inutilisees.push(texte_entre("lot « ", lot.motif.as_str(), " » : aucun fichier ne correspond"));
                assert(vues(inutilisees@) =~= vues(avant_msg).push(message_lot(lot.motif@)));
                assert(vues(inutilisees@) =~= messages_exclusions + messages_lots(lots_l, r));
                assert(vue_lots(lots_faits@) =~= lots_appliques(lots_l, r));
                assert(vue_repartitions(reparties@) =~= repartitions(lots_l, r, fuseau@));
            } else {
                let ghost avant_lots = lots_faits@;
                lots_faits.push((lot.motif.clone(), touches.len()));
                assert(vue_lots(lots_faits@) =~= vue_lots(avant_lots).push((lot.motif@, touches@.len() as nat)));
                assert(vue_lots(lots_faits@) =~= lots_appliques(lots_l, r));
                assert(vues(inutilisees@) =~= messages_exclusions + messages_lots(lots_l, r));
                if lot.repartir_sur_segment {
                    let tries = trier(touches);
                    let ids = identifiants_des_cles(tries);
                    let jour = match lot.jour {
                        Some(j) => j,
                        None => 0,
                    };
                    let ghost avant_rep = reparties@;
                    reparties.push(Repartition { jour, identifiants: ids });
                    assert(vue_repartitions(reparties@) =~= vue_repartitions(avant_rep).push((jour, vues(ids@))));
                    assert(vue_repartitions(reparties@) =~= repartitions(lots_l, r, fuseau@));
                } else {
                    assert(vue_repartitions(reparties@) =~= repartitions(lots_l, r, fuseau@));
                }
            }
            l += 1;
        }
        assert(self.lots@.take(self.lots@.len() as int) =~= self.lots@);
        let ghost messages_avant = vues(inutilisees@);

        // 3. Corrections individuelles.
        let mut surcharges: Vec<String> = Vec::new();
        let ghost cs = cles(self.medias@);
        let mut n: usize = 0;
        assert(self.medias@.take(0) =~= Seq::<(String, SurchargeMedia)>::empty());
        while n < self.medias.len()
            invariant
                n <= self.medias.len(),
                self.bien_forme(),
                cs == cles(self.medias@),
                r == gardes_par(*self, avant),
                medias@.len() == r.len(),
                forall|k: int| 0 <= k < r.len() ==> meme_media(r[k], #[trigger] medias@[k]),
                forall|k: int| 0 <= k < r.len() ==> etat(#[trigger] medias@[k]) == etat_partiel(r, k, *self, n as int, fuseau@),
                vues(surcharges@) == selon_presence(cs.take(n as int), identifiants(r), true),
                vues(inutilisees@) == messages_avant + selon_presence(cs.take(n as int), identifiants(r), false).map_values(
                    |id: Seq<char>| message_surcharge(id),
                ),
            decreases self.medias.len() - n,
        {
            let id = &self.medias[n].0;
            let surcharge = &self.medias[n].1;
            let ghost entree = medias@;
            assert(cs.take(n + 1).drop_last() =~= cs.take(n as int));
            assert(cs.take(n + 1).last() == id@);
            assert(self.medias@.take(n + 1).drop_last() =~= self.medias@.take(n as int));
            proof {
                lemme_cles_distinctes(*self, n as int);
            }
            match position_de(medias, id) {
                None => {
                    proof {
                        assert forall|k: int| 0 <= k < r.len() implies etat(#[trigger] medias@[k]) == etat_partiel(
                            r,
                            k,
                            *self,
                            n + 1,
                            fuseau@,
                        ) by {
                            assert(meme_media(r[k], medias@[k]));
                            assert(medias@[k].id@ != id@);
                        }
                        assert(!identifiants(r).contains(id@)) by {
                            if identifiants(r).contains(id@) {
                                let k = choose|k: int| 0 <= k < identifiants(r).len() && identifiants(r)[k] == id@;
                                assert(meme_media(r[k], medias@[k]));
                                assert(medias@[k].id@ != id@);
                            }
                        }
                    }
                    let ghost avant_msg = inutilisees@;
                    inutilisees.push(texte_entre("surcharge « ", id.as_str(), " » : aucun média de ce nom"));
                    assert(vues(inutilisees@) =~= vues(avant_msg).push(message_surcharge(id@)));
                    assert(vues(inutilisees@) =~= messages_avant + selon_presence(cs.take(n + 1), identifiants(r), false).map_values(
                        |id: Seq<char>| message_surcharge(id),
                    ));
                    assert(vues(surcharges@) =~= selon_presence(cs.take(n + 1), identifiants(r), true));
                },
                Some(k0) => {
                    let m = medias.remove(k0);
                    let m2 = par_surcharge_exec(m, surcharge, fuseau);
                    medias.insert(k0, m2);
                    proof {
                        assert(medias@ =~= entree.update(k0 as int, m2));
                        assert(meme_media(r[k0 as int], entree[k0 as int]));
                        assert(premier_de_son_nom(r, k0 as int)) by {
                            assert forall|j: int| 0 <= j < k0 implies (#[trigger] r[j]).id@ != r[k0 as int].id@ by {
                                assert(meme_media(r[j], entree[j]));
                            }
                        }
                        assert forall|k: int| 0 <= k < r.len() implies meme_media(r[k], #[trigger] medias@[k]) by {
                            assert(meme_media(r[k], entree[k]));
                        }
                        assert forall|k: int| 0 <= k < r.len() implies etat(#[trigger] medias@[k]) == etat_partiel(
                            r,
                            k,
                            *self,
                            n + 1,
                            fuseau@,
                        ) by {
                            assert(meme_media(r[k], entree[k]));
                            if k != k0 && r[k].id@ == id@ {
                                if k < k0 {
                                    assert(entree[k].id@ != id@);
                                } else {
                                    assert(r[k0 as int].id@ == r[k].id@);
                                    assert(!premier_de_son_nom(r, k));
                                }
                            }
                        }
                        assert(identifiants(r)[k0 as int] == id@);
                    }
                    surcharges.push(id.clone());
                    assert(vues(surcharges@) =~= selon_presence(cs.take(n + 1), identifiants(r), true));
                    assert(vues(inutilisees@) =~= messages_avant + selon_presence(cs.take(n + 1), identifiants(r), false).map_values(
                        |id: Seq<char>| message_surcharge(id),
                    ));
                },
            }
            n += 1;
        }
        assert(cs.take(cs.len() as int) =~= cs);
        assert(self.medias@.take(self.medias@.len() as int) =~= self.medias@);
        assert(vues(inutilisees@) =~= inutilisees_attendues(*self, avant));
        proof {
            let r = gardes_par(*self, avant);
            lemme_identifiants_gardes(avant, ex);
            loi_inutilisees_comptees(*self, avant);
            assert forall|k: int| 0 <= k < medias@.len() implies identifiants(medias@)[k] == identifiants(r)[k] by {
                assert(meme_media(r[k], medias@[k]));
            }
            assert(identifiants(medias@) =~= identifiants(r));
            assert(vues(inutilisees@).len() == inutilisees@.len());
        }
        Journal {
            medias_surcharges: surcharges,
            exclus,
            lots_appliques: lots_faits,
            inutilisees,
            repartitions: reparties,
        }
    }
}


// ---------------------------------------------------------------------------
// Lois
// ---------------------------------------------------------------------------

proof fn lemme_identifiants_gardes(r: Seq<Media>, ex: Seq<Seq<char>>)
    ensures
        identifiants(gardes(r, ex)) == selon_presence(identifiants(r), ex, false),
    decreases r.len(),
{
    if r.len() > 0 {
        lemme_identifiants_gardes(r.drop_last(), ex);
        assert(identifiants(r).drop_last() =~= identifiants(r.drop_last()));
        assert(identifiants(r).last() == r.last().id@);
        if !ex.contains(r.last().id@) {
            assert(identifiants(gardes(r, ex)) =~= identifiants(gardes(r.drop_last(), ex)).push(r.last().id@));
        }
    } else {
        assert(identifiants(r) =~= Seq::<Seq<char>>::empty());
        assert(identifiants(gardes(r, ex)) =~= Seq::<Seq<char>>::empty());
    }
}

/// La position que pose le dernier lot qui désigne ce fichier et en porte
/// une, s'il y en a.
pub open spec fn position_des_lots(lots: Seq<Lot>, fichier: Seq<char>) -> Option<Position>
    decreases lots.len(),
{
    if lots.len() == 0 {
        None
    } else if touche(lots.last(), fichier) && lots.last().position is Some {
        lots.last().position
    } else {
        position_des_lots(lots.drop_last(), fichier)
    }
}

proof fn lemme_position_apres_lots(e: EtatMedia, fichier: Seq<char>, lots: Seq<Lot>, fuseau: Seq<char>)
    ensures
        apres_lots(e, fichier, lots, fuseau).position == match position_des_lots(lots, fichier) {
            Some(p) => Some(p),
            None => e.position,
        },
        position_des_lots(lots, fichier) is Some ==> {
            &&& apres_lots(e, fichier, lots, fuseau).fiabilite == Fiabilite::Haute
            &&& apres_lots(e, fichier, lots, fuseau).origine_position == Some(OriginePosition::Override)
            &&& !apres_lots(e, fichier, lots, fuseau).anomalies.contains(Anomalie::AltitudeNulle)
        },
    decreases lots.len(),
{
    if lots.len() > 0 {
        lemme_position_apres_lots(e, fichier, lots.drop_last(), fuseau);
        let avant = apres_lots(e, fichier, lots.drop_last(), fuseau);
        if touche(lots.last(), fichier) {
            let l = lots.last();
            let e1 = match l.prise_le {
                Some(p) => EtatMedia { prise_le: Some(p), jour: jour_de_l_instant(p, fuseau), ..avant },
                None => avant,
            };
            let e2 = match l.jour {
                Some(j) => EtatMedia { jour: Some(j), ..e1 },
                None => e1,
            };
            lemme_sans(e2.anomalies, Anomalie::AltitudeNulle, Anomalie::AltitudeNulle);
        }
    }
}

/// Qui fixe la position d'un média : sa correction individuelle, si elle en
/// porte une ; sinon le dernier lot qui désigne son fichier et en porte une ;
/// sinon elle reste celle du scan. Toute position ainsi posée rend le média
/// fiable, d'origine manuelle, et ôte l'anomalie d'altitude nulle.
pub proof fn loi_priorite_des_positions(r: Seq<Media>, k: int, o: Overrides, fuseau: Seq<char>)
    requires
        0 <= k < r.len(),
    ensures
        ({
            let individuelle = if premier_de_son_nom(r, k) {
                match surcharge_de(o.medias@, r[k].id@) {
                    Some(s) => s.position,
                    None => None,
                }
            } else {
                None
            };
            let attendue = match individuelle {
                Some(p) => Some(p),
                None => match position_des_lots(o.lots@, r[k].fichier_source@) {
                    Some(p) => Some(p),
                    None => r[k].position,
                },
            };
            &&& etat_final(r, k, o, fuseau).position == attendue
            &&& (individuelle is Some || position_des_lots(o.lots@, r[k].fichier_source@) is Some) ==> {
                &&& etat_final(r, k, o, fuseau).fiabilite == Fiabilite::Haute
                &&& etat_final(r, k, o, fuseau).origine_position == Some(OriginePosition::Override)
                &&& !etat_final(r, k, o, fuseau).anomalies.contains(Anomalie::AltitudeNulle)
            }
        }),
{
    let e = apres_lots(etat(r[k]), r[k].fichier_source@, o.lots@, fuseau);
    lemme_position_apres_lots(etat(r[k]), r[k].fichier_source@, o.lots@, fuseau);
    if premier_de_son_nom(r, k) {
        if let Some(s) = surcharge_de(o.medias@, r[k].id@) {
            let e1 = match s.prise_le {
                Some(p) => EtatMedia {
                    prise_le: Some(p),
                    jour: jour_de_l_instant(p, fuseau),
                    anomalies: sans(e.anomalies, Anomalie::NomMenteur),
                    ..e
                },
                None => e,
            };
            let e2 = match s.jour {
                Some(j) => EtatMedia { jour: Some(j), ..e1 },
                None => e1,
            };
            lemme_sans(e2.anomalies, Anomalie::AltitudeNulle, Anomalie::AltitudeNulle);
            lemme_sans(e.anomalies, Anomalie::NomMenteur, Anomalie::AltitudeNulle);
        }
    }
}

/// Une correction individuelle l'emporte sur tout lot qui couvrirait le même
/// média : la position, la date et le jour qu'elle porte sont ceux du média
/// au final, quels que soient les lots.
pub proof fn loi_correction_prime_sur_lot(r: Seq<Media>, k: int, o: Overrides, s: SurchargeMedia, fuseau: Seq<char>)
    requires
        0 <= k < r.len(),
        premier_de_son_nom(r, k),
        surcharge_de(o.medias@, r[k].id@) == Some(s),
    ensures
        s.position matches Some(p) ==> {
            &&& etat_final(r, k, o, fuseau).position == Some(p)
            &&& etat_final(r, k, o, fuseau).fiabilite == Fiabilite::Haute
            &&& etat_final(r, k, o, fuseau).origine_position == Some(OriginePosition::Override)
        },
        s.prise_le matches Some(p) ==> etat_final(r, k, o, fuseau).prise_le == Some(p),
        s.jour matches Some(j) ==> etat_final(r, k, o, fuseau).jour == Some(j),
        s.jour is None ==> (s.prise_le matches Some(p) ==> etat_final(r, k, o, fuseau).jour == jour_de_l_instant(p, fuseau)),
{
}

/// Aucun média exclu ne reste, et tout média que nulle exclusion ne vise
/// reste, dans son ordre.
pub proof fn loi_exclusions(avant: Seq<Media>, exclusions: Seq<Seq<char>>)
    ensures
        forall|k: int| 0 <= k < gardes(avant, exclusions).len() ==> !exclusions.contains(
            (#[trigger] gardes(avant, exclusions)[k]).id@,
        ),
        forall|k: int| 0 <= k < gardes(avant, exclusions).len() ==> avant.contains(
            #[trigger] gardes(avant, exclusions)[k],
        ),
        forall|i: int| 0 <= i < avant.len() && !exclusions.contains((#[trigger] avant[i]).id@) ==> gardes(
            avant,
            exclusions,
        ).contains(avant[i]),
    decreases avant.len(),
{
    if avant.len() > 0 {
        loi_exclusions(avant.drop_last(), exclusions);
        let g = gardes(avant, exclusions);
        let g0 = gardes(avant.drop_last(), exclusions);
        assert forall|k: int| 0 <= k < g.len() implies avant.contains(#[trigger] g[k]) by {
            if k < g0.len() {
                assert(avant.drop_last().contains(g0[k]));
                let t = choose|t: int| 0 <= t < avant.drop_last().len() && avant.drop_last()[t] == g0[k];
                assert(avant[t] == g[k]);
            } else {
                assert(avant[avant.len() - 1] == g[k]);
            }
        }
        assert forall|i: int| 0 <= i < avant.len() && !exclusions.contains((#[trigger] avant[i]).id@) implies g.contains(avant[i]) by {
            if i < avant.len() - 1 {
                assert(avant.drop_last()[i] == avant[i]);
                let t = choose|t: int| 0 <= t < g0.len() && g0[t] == avant[i];
                assert(g[t] == avant[i]);
            } else {
                assert(g[g.len() - 1] == avant[i]);
            }
        }
    }
}

/// Chaque exclusion est soit appliquée, soit signalée comme inutile : le
/// journal n'en perd aucune.
pub proof fn loi_exclusions_comptees(noms: Seq<Seq<char>>, ids: Seq<Seq<char>>)
    ensures
        selon_presence(noms, ids, true).len() + selon_presence(noms, ids, false).len() == noms.len(),
    decreases noms.len(),
{
    if noms.len() > 0 {
        loi_exclusions_comptees(noms.drop_last(), ids);
    }
}

proof fn lemme_inserer_cle_borne(s: Seq<Cle>, x: Cle, b: Cle)
    requires
        forall|q: int| 0 <= q < s.len() ==> !cle_inf(#[trigger] s[q], b),
        !cle_inf(x, b),
    ensures
        inserer_cle(s, x).len() == s.len() + 1,
        forall|q: int| 0 <= q < inserer_cle(s, x).len() ==> !cle_inf(#[trigger] inserer_cle(s, x)[q], b),
    decreases s.len(),
{
    if s.len() > 0 && !cle_inf(x, s[0]) {
        assert forall|q: int| 0 <= q < s.drop_first().len() implies !cle_inf(#[trigger] s.drop_first()[q], b) by {
            assert(s.drop_first()[q] == s[q + 1]);
        }
        lemme_inserer_cle_borne(s.drop_first(), x, b);
        let u = inserer_cle(s.drop_first(), x);
        assert forall|q: int| 0 <= q < inserer_cle(s, x).len() implies !cle_inf(#[trigger] inserer_cle(s, x)[q], b) by {
            if q > 0 {
                assert(inserer_cle(s, x)[q] == u[q - 1]);
            }
        }
    } else if s.len() > 0 {
        assert forall|q: int| 0 <= q < inserer_cle(s, x).len() implies !cle_inf(#[trigger] inserer_cle(s, x)[q], b) by {
            if q > 0 {
                assert(inserer_cle(s, x)[q] == s[q - 1]);
            }
        }
    }
}

/// Suite rangée : aucun élément ne précède strictement un élément placé
/// avant lui.
pub open spec fn range(t: Seq<Cle>) -> bool {
    forall|i: int, j: int| 0 <= i < j < t.len() ==> !cle_inf(#[trigger] t[j], #[trigger] t[i])
}

proof fn lemme_cle_transitif(a: Cle, b: Cle, c: Cle)
    ensures
        !cle_inf(a, a),
        cle_inf(a, b) && cle_inf(b, c) ==> cle_inf(a, c),
{
    crate::ordre::lemme_irreflexif(a.1);
    if cle_inf(a, b) && cle_inf(b, c) && a.0 == b.0 && b.0 == c.0 {
        crate::ordre::lemme_transitif(a.1, b.1, c.1);
    }
}

proof fn lemme_inserer_range(s: Seq<Cle>, x: Cle)
    requires
        range(s),
    ensures
        range(inserer_cle(s, x)),
    decreases s.len(),
{
    if s.len() == 0 {
    } else if cle_inf(x, s[0]) {
        let t = inserer_cle(s, x);
        assert(t =~= seq![x] + s);
        assert forall|i: int, j: int| 0 <= i < j < t.len() implies !cle_inf(#[trigger] t[j], #[trigger] t[i]) by {
            if i == 0 {
                assert(t[j] == s[j - 1]);
                lemme_cle_transitif(s[j - 1], x, s[0]);
                if j - 1 > 0 {
                    assert(!cle_inf(s[j - 1], s[0]));
                }
            } else {
                assert(t[i] == s[i - 1] && t[j] == s[j - 1]);
            }
        }
    } else {
        let d = s.drop_first();
        assert forall|i: int, j: int| 0 <= i < j < d.len() implies !cle_inf(#[trigger] d[j], #[trigger] d[i]) by {
            assert(d[i] == s[i + 1] && d[j] == s[j + 1]);
        }
        lemme_inserer_range(d, x);
        assert forall|q: int| 0 <= q < d.len() implies !cle_inf(#[trigger] d[q], s[0]) by {
            assert(d[q] == s[q + 1]);
        }
        lemme_inserer_cle_borne(d, x, s[0]);
        let u = inserer_cle(d, x);
        let t = inserer_cle(s, x);
        assert(t =~= seq![s[0]] + u);
        assert forall|i: int, j: int| 0 <= i < j < t.len() implies !cle_inf(#[trigger] t[j], #[trigger] t[i]) by {
            if i == 0 {
                assert(t[j] == u[j - 1]);
            } else {
                assert(t[i] == u[i - 1] && t[j] == u[j - 1]);
            }
        }
    }
}

proof fn lemme_inserer_cle_longueur(s: Seq<Cle>, x: Cle)
    ensures
        inserer_cle(s, x).len() == s.len() + 1,
    decreases s.len(),
{
    if s.len() > 0 && !cle_inf(x, s[0]) {
        lemme_inserer_cle_longueur(s.drop_first(), x);
    }
}

/// Les médias d'une répartition sont rangés : aucun ne précède strictement,
/// par son horodatage puis son nom, un média placé avant lui.
pub proof fn loi_repartition_rangee(t: Seq<Cle>)
    ensures
        range(tri_stable(t)),
        tri_stable(t).len() == t.len(),
    decreases t.len(),
{
    if t.len() > 0 {
        loi_repartition_rangee(t.drop_last());
        lemme_inserer_range(tri_stable(t.drop_last()), t.last());
        lemme_inserer_cle_longueur(tri_stable(t.drop_last()), t.last());
    }
}

proof fn lemme_sans(s: Seq<Anomalie>, a: Anomalie, x: Anomalie)
    ensures
        !sans(s, a).contains(a),
        !s.contains(x) ==> !sans(s, a).contains(x),
    decreases s.len(),
{
    if s.len() > 0 {
        let t = s.drop_last();
        lemme_sans(t, a, x);
        assert(!s.contains(x) ==> !t.contains(x)) by {
            if t.contains(x) {
                let i = choose|i: int| 0 <= i < t.len() && t[i] == x;
                assert(s[i] == x);
            }
        }
        if s.last() != a {
            let u = sans(t, a);
            assert forall|y: Anomalie| #[trigger] u.push(s.last()).contains(y) implies u.contains(y) || y == s.last() by {
                let i = choose|i: int| 0 <= i < u.push(s.last()).len() && u.push(s.last())[i] == y;
                if i < u.len() {
                    assert(u[i] == y);
                }
            }
            assert(!s.contains(x) ==> s.last() != x);
        }
    }
}

proof fn lemme_dernier_lot(e: EtatMedia, fichier: Seq<char>, lots: Seq<Lot>, fuseau: Seq<char>, j: int, p: Position)
    requires
        0 <= j < lots.len(),
        touche(lots[j], fichier),
        lots[j].position == Some(p),
        forall|i: int| j < i < lots.len() && touche(#[trigger] lots[i], fichier) ==> lots[i].position is None,
    ensures
        apres_lots(e, fichier, lots, fuseau).position == Some(p),
        apres_lots(e, fichier, lots, fuseau).fiabilite == Fiabilite::Haute,
        apres_lots(e, fichier, lots, fuseau).origine_position == Some(OriginePosition::Override),
        !apres_lots(e, fichier, lots, fuseau).anomalies.contains(Anomalie::AltitudeNulle),
    decreases lots.len(),
{
    let avant = apres_lots(e, fichier, lots.drop_last(), fuseau);
    if j == lots.len() - 1 {
        let lot = lots.last();
        let e1 = match lot.prise_le {
            Some(q) => EtatMedia { prise_le: Some(q), jour: jour_de_l_instant(q, fuseau), ..avant },
            None => avant,
        };
        let e2 = match lot.jour {
            Some(d) => EtatMedia { jour: Some(d), ..e1 },
            None => e1,
        };
        lemme_sans(e2.anomalies, Anomalie::AltitudeNulle, Anomalie::AltitudeNulle);
    } else {
        assert forall|i: int| j < i < lots.drop_last().len() && touche(#[trigger] lots.drop_last()[i], fichier) implies lots.drop_last()[i].position is None by {
            assert(lots.drop_last()[i] == lots[i]);
        }
        assert(lots.drop_last()[j] == lots[j]);
        lemme_dernier_lot(e, fichier, lots.drop_last(), fuseau, j, p);
    }
}

/// Sans correction individuelle de position, le dernier lot qui désigne le
/// fichier et porte une position la pose : le média devient fiable, sa
/// position d'origine manuelle, et l'altitude nulle cesse d'être une
/// anomalie.
pub proof fn loi_lot_pose(r: Seq<Media>, k: int, o: Overrides, fuseau: Seq<char>, j: int, p: Position)
    requires
        0 <= k < r.len(),
        0 <= j < o.lots@.len(),
        touche(o.lots@[j], r[k].fichier_source@),
        o.lots@[j].position == Some(p),
        forall|i: int|
            j < i < o.lots@.len() && touche(#[trigger] o.lots@[i], r[k].fichier_source@) ==> o.lots@[i].position is None,
        surcharge_de(o.medias@, r[k].id@) matches Some(s) ==> s.position is None,
    ensures
        etat_final(r, k, o, fuseau).position == Some(p),
        etat_final(r, k, o, fuseau).fiabilite == Fiabilite::Haute,
        etat_final(r, k, o, fuseau).origine_position == Some(OriginePosition::Override),
        !etat_final(r, k, o, fuseau).anomalies.contains(Anomalie::AltitudeNulle),
{
    let e = apres_lots(etat(r[k]), r[k].fichier_source@, o.lots@, fuseau);
    lemme_dernier_lot(etat(r[k]), r[k].fichier_source@, o.lots@, fuseau, j, p);
    lemme_sans(e.anomalies, Anomalie::NomMenteur, Anomalie::AltitudeNulle);
}

proof fn lemme_premier_invalide(p: Seq<[i64; 2]>)
    ensures
        premier_invalide(p) is None <==> forall|q: int| 0 <= q < p.len() ==> coordonnee_valide(#[trigger] p[q]),
    decreases p.len(),
{
    if p.len() > 0 {
        lemme_premier_invalide(p.drop_first());
        if premier_invalide(p) is None {
            assert forall|q: int| 0 <= q < p.len() implies coordonnee_valide(#[trigger] p[q]) by {
                if q > 0 {
                    assert(p[q] == p.drop_first()[q - 1]);
                }
            }
        } else if coordonnee_valide(p[0]) {
            let q = choose|q: int| 0 <= q < p.drop_first().len() && !coordonnee_valide(#[trigger] p.drop_first()[q]);
            assert(p[q + 1] == p.drop_first()[q]);
        }
    }
}

proof fn indice_premier_segment(o: Overrides, n: int) -> (i: int)
    requires
        0 <= n <= o.segments@.len(),
        exists|k: int| 0 <= k < n && (#[trigger] erreur_segment(o.segments@[k])) is Some,
    ensures
        0 <= i < n,
        erreur_segment(o.segments@[i]) is Some,
        forall|k: int| 0 <= k < i ==> (#[trigger] erreur_segment(o.segments@[k])) is None,
    decreases n,
{
    if exists|k: int| 0 <= k < n - 1 && (#[trigger] erreur_segment(o.segments@[k])) is Some {
        indice_premier_segment(o, n - 1)
    } else {
        n - 1
    }
}

proof fn indice_premier_itineraire(o: Overrides, n: int) -> (i: int)
    requires
        0 <= n <= o.itineraires@.len(),
        exists|k: int| 0 <= k < n && (#[trigger] erreur_itineraire(o.itineraires@[k])) is Some,
    ensures
        0 <= i < n,
        erreur_itineraire(o.itineraires@[i]) is Some,
        forall|k: int| 0 <= k < i ==> (#[trigger] erreur_itineraire(o.itineraires@[k])) is None,
    decreases n,
{
    if exists|k: int| 0 <= k < n - 1 && (#[trigger] erreur_itineraire(o.itineraires@[k])) is Some {
        indice_premier_itineraire(o, n - 1)
    } else {
        n - 1
    }
}

/// Un fichier de surcharges est accepté si et seulement si aucun motif de
/// lot n'est vide, chaque segment a au moins deux points, et chaque point,
/// des segments comme des points de passage, est dans ses limites.
pub proof fn loi_valider(o: Overrides)
    ensures
        premiere_erreur(o) is None <==> {
            &&& forall|i: int| 0 <= i < o.lots@.len() ==> !motif_vide((#[trigger] o.lots@[i]).motif@)
            &&& forall|i: int|
                0 <= i < o.segments@.len() ==> (#[trigger] o.segments@[i]).points@.len() >= 2 && forall|q: int|
                    0 <= q < o.segments@[i].points@.len() ==> coordonnee_valide(#[trigger] o.segments@[i].points@[q])
            &&& forall|i: int|
                0 <= i < o.itineraires@.len() ==> forall|q: int|
                    0 <= q < (#[trigger] o.itineraires@[i]).points_de_passage@.len() ==> coordonnee_valide(
                        #[trigger] o.itineraires@[i].points_de_passage@[q],
                    )
        },
{
    assert forall|i: int| 0 <= i < o.segments@.len() implies (#[trigger] erreur_segment(o.segments@[i]) is None <==> (
    o.segments@[i].points@.len() >= 2 && forall|q: int|
        0 <= q < o.segments@[i].points@.len() ==> coordonnee_valide(#[trigger] o.segments@[i].points@[q]))) by {
        lemme_premier_invalide(o.segments@[i].points@);
    }
    assert forall|i: int| 0 <= i < o.itineraires@.len() implies (#[trigger] erreur_itineraire(o.itineraires@[i]) is None <==> (
    forall|q: int|
        0 <= q < o.itineraires@[i].points_de_passage@.len() ==> coordonnee_valide(
            #[trigger] o.itineraires@[i].points_de_passage@[q],
        ))) by {
        lemme_premier_invalide(o.itineraires@[i].points_de_passage@);
    }
    let lots_ok = forall|i: int| 0 <= i < o.lots@.len() ==> !motif_vide((#[trigger] o.lots@[i]).motif@);
    let segs_ok = forall|i: int| 0 <= i < o.segments@.len() ==> (#[trigger] erreur_segment(o.segments@[i])) is None;
    let itis_ok = forall|i: int| 0 <= i < o.itineraires@.len() ==> (#[trigger] erreur_itineraire(o.itineraires@[i])) is None;
    if !lots_ok {
        assert(premiere_erreur(o) == Some(ErreurOverrides::MotifVide));
    } else if !segs_ok {
        let i = indice_premier_segment(o, o.segments@.len() as int);
        lemme_premiere_segment(o, i);
        assert(!(o.segments@[i].points@.len() >= 2 && forall|q: int|
            0 <= q < o.segments@[i].points@.len() ==> coordonnee_valide(#[trigger] o.segments@[i].points@[q])));
    } else if !itis_ok {
        let i = indice_premier_itineraire(o, o.itineraires@.len() as int);
        lemme_premiere_itineraire(o, i);
        assert(!(forall|q: int|
            0 <= q < o.itineraires@[i].points_de_passage@.len() ==> coordonnee_valide(
                #[trigger] o.itineraires@[i].points_de_passage@[q],
            )));
    } else {
        assert(premiere_erreur(o) is None);
        assert forall|i: int| 0 <= i < o.segments@.len() implies (#[trigger] o.segments@[i]).points@.len() >= 2
            && forall|q: int| 0 <= q < o.segments@[i].points@.len() ==> coordonnee_valide(
            #[trigger] o.segments@[i].points@[q],
        ) by {
            assert(erreur_segment(o.segments@[i]) is None);
        }
        assert forall|i: int| 0 <= i < o.itineraires@.len() implies forall|q: int|
            0 <= q < (#[trigger] o.itineraires@[i]).points_de_passage@.len() ==> coordonnee_valide(
                #[trigger] o.itineraires@[i].points_de_passage@[q],
            ) by {
            assert(erreur_itineraire(o.itineraires@[i]) is None);
        }
    }
}

/// Le journal nomme une fois chaque surcharge inutile : chaque exclusion
/// sans média, chaque lot qui ne touche aucun fichier gardé, chaque
/// correction qui ne vise aucun média gardé.
pub proof fn loi_inutilisees_comptees(o: Overrides, avant: Seq<Media>)
    ensures
        inutilisees_attendues(o, avant).len() == selon_presence(vues(o.exclusions@), identifiants(avant), false).len()
            + messages_lots(o.lots@, gardes_par(o, avant)).len() + selon_presence(
            cles(o.medias@),
            identifiants(gardes_par(o, avant)),
            false,
        ).len(),
{
}

} // verus!
