//! Les médias inventoriés : leur modèle, leur datation, leur assemblage.
//!
//! La lecture du dossier et des EXIF se fait au bord, hors de ce module ;
//! ici, chaque fichier arrive avec son nom analysé et ce que l'EXIF en a dit,
//! et devient un `Media` daté.

use vstd::prelude::*;
use vstd::string::StringExecFns;

use crate::texte::decimal;
use crate::calendrier::{jour_de, jour_de_exec, jours_civils, secondes_naives, secondes_naives_exec, DateHeure};
use crate::derive::Derives;
use crate::fuseau::{decalage_a, decalage_local, decalage_local_au_plus_tot, decalage_universel};
use crate::noms::{self, Convention, NomAnalyse};

verus! {

#[derive(Debug, Clone, Copy, PartialEq, Eq, Structural)]
pub enum TypeMedia {
    Photo,
    Video,
}

/// D'où vient la date de prise de vue.
#[derive(Debug, Clone, Copy, PartialEq, Eq, Structural)]
pub enum OrigineDate {
    /// Cas normal : l'EXIF fait foi.
    Exif,
    /// Dernier recours : aucun EXIF lisible, le nom porte la date.
    Nom,
    Absente,
}

/// D'où vient la position.
#[derive(Debug, Clone, Copy, PartialEq, Eq, Structural)]
pub enum OriginePosition {
    Exif,
    Override,
    Heritee,
    Interpolee,
    /// Reposée sur la trace entre deux positions fiables.
    Posee,
}

#[derive(Debug, Clone, Copy, PartialEq, Eq, Structural)]
pub enum Fiabilite {
    Haute,
    Basse,
    Absente,
}

/// Motif documenté d'une suspicion.
#[derive(Debug, Clone, Copy, PartialEq, Eq, Structural)]
pub enum Anomalie {
    /// Altitude absente ou strictement nulle, donc position réseau.
    AltitudeNulle,
    /// Position d'un autre média pris à plus de vingt minutes d'écart.
    PositionClonee,
    /// Le nom porte un autre jour que l'EXIF.
    NomMenteur,
    /// Horloge de l'appareil manifestement fausse.
    HorlogePerdue,
    /// Homonyme d'un autre fichier du dossier source.
    Homonyme,
    /// L'identifiant diffère du nom d'origine.
    NomNormalise,
    /// Aucun bloc EXIF dans le fichier.
    ExifAbsent,
    /// Date lue dans le nom, faute d'EXIF.
    DateDuNom,
    /// Bloc GPS sans référence d'hémisphère lisible.
    HemisphereAbsent,
}

/// Une position : latitude et longitude en dix-millionièmes de degré,
/// altitude en millimètres. Une altitude vaut zéro si et seulement si elle
/// est strictement nulle au sens de C1 : la lecture porte à un millimètre,
/// de son signe, une altitude non nulle qui s'arrondirait à zéro.
#[derive(Debug, Clone, Copy, PartialEq, Eq, Structural)]
pub struct Position {
    pub lat: i64,
    pub lon: i64,
    pub alt: Option<i64>,
}

/// Un instant : secondes depuis l'époque, en temps universel, et le décalage
/// sous lequel il a été lu. Deux instants se comparent par `utc`.
#[derive(Debug, Clone, Copy, PartialEq, Eq, Structural)]
pub struct Instant {
    pub utc: i64,
    pub decalage: i32,
}

/// Un média inventorié.
#[derive(Debug, Clone)]
pub struct Media {
    pub id: String,
    pub type_media: TypeMedia,
    pub fichier_source: String,
    pub prise_le: Option<Instant>,
    pub origine_date: OrigineDate,
    /// Jour civil de la prise de vue, dans le fuseau du voyage.
    pub jour: Option<i64>,
    pub position: Option<Position>,
    pub fiabilite: Fiabilite,
    pub origine_position: Option<OriginePosition>,
    pub lieu: Option<String>,
    pub publie: bool,
    pub derives: Option<Derives>,
    pub lqip: Option<String>,
    pub anomalies: Vec<Anomalie>,
    pub largeur: Option<u32>,
    pub hauteur: Option<u32>,
    pub orientation: Option<u16>,
    pub appareil: Option<String>,
    /// Métadonnées internes, utiles aux statistiques.
    pub convention: Convention,
    pub octets: u64,
}

/// Ce que la lecture des métadonnées a donné. Une lecture impossible n'est
/// pas une erreur : c'est un fichier sans EXIF.
#[derive(Debug, Clone)]
pub struct LectureExif {
    /// Horodatage EXIF, en secondes depuis l'époque, lu comme une heure
    /// universelle.
    pub prise_le: Option<i64>,
    /// `OffsetTimeOriginal`, en secondes, quand l'EXIF le porte.
    pub decalage: Option<i32>,
    pub position: Option<Position>,
    pub hemisphere_absent: bool,
    pub appareil: Option<String>,
    pub largeur: Option<u32>,
    pub hauteur: Option<u32>,
    pub orientation: Option<u16>,
    /// Vrai si un bloc de métadonnées a pu être lu.
    pub presente: bool,
}

/// Les horodatages lisibles sont ceux de `chrono` : à quelques millions
/// d'années de l'époque. Cette borne-là les couvre tous.
pub open spec fn naif_lisible(naif: int) -> bool {
    -10_000_000_000_000 < naif < 10_000_000_000_000
}

/// Un instant dans la même plage, à un jour près.
pub open spec fn instant_lisible(utc: int) -> bool {
    -100_000_000_000_000 < utc < 100_000_000_000_000
}

/// L'instant d'un horodatage local. Si l'EXIF portait son décalage, il fait
/// foi ; sinon l'heure est lue dans le fuseau du voyage ; dans un saut
/// d'heure d'été, l'heure est prise pour une heure universelle, sous le
/// décalage du fuseau à cet instant.
pub open spec fn ancrage(naif: int, decalage_connu: Option<int>, fuseau: Seq<char>) -> Option<Instant> {
    match decalage_connu {
        Some(d) => Some(Instant { utc: (naif - d) as i64, decalage: d as i32 }),
        None => match decalage_local_au_plus_tot(fuseau, naif) {
            Some(d) => Some(Instant { utc: (naif - d) as i64, decalage: d as i32 }),
            None => match decalage_universel(fuseau, naif) {
                Some(d) => Some(Instant { utc: naif as i64, decalage: d as i32 }),
                None => None,
            },
        },
    }
}

pub open spec fn decalage_valide(d: Option<i32>) -> bool {
    d matches Some(x) ==> -86400 < x < 86400
}

/// Ancre un horodatage dans le temps. Rien seulement si le fuseau est inconnu.
pub fn ancrer(naif: i64, decalage_connu: Option<i32>, fuseau: &str) -> (r: Option<Instant>)
    requires
        naif_lisible(naif as int),
        decalage_valide(decalage_connu),
    ensures
        r == ancrage(
            naif as int,
            match decalage_connu {
                Some(d) => Some(d as int),
                None => None,
            },
            fuseau@,
        ),
        r matches Some(i) ==> instant_lisible(i.utc as int),
{
    match decalage_connu {
        Some(d) => Some(Instant { utc: naif - d as i64, decalage: d }),
        None => match decalage_local(fuseau, naif) {
            Some(d) => Some(Instant { utc: naif - d as i64, decalage: d }),
            None => match decalage_a(fuseau, naif) {
                Some(d) => Some(Instant { utc: naif, decalage: d }),
                None => None,
            },
        },
    }
}

pub open spec fn en_entier(o: Option<i64>) -> Option<int> {
    match o {
        Some(x) => Some(x as int),
        None => None,
    }
}

/// Jour civil d'un instant, dans le fuseau du voyage.
pub open spec fn jour_local(utc: int, fuseau: Seq<char>) -> Option<int> {
    match decalage_universel(fuseau, utc) {
        Some(d) => Some(jour_de(utc + d)),
        None => None,
    }
}

pub fn jour_local_exec(utc: i64, fuseau: &str) -> (r: Option<i64>)
    requires
        instant_lisible(utc as int),
    ensures
        en_entier(r) == jour_local(utc as int, fuseau@),
{
    match decalage_a(fuseau, utc) {
        Some(d) => Some(jour_de_exec(utc + d as i64)),
        None => None,
    }
}


/// Date de prise de vue et son origine : l'EXIF, puis le nom, puis rien.
/// Jamais la date de modification du fichier.
pub open spec fn datation(
    naif: Option<i64>,
    decalage: Option<i32>,
    du_nom: Option<DateHeure>,
    fuseau: Seq<char>,
) -> (Option<Instant>, OrigineDate) {
    match naif {
        Some(n) => (
            ancrage(
                n as int,
                match decalage {
                    Some(d) => Some(d as int),
                    None => None,
                },
                fuseau,
            ),
            OrigineDate::Exif,
        ),
        None => match du_nom {
            Some(h) => (ancrage(secondes_naives(h), None, fuseau), OrigineDate::Nom),
            None => (None, OrigineDate::Absente),
        },
    }
}

/// Le nom porte une date, l'EXIF en porte une autre : l'EXIF gagne, l'écart
/// est signalé. La comparaison porte sur le jour, dans le fuseau du voyage.
pub open spec fn nom_menteur(
    origine: OrigineDate,
    convention: Convention,
    du_nom: Option<DateHeure>,
    prise_le: Option<Instant>,
    fuseau: Seq<char>,
) -> bool {
    &&& origine == OrigineDate::Exif
    &&& convention.porte_une_date_spec()
    &&& du_nom is Some
    &&& prise_le is Some
    &&& jour_local(prise_le.unwrap().utc as int, fuseau) != Some(
        jours_civils(
            du_nom.unwrap().annee as int,
            du_nom.unwrap().mois as int,
            du_nom.unwrap().jour as int,
        ),
    )
}

pub open spec fn si(b: bool, a: Anomalie) -> Seq<Anomalie> {
    if b {
        seq![a]
    } else {
        seq![]
    }
}

/// Anomalies posées à l'inventaire, dans cet ordre.
pub open spec fn anomalies_d_inventaire(
    nom: NomAnalyse,
    lecture: LectureExif,
    fuseau: Seq<char>,
) -> Seq<Anomalie> {
    let (prise_le, origine) = datation(lecture.prise_le, lecture.decalage, nom.horodatage, fuseau);
    si(nom.normalise, Anomalie::NomNormalise) + si(!lecture.presente, Anomalie::ExifAbsent) + si(
        lecture.hemisphere_absent,
        Anomalie::HemisphereAbsent,
    ) + si(origine == OrigineDate::Nom, Anomalie::DateDuNom) + si(
        nom_menteur(origine, nom.convention, nom.horodatage, prise_le, fuseau),
        Anomalie::NomMenteur,
    )
}

/// Chemin relatif écrit avec des barres obliques.
pub open spec fn chemin_unix(s: Seq<char>) -> Seq<char> {
    s.map_values(|c: char| if c == '\\' { '/' } else { c })
}

pub open spec fn lecture_lisible(lecture: LectureExif) -> bool {
    &&& lecture.prise_le matches Some(n) ==> naif_lisible(n as int)
    &&& decalage_valide(lecture.decalage)
}

fn chemin_unix_exec(s: &str) -> (r: String)
    ensures
        r@ == chemin_unix(s@),
{
    let c = crate::texte::en_caracteres(s);
    let mut v: Vec<char> = Vec::new();
    let mut i: usize = 0;
    while i < c.len()
        invariant
            i <= c.len(),
            c@ == s@,
            v@ == chemin_unix(s@).subrange(0, i as int),
        decreases c.len() - i,
    {
        v.push(if c[i] == '\\' { '/' } else { c[i] });
        i += 1;
        assert(v@ =~= chemin_unix(s@).subrange(0, i as int));
    }
    assert(v@ =~= chemin_unix(s@));
    crate::texte::en_chaine(&v)
}

/// Un fichier trouvé dans le dossier source, avec ce que l'on en a lu.
#[derive(Debug, Clone)]
pub struct FichierLu {
    /// Chemin complet, pour désigner le fichier dans un message.
    pub chemin: String,
    /// Chemin relatif au dossier source.
    pub relatif: String,
    pub nom: NomAnalyse,
    pub lecture: LectureExif,
    pub octets: u64,
}

/// `m` est le média que donnent ce fichier et ce fuseau.
#[verifier::opaque]
pub open spec fn est_construit(m: Media, f: FichierLu, fuseau: Seq<char>) -> bool {
    &&& m.id@ == f.nom.identifiant@
    &&& m.fichier_source@ == chemin_unix(f.relatif@)
    &&& m.type_media == (if noms::extension_parmi(chemin_unix(f.relatif@), noms::extensions_video()) {
            TypeMedia::Video
        } else {
            TypeMedia::Photo
        })
    &&& (m.prise_le, m.origine_date) == datation(f.lecture.prise_le, f.lecture.decalage, f.nom.horodatage, fuseau)
    &&& m.jour == (match m.prise_le {
            Some(p) => match jour_local(p.utc as int, fuseau) {
                Some(j) => Some(j as i64),
                None => None,
            },
            None => None,
        })
    &&& m.anomalies@ == anomalies_d_inventaire(f.nom, f.lecture, fuseau)
    &&& m.position == f.lecture.position
    &&& m.fiabilite == Fiabilite::Absente
    &&& m.origine_position == (if f.lecture.position is Some {
            Some(OriginePosition::Exif)
        } else {
            None
        })
    &&& m.lieu is None
    &&& m.publie
    &&& m.derives is None
    &&& m.lqip is None
    &&& m.largeur == f.lecture.largeur
    &&& m.hauteur == f.lecture.hauteur
    &&& m.orientation == f.lecture.orientation
    &&& m.appareil == f.lecture.appareil
    &&& m.convention == f.nom.convention
    &&& m.octets == f.octets
}

/// Assemble un média à partir de son nom et de ses métadonnées.
pub fn construire(f: FichierLu, fuseau: &str) -> (m: Media)
    requires
        lecture_lisible(f.lecture),
        f.nom.horodatage matches Some(h) ==> h.valide(),
    ensures
        est_construit(m, f, fuseau@),
{
    reveal(est_construit);
    let FichierLu { chemin: _, relatif, nom, lecture, octets } = f;
    let relatif = relatif.as_str();
    let mut anomalies: Vec<Anomalie> = Vec::new();
    if nom.normalise {
        anomalies.push(Anomalie::NomNormalise);
    }
    if !lecture.presente {
        anomalies.push(Anomalie::ExifAbsent);
    }
    if lecture.hemisphere_absent {
        anomalies.push(Anomalie::HemisphereAbsent);
    }

    let (prise_le, origine_date) = match lecture.prise_le {
        Some(naif) => (ancrer(naif, lecture.decalage, fuseau), OrigineDate::Exif),
        None => match nom.horodatage {
            Some(h) => {
                anomalies.push(Anomalie::DateDuNom);
                let naif = secondes_naives_exec(&h);
                (ancrer(naif, None, fuseau), OrigineDate::Nom)
            },
            None => (None, OrigineDate::Absente),
        },
    };
    let ghost avant = anomalies@;

    let jour = match prise_le {
        Some(p) => jour_local_exec(p.utc, fuseau),
        None => None,
    };

    if origine_date == OrigineDate::Exif && nom.convention.porte_une_date() {
        if let (Some(h), Some(_)) = (nom.horodatage, prise_le) {
            let jour_du_nom = crate::calendrier::jours_civils_exec(h.annee, h.mois, h.jour);
            if jour != Some(jour_du_nom) {
                anomalies.push(Anomalie::NomMenteur);
            }
        }
    }
    proof {
        let ghost attendu = anomalies_d_inventaire(nom, lecture, fuseau@);
        assert(anomalies@ =~= attendu);
    }

    let fichier_source = chemin_unix_exec(relatif);
    let type_media = if noms::est_video(fichier_source.as_str()) {
        TypeMedia::Video
    } else {
        TypeMedia::Photo
    };

    Media {
        id: nom.identifiant,
        type_media,
        fichier_source,
        prise_le,
        origine_date,
        jour,
        position: lecture.position,
        fiabilite: Fiabilite::Absente,
        origine_position: match lecture.position {
            Some(_) => Some(OriginePosition::Exif),
            None => None,
        },
        lieu: None,
        publie: true,
        derives: None,
        lqip: None,
        anomalies,
        largeur: lecture.largeur,
        hauteur: lecture.hauteur,
        orientation: lecture.orientation,
        appareil: lecture.appareil,
        convention: nom.convention,
        octets,
    }
}


// ---------------------------------------------------------------------------
// L'appareil
// ---------------------------------------------------------------------------

/// Indice du premier caractère non blanc à partir de `i`, ou la longueur.
pub open spec fn premier_non_blanc(s: Seq<char>, i: int) -> int
    decreases s.len() - i,
{
    if i < 0 || i >= s.len() {
        s.len() as int
    } else if crate::texte::blanc(s[i]) {
        premier_non_blanc(s, i + 1)
    } else {
        i
    }
}

/// Fin de la partie non blanche avant `j` : l'indice qui suit le dernier
/// caractère non blanc, ou zéro.
pub open spec fn fin_non_blanche(s: Seq<char>, j: int) -> int
    decreases j,
{
    if j <= 0 || j > s.len() {
        0
    } else if crate::texte::blanc(s[j - 1]) {
        fin_non_blanche(s, j - 1)
    } else {
        j
    }
}

/// Le texte sans ses blancs de tête et de queue.
pub open spec fn sans_blancs_autour(s: Seq<char>) -> Seq<char> {
    let d = premier_non_blanc(s, 0);
    let f = fin_non_blanche(s, s.len() as int);
    if d < f {
        s.subrange(d, f)
    } else {
        seq![]
    }
}

pub open spec fn commence_par(s: Seq<char>, p: Seq<char>) -> bool {
    p.len() <= s.len() && s.take(p.len() as int) == p
}

/// Le nom d'un appareil : la marque devant le modèle, sauf si le modèle la
/// porte déjà ; chacun sans ses blancs autour.
pub open spec fn appareil_spec(marque: Option<Seq<char>>, modele: Seq<char>) -> Seq<char> {
    match marque {
        Some(m) => if !commence_par(modele, m) {
            sans_blancs_autour(m) + " "@ + sans_blancs_autour(modele)
        } else {
            sans_blancs_autour(modele)
        },
        None => sans_blancs_autour(modele),
    }
}

proof fn lemme_premier_non_blanc(s: Seq<char>, i: int)
    requires
        0 <= i <= s.len(),
    ensures
        i <= premier_non_blanc(s, i) <= s.len(),
    decreases s.len() - i,
{
    if i < s.len() {
        lemme_premier_non_blanc(s, i + 1);
    }
}

proof fn lemme_fin_non_blanche(s: Seq<char>, j: int)
    requires
        0 <= j <= s.len(),
    ensures
        0 <= fin_non_blanche(s, j) <= j,
    decreases j,
{
    if j > 0 {
        lemme_fin_non_blanche(s, j - 1);
    }
}

fn sans_blancs_autour_exec(t: &str) -> (r: Vec<char>)
    ensures
        r@ == sans_blancs_autour(t@),
{
    let c = crate::texte::en_caracteres(t);
    let n = c.len();
    let mut d: usize = 0;
    while d < n && crate::texte::est_blanc(c[d])
        invariant
            d <= n,
            n == c@.len(),
            premier_non_blanc(c@, 0) == premier_non_blanc(c@, d as int),
        decreases n - d,
    {
        d += 1;
    }
    let mut f: usize = n;
    while f > 0 && crate::texte::est_blanc(c[f - 1])
        invariant
            f <= n,
            n == c@.len(),
            fin_non_blanche(c@, n as int) == fin_non_blanche(c@, f as int),
        decreases f,
    {
        f -= 1;
    }
    let mut r: Vec<char> = Vec::new();
    if d < f {
        let mut k = d;
        while k < f
            invariant
                d <= k <= f <= n,
                n == c@.len(),
                r@ == c@.subrange(d as int, k as int),
            decreases f - k,
        {
            r.push(c[k]);
            k += 1;
        }
    }
    assert(r@ =~= sans_blancs_autour(t@));
    r
}

/// Le nom de l'appareil, tel que l'EXIF le décrit par sa marque et son modèle.
pub fn nom_appareil(marque: Option<&str>, modele: &str) -> (r: String)
    ensures
        r@ == appareil_spec(
            match marque {
                Some(m) => Some(m@),
                None => None,
            },
            modele@,
        ),
{
    let mo = sans_blancs_autour_exec(modele);
    match marque {
        Some(m) => {
            let cm = crate::texte::en_caracteres(m);
            let cmo = crate::texte::en_caracteres(modele);
            let mut prefixe = cm.len() <= cmo.len();
            let mut k: usize = 0;
            while prefixe && k < cm.len()
                invariant
                    k <= cm@.len(),
                    prefixe ==> cm@.len() <= cmo@.len(),
                    prefixe ==> cmo@.take(k as int) == cm@.take(k as int),
                    !prefixe ==> !commence_par(cmo@, cm@),
                decreases cm@.len() - k,
            {
                if cm[k] != cmo[k] {
                    prefixe = false;
                    assert(cmo@.take(cm@.len() as int)[k as int] != cm@[k as int]);
                } else {
                    assert(cmo@.take(k + 1) =~= cmo@.take(k as int).push(cmo@[k as int]));
                    assert(cm@.take(k + 1) =~= cm@.take(k as int).push(cm@[k as int]));
                }
                k += 1;
            }
            if prefixe {
                assert(cm@.take(cm@.len() as int) =~= cm@);
                crate::texte::en_chaine(mo.as_slice())
            } else {
                let ma = sans_blancs_autour_exec(m);
                let mut v: Vec<char> = ma;
                v.push(' ');
                let mut k: usize = 0;
                let ghost base = v@;
                while k < mo.len()
                    invariant
                        k <= mo@.len(),
                        v@ == base + mo@.take(k as int),
                    decreases mo@.len() - k,
                {
                    v.push(mo[k]);
                    k += 1;
                    assert(v@ =~= base + mo@.take(k as int));
                }
                assert(mo@.take(mo@.len() as int) =~= mo@);
                proof {
                    reveal_strlit(" ");
                }
                assert(v@ =~= sans_blancs_autour(m@) + " "@ + sans_blancs_autour(modele@));
                crate::texte::en_chaine(v.as_slice())
            }
        },
        None => crate::texte::en_chaine(mo.as_slice()),
    }
}

/// Ce qui fait échouer l'inventaire.
#[derive(Debug, Clone)]
pub enum ErreurScan {
    /// Des identifiants portés par plusieurs fichiers. Aucun arbitrage
    /// automatique n'est fait.
    Collisions(Vec<noms::Collision>),
    /// Le dossier source est illisible.
    Parcours(String),
}

/// Les lignes des fichiers d'une collision, chacune en retrait.
pub open spec fn lignes_fichiers(fs: Seq<String>) -> Seq<char>
    decreases fs.len(),
{
    if fs.len() == 0 {
        seq![]
    } else {
        lignes_fichiers(fs.drop_last()) + "    "@ + fs.last()@ + "\n"@
    }
}

/// Le détail d'une collision : l'identifiant, puis ses fichiers.
pub open spec fn detail_collision(c: noms::Collision) -> Seq<char> {
    "  « "@ + c.identifiant@ + " » :\n"@ + lignes_fichiers(c.fichiers@)
}

/// Le détail des `n` premières collisions.
pub open spec fn details(cs: Seq<noms::Collision>, n: int) -> Seq<char>
    decreases n,
{
    if n <= 0 {
        seq![]
    } else {
        details(cs, n - 1) + detail_collision(cs[n - 1])
    }
}

/// Le détail des collisions : chacune, avec tous ses fichiers.
pub open spec fn detail_collisions(cs: Seq<noms::Collision>) -> Seq<char> {
    details(cs, cs.len() as int)
}

/// Le message d'une erreur d'inventaire.
pub open spec fn message_scan(e: ErreurScan) -> Seq<char> {
    match e {
        ErreurScan::Collisions(cs) => decimal(cs@.len())
            + " collisions d'identifiants. Aucun arbitrage automatique n'est fait : corriger dans overrides.yaml ou ajouter le dossier à dossiers_ignores.\n"@
            + detail_collisions(cs@),
        ErreurScan::Parcours(d) => "le dossier source "@ + d@ + " est illisible"@,
    }
}

fn ecrire_collision(c: &noms::Collision, r: &mut String)
    ensures
        final(r)@ == old(r)@ + detail_collision(*c),
{
    r.append("  « ");
    r.append(c.identifiant.as_str());
    r.append(" » :\n");
    let ghost base = r@;
    let mut i: usize = 0;
    while i < c.fichiers.len()
        invariant
            i <= c.fichiers@.len(),
            r@ == base + lignes_fichiers(c.fichiers@.take(i as int)),
        decreases c.fichiers@.len() - i,
    {
        r.append("    ");
        r.append(c.fichiers[i].as_str());
        r.append("\n");
        proof {
            assert(c.fichiers@.take(i + 1).drop_last() =~= c.fichiers@.take(i as int));
        }
        i += 1;
    }
    assert(c.fichiers@.take(i as int) =~= c.fichiers@);
}

impl ErreurScan {
    /// Le message de l'erreur, tel que la commande l'affiche.
    pub fn message(&self) -> (r: String)
        ensures
            r@ == message_scan(*self),
    {
        match self {
            ErreurScan::Collisions(cs) => {
                let mut r = crate::texte::ecrire_decimal(cs.len() as u64);
                r.append(" collisions d'identifiants. Aucun arbitrage automatique n'est fait : corriger dans overrides.yaml ou ajouter le dossier à dossiers_ignores.\n");
                let ghost base = r@;
                let n: usize = cs.len();
                let mut i: usize = 0;
                while i < n
                    invariant
                        i <= n <= cs@.len(),
                        r@ == base + details(cs@, i as int),
                    decreases n - i,
                {
                    ecrire_collision(&cs[i], &mut r);
                    i += 1;
                }
                r
            },
            ErreurScan::Parcours(d) => {
                let mut r = String::from_str("le dossier source ");
                r.append(d.as_str());
                r.append(" est illisible");
                r
            },
        }
    }
}

/// Identifiants et chemins des fichiers, dans leur ordre.
pub open spec fn entrees_de(f: Seq<FichierLu>) -> Seq<(String, String)> {
    f.map_values(|x: FichierLu| (x.nom.identifiant, x.chemin))
}

pub open spec fn identifiants_distincts(f: Seq<FichierLu>) -> bool {
    forall|i: int, j: int| 0 <= i < j < f.len() ==> (#[trigger] f[i]).nom.identifiant@ != (#[trigger] f[j]).nom.identifiant@
}

pub open spec fn tries_par_identifiant(v: Seq<Media>) -> bool {
    forall|i: int, j: int| 0 <= i < j < v.len() ==> crate::ordre::lex_inf((#[trigger] v[i]).id@, (#[trigger] v[j]).id@)
}

/// Insère un média à sa place, par identifiant.
fn inserer_media(v: &mut Vec<Media>, m: Media)
    requires
        tries_par_identifiant(old(v)@),
        forall|k: int| 0 <= k < old(v)@.len() ==> (#[trigger] old(v)@[k]).id@ != m.id@,
    ensures
        tries_par_identifiant(final(v)@),
        final(v)@.len() == old(v)@.len() + 1,
        exists|p: int| 0 <= p <= old(v)@.len() && final(v)@ == old(v)@.insert(p, m),
{
    let ghost avant = v@;
    let mut p: usize = 0;
    while p < v.len() && crate::ordre::lex_inf_exec(v[p].id.as_str(), m.id.as_str())
        invariant
            v@ == avant,
            p <= v.len(),
            forall|k: int| 0 <= k < p ==> crate::ordre::lex_inf(#[trigger] v@[k].id@, m.id@),
        decreases v.len() - p,
    {
        p += 1;
    }
    proof {
        if p < v.len() {
            crate::ordre::lemme_trichotomie(v@[p as int].id@, m.id@);
            assert forall|k: int| p < k < v@.len() implies crate::ordre::lex_inf(m.id@, #[trigger] v@[k].id@) by {
                crate::ordre::lemme_transitif(m.id@, v@[p as int].id@, v@[k].id@);
            }
        }
    }
    v.insert(p, m);
    assert forall|i: int, j: int| 0 <= i < j < v@.len() implies crate::ordre::lex_inf(
        (#[trigger] v@[i]).id@,
        (#[trigger] v@[j]).id@,
    ) by {
        if j < p {
            assert(crate::ordre::lex_inf(avant[i].id@, avant[j].id@));
        } else if j == p {
        } else if i < p {
            assert(crate::ordre::lex_inf(avant[i].id@, avant[j - 1].id@));
        } else if i == p {
        } else {
            assert(crate::ordre::lex_inf(avant[i - 1].id@, avant[j - 1].id@));
        }
    }
    assert(v@ == avant.insert(p as int, m));
}

/// `m` est construit d'un des fichiers.
pub open spec fn vient_d_un_fichier(m: Media, f: Seq<FichierLu>, fuseau: Seq<char>) -> bool {
    exists|i: int| 0 <= i < f.len() && est_construit(m, #[trigger] f[i], fuseau)
}

/// Le fichier `f` a donné un des médias.
pub open spec fn a_donne_un_media(v: Seq<Media>, f: FichierLu, fuseau: Seq<char>) -> bool {
    exists|k: int| 0 <= k < v.len() && est_construit(#[trigger] v[k], f, fuseau)
}

/// Chaque média est construit d'un des fichiers.
pub open spec fn chaque_media_vient_d_un_fichier(v: Seq<Media>, f: Seq<FichierLu>, fuseau: Seq<char>) -> bool {
    forall|k: int| 0 <= k < v.len() ==> vient_d_un_fichier(#[trigger] v[k], f, fuseau)
}

/// Chaque fichier a donné un des médias.
pub open spec fn chaque_fichier_donne_un_media(v: Seq<Media>, f: Seq<FichierLu>, fuseau: Seq<char>) -> bool {
    forall|i: int| 0 <= i < f.len() ==> a_donne_un_media(v, #[trigger] f[i], fuseau)
}

/// Construit et range les médias de fichiers aux identifiants distincts.
fn construire_tous(fichiers: Vec<FichierLu>, fuseau: &str) -> (v: Vec<Media>)
    requires
        identifiants_distincts(fichiers@),
        forall|i: int| 0 <= i < fichiers@.len() ==> lecture_lisible((#[trigger] fichiers@[i]).lecture),
        forall|i: int| 0 <= i < fichiers@.len() ==> ((#[trigger] fichiers@[i]).nom.horodatage matches Some(h) ==> h.valide()),
    ensures
        v@.len() == fichiers@.len(),
        tries_par_identifiant(v@),
        chaque_media_vient_d_un_fichier(v@, fichiers@, fuseau@),
        chaque_fichier_donne_un_media(v@, fichiers@, fuseau@),
{
    broadcast use vstd::seq_lib::to_multiset_insert, vstd::seq_lib::to_multiset_build, vstd::seq_lib::to_multiset_contains;
    let ghost tous = fichiers@;
    let ghost mut pris: Seq<Media> = Seq::empty();
    let mut medias: Vec<Media> = Vec::new();
    let mut reste = fichiers;
    // On consomme les fichiers depuis la fin : l'ordre d'arrivée est sans
    // effet, le rangement final se fait par identifiant.
    while reste.len() > 0
        invariant
            reste@ == tous.subrange(0, tous.len() - pris.len()),
            pris.len() <= tous.len(),
            medias@.len() == pris.len(),
            medias@.to_multiset() == pris.to_multiset(),
            identifiants_distincts(tous),
            tries_par_identifiant(medias@),
            forall|i: int| 0 <= i < tous.len() ==> lecture_lisible((#[trigger] tous[i]).lecture),
            forall|i: int| 0 <= i < tous.len() ==> ((#[trigger] tous[i]).nom.horodatage matches Some(h) ==> h.valide()),
            forall|k: int| 0 <= k < pris.len() ==> est_construit(#[trigger] pris[k], tous[tous.len() - 1 - k], fuseau@),
        decreases reste.len(),
    {
        let f = reste.pop().unwrap();
        let ghost indice = tous.len() - pris.len() - 1;
        assert(f == tous[indice]);
        let m = construire(f, fuseau);
        proof {
            assert forall|k: int| 0 <= k < medias@.len() implies (#[trigger] medias@[k]).id@ != m.id@ by {
                let x = medias@[k];
                assert(medias@.contains(x));
                vstd::seq_lib::to_multiset_contains(medias@, x);
                vstd::seq_lib::to_multiset_contains(pris, x);
                assert(medias@.to_multiset().count(x) > 0);
                assert(pris.to_multiset().count(x) > 0);
                assert(pris.contains(x));
                let t = choose|t: int| 0 <= t < pris.len() && pris[t] == x;
                lemme_construit_id(pris[t], tous[tous.len() - 1 - t], fuseau@);
                lemme_construit_id(m, tous[indice], fuseau@);
                assert(tous[tous.len() - 1 - t].nom.identifiant@ != tous[indice].nom.identifiant@);
            }
        }
        let ghost avant = medias@;
        inserer_media(&mut medias, m);
        proof {
            let p = choose|p: int| 0 <= p <= avant.len() && medias@ == avant.insert(p, m);
            vstd::seq_lib::to_multiset_insert(avant, p, m);
            vstd::seq_lib::to_multiset_build(pris, m);
            assert(medias@.to_multiset() == avant.to_multiset().insert(m));
            assert(pris.push(m).to_multiset() == pris.to_multiset().insert(m));
            pris = pris.push(m);
        }
    }
    proof {
        assert(reste@.len() == 0);
        assert(tous.subrange(0, tous.len() - pris.len()).len() == 0);
        lemme_correspondance(medias@, pris, tous, fuseau@);
    }
    medias
}

/// Une suite de médias qui a les mêmes éléments que ceux construits, un par
/// fichier, de la liste prise à rebours, correspond aux fichiers dans les
/// deux sens.
proof fn lemme_correspondance(medias: Seq<Media>, pris: Seq<Media>, tous: Seq<FichierLu>, fuseau: Seq<char>)
    requires
        medias.to_multiset() == pris.to_multiset(),
        pris.len() == tous.len(),
        forall|k: int| 0 <= k < pris.len() ==> est_construit(#[trigger] pris[k], tous[tous.len() - 1 - k], fuseau),
    ensures
        chaque_media_vient_d_un_fichier(medias, tous, fuseau),
        chaque_fichier_donne_un_media(medias, tous, fuseau),
{
    broadcast use vstd::seq_lib::to_multiset_contains;
    assert forall|k: int| 0 <= k < medias.len() implies vient_d_un_fichier(#[trigger] medias[k], tous, fuseau) by {
        let x = medias[k];
        assert(medias.contains(x));
        assert(pris.to_multiset().count(x) > 0);
        assert(pris.contains(x));
        let t = choose|t: int| 0 <= t < pris.len() && pris[t] == x;
        assert(est_construit(pris[t], tous[tous.len() - 1 - t], fuseau));
    }
    assert forall|i: int| 0 <= i < tous.len() implies a_donne_un_media(medias, #[trigger] tous[i], fuseau) by {
        let t = tous.len() - 1 - i;
        assert(est_construit(pris[t], tous[i], fuseau));
        let x = pris[t];
        assert(pris.contains(x));
        assert(medias.to_multiset().count(x) > 0);
        assert(medias.contains(x));
        let k = choose|k: int| 0 <= k < medias.len() && medias[k] == x;
        assert(est_construit(medias[k], tous[i], fuseau));
    }
}

proof fn lemme_construit_id(m: Media, f: FichierLu, fuseau: Seq<char>)
    requires
        est_construit(m, f, fuseau),
    ensures
        m.id@ == f.nom.identifiant@,
{
    reveal(est_construit);
}

/// Assemble l'inventaire : refuse toute collision d'identifiant, date chaque
/// fichier, et range les médias par identifiant.
pub fn assembler(fichiers: Vec<FichierLu>, fuseau: &str) -> (r: Result<Vec<Media>, ErreurScan>)
    requires
        forall|i: int| 0 <= i < fichiers@.len() ==> lecture_lisible((#[trigger] fichiers@[i]).lecture),
        forall|i: int| 0 <= i < fichiers@.len() ==> ((#[trigger] fichiers@[i]).nom.horodatage matches Some(h) ==> h.valide()),
    ensures
        r is Ok <==> identifiants_distincts(fichiers@),
        r matches Err(e) ==> e matches ErreurScan::Collisions(c) && c@.len() > 0 && noms::collisions_de(c@, entrees_de(fichiers@)),
        r matches Ok(v) ==> {
            &&& v@.len() == fichiers@.len()
            &&& tries_par_identifiant(v@)
            &&& chaque_media_vient_d_un_fichier(v@, fichiers@, fuseau@)
            &&& chaque_fichier_donne_un_media(v@, fichiers@, fuseau@)
        },
{
    let mut entrees: Vec<(String, String)> = Vec::new();
    let mut i: usize = 0;
    while i < fichiers.len()
        invariant
            i <= fichiers.len(),
            entrees@ == entrees_de(fichiers@).subrange(0, i as int),
        decreases fichiers.len() - i,
    {
        entrees.push((fichiers[i].nom.identifiant.clone(), fichiers[i].chemin.clone()));
        i += 1;
        assert(entrees@ =~= entrees_de(fichiers@).subrange(0, i as int));
    }
    assert(entrees@ =~= entrees_de(fichiers@));
    let collisions = noms::detecter_collisions(&entrees);
    if collisions.len() > 0 {
        proof {
            let c = collisions@;
            noms::lemme_collision_a_deux_entrees(entrees@, c[0].identifiant@);
            let (a, b) = choose|a: int, b: int| 0 <= a < b < entrees@.len() && entrees@[a].0@ == c[0].identifiant@ && entrees@[b].0@ == c[0].identifiant@;
            assert(fichiers@[a].nom.identifiant@ == entrees@[a].0@);
            assert(fichiers@[b].nom.identifiant@ == entrees@[b].0@);
        }
        return Err(ErreurScan::Collisions(collisions));
    }
    proof {
        assert forall|a: int, b: int| 0 <= a < b < fichiers@.len() implies (#[trigger] fichiers@[a]).nom.identifiant@
            != (#[trigger] fichiers@[b]).nom.identifiant@ by {
            if fichiers@[a].nom.identifiant@ == fichiers@[b].nom.identifiant@ {
                assert(entrees@[a].0@ == entrees@[b].0@);
                noms::lemme_deux_entrees(entrees@, a, b);
            }
        }
    }

    Ok(construire_tous(fichiers, fuseau))
}

} // verus!
