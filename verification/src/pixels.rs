//! Les dérivés d'une photo, des octets de la source aux images à écrire :
//! décodage, redressement selon l'orientation EXIF, réductions aux trois
//! largeurs, repli JPEG et aperçu inline.
//!
//! Le décodage, les rotations, le redimensionnement et l'encodage JPEG sont
//! ceux des bibliothèques `image` et `fast_image_resize`, derrière des
//! fonctions de confiance dont le contrat nomme le résultat. L'encodage
//! AVIF, qui prend une qualité en virgule flottante, se fait au bord, sur
//! les pixels que rend `produire`.

use vstd::prelude::*;

use image::{DynamicImage, ImageEncoder, ImageFormat, ImageReader, RgbImage, RgbaImage};
use std::io::Cursor;

use crate::derive::{
    chemin_derive, chemins_derives, dimensions_redressees_spec, dimensions_reduites, dimensions_reduites_spec,
    extension_spec, lqip, lqip_spec, redressement, redressement_spec, Format, Production, Redressement, Reglages, LARGEUR_GRANDE, LARGEUR_LQIP,
    LARGEUR_MOYENNE, LARGEUR_REPLI, LARGEUR_VIGNETTE,
};
use crate::scan::Media;

verus! {

/// Une image en mémoire : largeur, hauteur, puis les octets des pixels,
/// ligne après ligne, trois par pixel (rouge, vert, bleu) ou quatre avec
/// l'alpha. `natif` dit que le décodage a donné directement des pixels de
/// huit bits en RGB ou RGBA, les seuls que le redimensionnement accepte.
#[derive(Debug, Clone)]
pub struct Pixels {
    pub largeur: u32,
    pub hauteur: u32,
    pub alpha: bool,
    pub natif: bool,
    pub octets: Vec<u8>,
}

/// Une image vue de l'extérieur : largeur, hauteur, alpha, natif, octets.
pub type VuePixels = (u32, u32, bool, bool, Seq<u8>);

pub open spec fn vue(p: Pixels) -> VuePixels {
    (p.largeur, p.hauteur, p.alpha, p.natif, p.octets@)
}

pub open spec fn canaux(alpha: bool) -> nat {
    if alpha {
        4
    } else {
        3
    }
}

/// Autant d'octets que de pixels fois leurs canaux.
pub open spec fn bien_formee(v: VuePixels) -> bool {
    v.4.len() == v.0 * v.1 * canaux(v.2)
}

// ---------------------------------------------------------------------------
// Les appels aux bibliothèques d'images
// ---------------------------------------------------------------------------

/// L'image que `image` décode de ces octets, le nom du fichier source
/// donnant le format quand le contenu ne le dit pas.
pub uninterp spec fn image_decodee(octets: Seq<u8>, nom: Seq<char>) -> Option<VuePixels>;

/// Les octets de l'image tournée d'un quart de tour dans le sens horaire.
pub uninterp spec fn quart_de_tour(largeur: u32, hauteur: u32, alpha: bool, octets: Seq<u8>) -> Seq<u8>;

/// Les octets de l'image tournée d'un demi-tour.
pub uninterp spec fn demi_tour(largeur: u32, hauteur: u32, alpha: bool, octets: Seq<u8>) -> Seq<u8>;

/// Les octets de l'image tournée de trois quarts de tour dans le sens
/// horaire.
pub uninterp spec fn trois_quarts_de_tour(largeur: u32, hauteur: u32, alpha: bool, octets: Seq<u8>) -> Seq<u8>;

/// Les octets de l'image retournée de gauche à droite.
pub uninterp spec fn miroir_horizontal(largeur: u32, hauteur: u32, alpha: bool, octets: Seq<u8>) -> Seq<u8>;

/// Les octets de l'image retournée de haut en bas.
pub uninterp spec fn miroir_vertical(largeur: u32, hauteur: u32, alpha: bool, octets: Seq<u8>) -> Seq<u8>;

/// Les octets de l'image ramenée à `cible_l` sur `cible_h` par
/// `fast_image_resize`, ou rien si la bibliothèque refuse.
pub uninterp spec fn reduction(
    largeur: u32,
    hauteur: u32,
    alpha: bool,
    octets: Seq<u8>,
    cible_l: u32,
    cible_h: u32,
) -> Option<Seq<u8>>;

/// Le JPEG que l'encodeur de `image` écrit de l'image, sans son alpha, à
/// cette qualité, ou rien si l'encodage échoue.
pub uninterp spec fn jpeg(largeur: u32, hauteur: u32, alpha: bool, octets: Seq<u8>, qualite: u8) -> Option<Seq<u8>>;

/// `ImageReader::with_guessed_format` puis `decode` de `image`, le format
/// annoncé par l'extension du nom valant quand le contenu ne se reconnaît
/// pas, comme `ImageReader::open` le fait d'un chemin. Une image RGB ou RGBA
/// de huit bits est rendue telle quelle ; une autre est convertie par
/// `to_rgba8` et marquée non native. Le contrat nomme l'image décodée sans
/// dire quels octets se décodent.
#[verifier::external_body]
fn decoder(octets: &[u8], nom: &str) -> (r: Option<Pixels>)
    ensures
        match r {
            Some(p) => image_decodee(octets@, nom@) == Some(vue(p)) && bien_formee(vue(p)),
            None => image_decodee(octets@, nom@) is None,
        },
{
    let lecteur = match ImageFormat::from_path(nom) {
        Ok(f) => ImageReader::with_format(Cursor::new(octets), f),
        Err(_) => ImageReader::new(Cursor::new(octets)),
    };
    let image = lecteur.with_guessed_format().ok()?.decode().ok()?;
    let (largeur, hauteur) = (image.width(), image.height());
    Some(match image {
        DynamicImage::ImageRgb8(b) => Pixels { largeur, hauteur, alpha: false, natif: true, octets: b.into_raw() },
        DynamicImage::ImageRgba8(b) => Pixels { largeur, hauteur, alpha: true, natif: true, octets: b.into_raw() },
        autre => Pixels { largeur, hauteur, alpha: true, natif: false, octets: autre.to_rgba8().into_raw() },
    })
}

/// `DynamicImage::rotate90` de `image` : l'image tournée d'un quart de tour
/// a pour largeur la hauteur de la source et pour hauteur sa largeur
/// (imageops/affine.rs construit un tampon `(hauteur, largeur)`).
#[verifier::external_body]
fn quart(p: Pixels) -> (q: Pixels)
    requires
        bien_formee(vue(p)),
    ensures
        vue(q) == (p.hauteur, p.largeur, p.alpha, p.natif, quart_de_tour(p.largeur, p.hauteur, p.alpha, p.octets@)),
        bien_formee(vue(q)),
{
    let Pixels { largeur, hauteur, alpha, natif, octets } = p;
    let r = match alpha {
        true => DynamicImage::ImageRgba8(RgbaImage::from_raw(largeur, hauteur, octets).unwrap()),
        false => DynamicImage::ImageRgb8(RgbImage::from_raw(largeur, hauteur, octets).unwrap()),
    }.rotate90();
    let (largeur, hauteur) = (r.width(), r.height());
    let octets = match alpha {
        true => r.into_rgba8().into_raw(),
        false => r.into_rgb8().into_raw(),
    };
    Pixels { largeur, hauteur, alpha, natif, octets }
}

/// `DynamicImage::rotate180` de `image` : les dimensions restent.
#[verifier::external_body]
fn demi(p: Pixels) -> (q: Pixels)
    requires
        bien_formee(vue(p)),
    ensures
        vue(q) == (p.largeur, p.hauteur, p.alpha, p.natif, demi_tour(p.largeur, p.hauteur, p.alpha, p.octets@)),
        bien_formee(vue(q)),
{
    let Pixels { largeur, hauteur, alpha, natif, octets } = p;
    let r = match alpha {
        true => DynamicImage::ImageRgba8(RgbaImage::from_raw(largeur, hauteur, octets).unwrap()),
        false => DynamicImage::ImageRgb8(RgbImage::from_raw(largeur, hauteur, octets).unwrap()),
    }.rotate180();
    let octets = match alpha {
        true => r.into_rgba8().into_raw(),
        false => r.into_rgb8().into_raw(),
    };
    Pixels { largeur, hauteur, alpha, natif, octets }
}

/// `DynamicImage::rotate270` de `image` : largeur et hauteur s'échangent.
#[verifier::external_body]
fn trois_quarts(p: Pixels) -> (q: Pixels)
    requires
        bien_formee(vue(p)),
    ensures
        vue(q) == (p.hauteur, p.largeur, p.alpha, p.natif, trois_quarts_de_tour(p.largeur, p.hauteur, p.alpha, p.octets@)),
        bien_formee(vue(q)),
{
    let Pixels { largeur, hauteur, alpha, natif, octets } = p;
    let r = match alpha {
        true => DynamicImage::ImageRgba8(RgbaImage::from_raw(largeur, hauteur, octets).unwrap()),
        false => DynamicImage::ImageRgb8(RgbImage::from_raw(largeur, hauteur, octets).unwrap()),
    }.rotate270();
    let (largeur, hauteur) = (r.width(), r.height());
    let octets = match alpha {
        true => r.into_rgba8().into_raw(),
        false => r.into_rgb8().into_raw(),
    };
    Pixels { largeur, hauteur, alpha, natif, octets }
}

/// `DynamicImage::fliph` de `image` : les dimensions restent.
#[verifier::external_body]
fn miroir_h(p: Pixels) -> (q: Pixels)
    requires
        bien_formee(vue(p)),
    ensures
        vue(q) == (p.largeur, p.hauteur, p.alpha, p.natif, miroir_horizontal(p.largeur, p.hauteur, p.alpha, p.octets@)),
        bien_formee(vue(q)),
{
    let Pixels { largeur, hauteur, alpha, natif, octets } = p;
    let r = match alpha {
        true => DynamicImage::ImageRgba8(RgbaImage::from_raw(largeur, hauteur, octets).unwrap()),
        false => DynamicImage::ImageRgb8(RgbImage::from_raw(largeur, hauteur, octets).unwrap()),
    }.fliph();
    let octets = match alpha {
        true => r.into_rgba8().into_raw(),
        false => r.into_rgb8().into_raw(),
    };
    Pixels { largeur, hauteur, alpha, natif, octets }
}

/// `DynamicImage::flipv` de `image` : les dimensions restent.
#[verifier::external_body]
fn miroir_v(p: Pixels) -> (q: Pixels)
    requires
        bien_formee(vue(p)),
    ensures
        vue(q) == (p.largeur, p.hauteur, p.alpha, p.natif, miroir_vertical(p.largeur, p.hauteur, p.alpha, p.octets@)),
        bien_formee(vue(q)),
{
    let Pixels { largeur, hauteur, alpha, natif, octets } = p;
    let r = match alpha {
        true => DynamicImage::ImageRgba8(RgbaImage::from_raw(largeur, hauteur, octets).unwrap()),
        false => DynamicImage::ImageRgb8(RgbImage::from_raw(largeur, hauteur, octets).unwrap()),
    }.flipv();
    let octets = match alpha {
        true => r.into_rgba8().into_raw(),
        false => r.into_rgb8().into_raw(),
    };
    Pixels { largeur, hauteur, alpha, natif, octets }
}

/// `Resizer::resize` de `fast_image_resize`, avec ses options par défaut,
/// d'une image de pixels `U8x3` ou `U8x4` vers une image neuve aux
/// dimensions voulues : l'image rendue a exactement ces dimensions.
#[verifier::external_body]
fn reduire(p: &Pixels, largeur: u32, hauteur: u32) -> (q: Option<Pixels>)
    requires
        bien_formee(vue(*p)),
    ensures
        match q {
            Some(q) => reduction(p.largeur, p.hauteur, p.alpha, p.octets@, largeur, hauteur) == Some(q.octets@)
                && q.largeur == largeur && q.hauteur == hauteur && q.alpha == p.alpha && q.natif == p.natif
                && bien_formee(vue(q)),
            None => reduction(p.largeur, p.hauteur, p.alpha, p.octets@, largeur, hauteur) is None,
        },
{
    let type_pixel = match p.alpha {
        true => fast_image_resize::PixelType::U8x4,
        false => fast_image_resize::PixelType::U8x3,
    };
    let source = fast_image_resize::images::ImageRef::new(p.largeur, p.hauteur, &p.octets, type_pixel).ok()?;
    let mut cible = fast_image_resize::images::Image::new(largeur, hauteur, type_pixel);
    fast_image_resize::Resizer::new().resize(&source, &mut cible, &fast_image_resize::ResizeOptions::new()).ok()?;
    Some(Pixels { largeur, hauteur, alpha: p.alpha, natif: p.natif, octets: cible.into_vec() })
}

/// `JpegEncoder::new_with_quality` puis `write_image` de `image`, sur
/// l'image convertie en RGB par `to_rgb8`. Le contrat nomme les octets
/// écrits.
#[verifier::external_body]
fn encoder_jpeg(p: &Pixels, qualite: u8) -> (r: Option<Vec<u8>>)
    requires
        bien_formee(vue(*p)),
    ensures
        match r {
            Some(o) => jpeg(p.largeur, p.hauteur, p.alpha, p.octets@, qualite) == Some(o@),
            None => jpeg(p.largeur, p.hauteur, p.alpha, p.octets@, qualite) is None,
        },
{
    let rgb = match p.alpha {
        true => DynamicImage::ImageRgba8(RgbaImage::from_raw(p.largeur, p.hauteur, p.octets.clone()).unwrap()).to_rgb8(),
        false => RgbImage::from_raw(p.largeur, p.hauteur, p.octets.clone()).unwrap(),
    };
    let mut octets: Vec<u8> = Vec::new();
    image::codecs::jpeg::JpegEncoder::new_with_quality(&mut octets, qualite)
        .write_image(rgb.as_raw(), rgb.width(), rgb.height(), image::ExtendedColorType::Rgb8)
        .ok()?;
    Some(octets)
}

// ---------------------------------------------------------------------------
// Redressement et réduction
// ---------------------------------------------------------------------------

/// L'image redressée selon l'orientation EXIF.
pub open spec fn redressee(v: VuePixels, r: Redressement) -> VuePixels {
    let (l, h, a, n, o) = v;
    match r {
        Redressement::Aucun => v,
        Redressement::MiroirHorizontal => (l, h, a, n, miroir_horizontal(l, h, a, o)),
        Redressement::Demi => (l, h, a, n, demi_tour(l, h, a, o)),
        Redressement::MiroirVertical => (l, h, a, n, miroir_vertical(l, h, a, o)),
        Redressement::QuartPuisMiroir => (h, l, a, n, miroir_horizontal(h, l, a, quart_de_tour(l, h, a, o))),
        Redressement::Quart => (h, l, a, n, quart_de_tour(l, h, a, o)),
        Redressement::TroisQuartsPuisMiroir => (h, l, a, n, miroir_horizontal(h, l, a, trois_quarts_de_tour(l, h, a, o))),
        Redressement::TroisQuarts => (h, l, a, n, trois_quarts_de_tour(l, h, a, o)),
    }
}

/// Applique l'orientation EXIF, puis l'oublie : les dérivés sont écrits
/// droits et sans métadonnées. Un quart de tour échange largeur et hauteur.
pub fn redresser(p: Pixels, orientation: Option<u16>) -> (q: Pixels)
    requires
        bien_formee(vue(p)),
    ensures
        vue(q) == redressee(vue(p), redressement_spec(orientation)),
        (q.largeur, q.hauteur) == dimensions_redressees_spec(p.largeur, p.hauteur, orientation),
        bien_formee(vue(q)),
{
    match redressement(orientation) {
        Redressement::Aucun => p,
        Redressement::MiroirHorizontal => miroir_h(p),
        Redressement::Demi => demi(p),
        Redressement::MiroirVertical => miroir_v(p),
        Redressement::QuartPuisMiroir => miroir_h(quart(p)),
        Redressement::Quart => quart(p),
        Redressement::TroisQuartsPuisMiroir => miroir_h(trois_quarts(p)),
        Redressement::TroisQuarts => trois_quarts(p),
    }
}

/// L'image ramenée à la largeur `cible`, proportions gardées, sans
/// agrandir : plus étroite, elle reste telle quelle ; sinon le
/// redimensionnement, qui n'accepte que des pixels natifs.
pub open spec fn reduite(v: VuePixels, cible: u32) -> Option<VuePixels> {
    let (l, h, a, n, o) = v;
    if l <= cible {
        Some(v)
    } else if !n {
        None
    } else {
        let (cl, ch) = dimensions_reduites_spec(l, h, cible);
        match reduction(l, h, a, o, cl, ch) {
            Some(r) => Some((cl, ch, a, n, r)),
            None => None,
        }
    }
}

fn copie(p: &Pixels) -> (q: Pixels)
    ensures
        vue(q) == vue(*p),
{
    let octets = p.octets.clone();
    assert(octets@ =~= p.octets@);
    Pixels { largeur: p.largeur, hauteur: p.hauteur, alpha: p.alpha, natif: p.natif, octets }
}

/// Redimensionne à la largeur voulue en gardant les proportions ; une image
/// plus étroite que la cible n'est jamais agrandie. Rien quand le
/// redimensionnement échoue.
pub fn redimensionner(p: &Pixels, cible: u32) -> (r: Option<Pixels>)
    requires
        bien_formee(vue(*p)),
    ensures
        match r {
            Some(q) => {
                &&& reduite(vue(*p), cible) == Some(vue(q))
                &&& (q.largeur, q.hauteur) == dimensions_reduites_spec(p.largeur, p.hauteur, cible)
                &&& bien_formee(vue(q))
            },
            None => reduite(vue(*p), cible) is None,
        },
{
    if p.largeur <= cible {
        return Some(copie(p));
    }
    if !p.natif {
        return None;
    }
    let (l, h) = dimensions_reduites(p.largeur, p.hauteur, cible);
    reduire(p, l, h)
}

// ---------------------------------------------------------------------------
// Les fichiers d'une photo
// ---------------------------------------------------------------------------

/// L'étape de la production d'une photo.
#[derive(Debug, Clone, Copy, PartialEq, Eq, Structural)]
pub enum EtapeImage {
    Vignette,
    Moyen,
    Grand,
    Repli,
    Apercu,
}

/// Ce qui fait échouer la production d'une photo.
#[derive(Debug, Clone, Copy, PartialEq, Eq, Structural)]
pub enum ErreurImage {
    /// La source ne se décode pas.
    Lecture,
    /// Le redimensionnement de cette étape a échoué.
    Redimension(EtapeImage),
    /// L'encodage de cette étape a échoué.
    Encodage(EtapeImage),
}

/// Ce qu'il faut écrire d'un dérivé : un JPEG tout fait, ou des pixels que
/// le bord encode en AVIF.
#[derive(Debug, Clone)]
pub enum Contenu {
    Jpeg(Vec<u8>),
    Avif(Pixels),
}

/// Un fichier à écrire, son chemin relatif à `media/<voyage>/`.
#[derive(Debug, Clone)]
pub struct Fichier {
    pub chemin: String,
    pub contenu: Contenu,
}

/// La production d'une photo, et les fichiers à écrire.
#[derive(Debug, Clone)]
pub struct Rendu {
    pub production: Production,
    pub fichiers: Vec<Fichier>,
}

/// Un fichier vu de l'extérieur : son chemin, les octets d'un JPEG ou les
/// pixels d'un AVIF à encoder.
pub type VueFichier = (Seq<char>, Option<Seq<u8>>, Option<VuePixels>);

pub open spec fn vue_fichier(f: Fichier) -> VueFichier {
    (
        f.chemin@,
        match f.contenu {
            Contenu::Jpeg(o) => Some(o@),
            Contenu::Avif(_) => None,
        },
        match f.contenu {
            Contenu::Avif(p) => Some(vue(p)),
            Contenu::Jpeg(_) => None,
        },
    )
}

pub open spec fn vues_fichiers(s: Seq<Fichier>) -> Seq<VueFichier> {
    s.map_values(|f: Fichier| vue_fichier(f))
}

/// Un dérivé : l'image réduite à la largeur de l'étape, en pixels pour
/// l'AVIF ou encodée en JPEG à la qualité des réglages.
pub open spec fn derive_spec(v: VuePixels, cible: u32, etape: EtapeImage, chemin: Seq<char>, avif: bool, qualite: u8) -> Result<
    VueFichier,
    ErreurImage,
> {
    match reduite(v, cible) {
        None => Err(ErreurImage::Redimension(etape)),
        Some(w) => if avif {
            Ok((chemin, None, Some(w)))
        } else {
            match jpeg(w.0, w.1, w.2, w.4, qualite) {
                Some(o) => Ok((chemin, Some(o), None)),
                None => Err(ErreurImage::Encodage(etape)),
            }
        },
    }
}

/// L'aperçu inline : l'image réduite à seize pixels de large, en JPEG de
/// qualité 40, en URL de données.
pub open spec fn apercu_spec(v: VuePixels) -> Result<Seq<char>, ErreurImage> {
    match reduite(v, LARGEUR_LQIP) {
        None => Err(ErreurImage::Redimension(EtapeImage::Apercu)),
        Some(w) => match jpeg(w.0, w.1, w.2, w.4, 40) {
            Some(o) => Ok(lqip_spec(o)),
            None => Err(ErreurImage::Encodage(EtapeImage::Apercu)),
        },
    }
}

/// Le repli JPEG en une seule taille, quand le format n'est pas déjà le
/// JPEG.
pub open spec fn repli_spec(v: VuePixels, id: Seq<char>, r: Reglages) -> Result<Seq<VueFichier>, ErreurImage> {
    if r.format != Format::Jpeg {
        match derive_spec(v, LARGEUR_REPLI, EtapeImage::Repli, chemin_derive(id, LARGEUR_REPLI as nat, "jpg"@), false, r.qualite) {
            Ok(f) => Ok(seq![f]),
            Err(e) => Err(e),
        }
    } else {
        Ok(seq![])
    }
}

/// La production d'une photo : la source décodée et redressée, les trois
/// dérivés dans le format des réglages, le repli, puis l'aperçu ; la
/// première étape qui échoue dit l'erreur. Le résultat : les fichiers à
/// écrire, l'aperçu, et les dimensions de la photo redressée.
pub open spec fn produire_spec(id: Seq<char>, nom: Seq<char>, source: Seq<u8>, orientation: Option<u16>, r: Reglages) -> Result<
    (Seq<VueFichier>, Seq<char>, u32, u32),
    ErreurImage,
> {
    match image_decodee(source, nom) {
        None => Err(ErreurImage::Lecture),
        Some(d) => {
            let v = redressee(d, redressement_spec(orientation));
            let ext = extension_spec(r.format);
            let avif = r.format == Format::Avif;
            match derive_spec(v, LARGEUR_VIGNETTE, EtapeImage::Vignette, chemin_derive(id, LARGEUR_VIGNETTE as nat, ext), avif, r.qualite) {
                Err(e) => Err(e),
                Ok(f1) => match derive_spec(v, LARGEUR_MOYENNE, EtapeImage::Moyen, chemin_derive(id, LARGEUR_MOYENNE as nat, ext), avif, r.qualite) {
                    Err(e) => Err(e),
                    Ok(f2) => match derive_spec(v, LARGEUR_GRANDE, EtapeImage::Grand, chemin_derive(id, LARGEUR_GRANDE as nat, ext), avif, r.qualite) {
                        Err(e) => Err(e),
                        Ok(f3) => match repli_spec(v, id, r) {
                            Err(e) => Err(e),
                            Ok(fr) => match apercu_spec(v) {
                                Err(e) => Err(e),
                                Ok(l) => Ok((seq![f1, f2, f3] + fr, l, v.0, v.1)),
                            },
                        },
                    },
                },
            }
        },
    }
}

/// La largeur du fichier de rang `i` : les trois largeurs des dérivés, puis
/// celle du repli.
pub open spec fn largeur_du_fichier(i: int) -> u32 {
    if i == 0 {
        LARGEUR_VIGNETTE
    } else if i == 1 {
        LARGEUR_MOYENNE
    } else if i == 2 {
        LARGEUR_GRANDE
    } else {
        LARGEUR_REPLI
    }
}

/// Le fichier de rang `i` d'une photo de `l` sur `h` une fois redressée :
/// son chemin, des pixels à encoder en AVIF pour les trois dérivés quand
/// c'est le format, un JPEG sinon ; et des pixels aux dimensions de la
/// photo ramenée à la largeur de ce rang.
pub open spec fn fichier_attendu(f: VueFichier, id: Seq<char>, i: int, r: Reglages, l: u32, h: u32) -> bool {
    let avif = i < 3 && r.format == Format::Avif;
    &&& f.0 == chemin_derive(id, largeur_du_fichier(i) as nat, if i < 3 { extension_spec(r.format) } else { "jpg"@ })
    &&& (f.2 is Some) == avif
    &&& (f.1 is Some) == !avif
    &&& f.2 matches Some(w) ==> (w.0, w.1) == dimensions_reduites_spec(l, h, largeur_du_fichier(i))
}

proof fn lemme_redressee(d: VuePixels, orientation: Option<u16>)
    ensures
        (redressee(d, redressement_spec(orientation)).0, redressee(d, redressement_spec(orientation)).1)
            == dimensions_redressees_spec(d.0, d.1, orientation),
{
}

proof fn lemme_derive(v: VuePixels, cible: u32, etape: EtapeImage, chemin: Seq<char>, avif: bool, qualite: u8)
    ensures
        derive_spec(v, cible, etape, chemin, avif, qualite) matches Ok(f) ==> {
            &&& f.0 == chemin
            &&& (f.2 is Some) == avif
            &&& (f.1 is Some) == !avif
            &&& f.2 matches Some(w) ==> (w.0, w.1) == dimensions_reduites_spec(v.0, v.1, cible)
        },
{
}

/// Ce que la production dit de ses fichiers : trois, ou quatre avec le
/// repli quand le format n'est pas le JPEG, chacun à son chemin et aux
/// dimensions de son rang ; et la photo a les dimensions de la source
/// décodée puis redressée.
pub proof fn loi_fichiers_produits(id: Seq<char>, nom: Seq<char>, source: Seq<u8>, orientation: Option<u16>, r: Reglages)
    ensures
        produire_spec(id, nom, source, orientation, r) matches Ok(s) ==> {
            &&& image_decodee(source, nom) matches Some(d) && (s.2, s.3) == dimensions_redressees_spec(d.0, d.1, orientation)
            &&& s.0.len() == (if r.format == Format::Jpeg { 3nat } else { 4nat })
            &&& forall|i: int| 0 <= i < s.0.len() ==> fichier_attendu(#[trigger] s.0[i], id, i, r, s.2, s.3)
        },
{
    if let Some(d) = image_decodee(source, nom) {
        lemme_redressee(d, orientation);
        let v = redressee(d, redressement_spec(orientation));
        let ext = extension_spec(r.format);
        let avif = r.format == Format::Avif;
        lemme_derive(v, LARGEUR_VIGNETTE, EtapeImage::Vignette, chemin_derive(id, LARGEUR_VIGNETTE as nat, ext), avif, r.qualite);
        lemme_derive(v, LARGEUR_MOYENNE, EtapeImage::Moyen, chemin_derive(id, LARGEUR_MOYENNE as nat, ext), avif, r.qualite);
        lemme_derive(v, LARGEUR_GRANDE, EtapeImage::Grand, chemin_derive(id, LARGEUR_GRANDE as nat, ext), avif, r.qualite);
        lemme_derive(v, LARGEUR_REPLI, EtapeImage::Repli, chemin_derive(id, LARGEUR_REPLI as nat, "jpg"@), false, r.qualite);
        if let Ok(s) = produire_spec(id, nom, source, orientation, r) {
            assert forall|i: int| 0 <= i < s.0.len() implies fichier_attendu(#[trigger] s.0[i], id, i, r, s.2, s.3) by {
                if i == 3 {
                    assert(r.format != Format::Jpeg);
                }
            }
        }
    }
}

/// L'aperçu inline d'une image : réduite à seize pixels de large, encodée
/// en JPEG de qualité 40, en URL de données.
pub fn apercu(p: &Pixels) -> (r: Result<String, ErreurImage>)
    requires
        bien_formee(vue(*p)),
    ensures
        match r {
            Ok(a) => apercu_spec(vue(*p)) == Ok::<Seq<char>, ErreurImage>(a@),
            Err(e) => apercu_spec(vue(*p)) == Err::<Seq<char>, ErreurImage>(e),
        },
{
    let petit = match redimensionner(p, LARGEUR_LQIP) {
        Some(w) => w,
        None => return Err(ErreurImage::Redimension(EtapeImage::Apercu)),
    };
    match encoder_jpeg(&petit, 40) {
        Some(o) => Ok(lqip(o.as_slice())),
        None => Err(ErreurImage::Encodage(EtapeImage::Apercu)),
    }
}

fn deriver(v: &Pixels, cible: u32, etape: EtapeImage, chemin: String, avif: bool, qualite: u8) -> (r: Result<Fichier, ErreurImage>)
    requires
        bien_formee(vue(*v)),
    ensures
        match r {
            Ok(f) => derive_spec(vue(*v), cible, etape, chemin@, avif, qualite) == Ok::<VueFichier, ErreurImage>(vue_fichier(f)),
            Err(e) => derive_spec(vue(*v), cible, etape, chemin@, avif, qualite) == Err::<VueFichier, ErreurImage>(e),
        },
{
    match redimensionner(v, cible) {
        None => Err(ErreurImage::Redimension(etape)),
        Some(w) => if avif {
            Ok(Fichier { chemin, contenu: Contenu::Avif(w) })
        } else {
            match encoder_jpeg(&w, qualite) {
                Some(o) => Ok(Fichier { chemin, contenu: Contenu::Jpeg(o) }),
                None => Err(ErreurImage::Encodage(etape)),
            }
        },
    }
}

/// Produit les dérivés d'une photo à partir des octets de sa source : les
/// fichiers à écrire sous `media/<voyage>/`, dans l'ordre (trois largeurs,
/// puis le repli s'il y en a un), et la production que le cache et le média
/// retiennent.
pub fn produire(media: &Media, source: &[u8], reglages: &Reglages) -> (r: Result<Rendu, ErreurImage>)
    ensures
        match (r, produire_spec(media.id@, media.fichier_source@, source@, media.orientation, *reglages)) {
            (Ok(x), Ok(s)) => {
                &&& vues_fichiers(x.fichiers@) == s.0
                &&& x.production.lqip@ == s.1
                &&& x.production.largeur == s.2
                &&& x.production.hauteur == s.3
                &&& x.production.derives.vignette@ == chemin_derive(media.id@, LARGEUR_VIGNETTE as nat, extension_spec(reglages.format))
                &&& x.production.derives.moyen@ == chemin_derive(media.id@, LARGEUR_MOYENNE as nat, extension_spec(reglages.format))
                &&& x.production.derives.grand@ == chemin_derive(media.id@, LARGEUR_GRANDE as nat, extension_spec(reglages.format))
                &&& x.production.derives.repli@ == chemin_derive(media.id@, LARGEUR_REPLI as nat, "jpg"@)
                &&& image_decodee(source@, media.fichier_source@) matches Some(d) && (x.production.largeur, x.production.hauteur)
                    == dimensions_redressees_spec(d.0, d.1, media.orientation)
                &&& x.fichiers.len() == (if reglages.format == Format::Jpeg { 3nat } else { 4nat })
                &&& forall|i: int| 0 <= i < x.fichiers.len() ==> fichier_attendu(vue_fichier(#[trigger] x.fichiers[i]), media.id@, i, *reglages, x.production.largeur, x.production.hauteur)
            },
            (Err(e), Err(f)) => e == f,
            _ => false,
        },
{
    let decodee = match decoder(source, media.fichier_source.as_str()) {
        Some(p) => p,
        None => return Err(ErreurImage::Lecture),
    };
    let v = redresser(decodee, media.orientation);
    let chemins = chemins_derives(media.id.as_str(), reglages.format);
    let avif = reglages.format == Format::Avif;
    let f1 = match deriver(&v, LARGEUR_VIGNETTE, EtapeImage::Vignette, chemins.vignette, avif, reglages.qualite) {
        Ok(f) => f,
        Err(e) => return Err(e),
    };
    let f2 = match deriver(&v, LARGEUR_MOYENNE, EtapeImage::Moyen, chemins.moyen, avif, reglages.qualite) {
        Ok(f) => f,
        Err(e) => return Err(e),
    };
    let f3 = match deriver(&v, LARGEUR_GRANDE, EtapeImage::Grand, chemins.grand, avif, reglages.qualite) {
        Ok(f) => f,
        Err(e) => return Err(e),
    };
    let mut fichiers: Vec<Fichier> = Vec::new();
    fichiers.push(f1);
    fichiers.push(f2);
    fichiers.push(f3);
    if reglages.format != Format::Jpeg {
        let f4 = match deriver(&v, LARGEUR_REPLI, EtapeImage::Repli, chemins.repli, false, reglages.qualite) {
            Ok(f) => f,
            Err(e) => return Err(e),
        };
        fichiers.push(f4);
    }
    let apercu = match apercu(&v) {
        Ok(a) => a,
        Err(e) => return Err(e),
    };
    let derives = chemins_derives(media.id.as_str(), reglages.format);
    let production = Production { derives, lqip: apercu, largeur: v.largeur, hauteur: v.hauteur };
    proof {
        loi_fichiers_produits(media.id@, media.fichier_source@, source@, media.orientation, *reglages);
        assert forall|i: int| 0 <= i < fichiers.len() implies vues_fichiers(fichiers@)[i] == vue_fichier(#[trigger] fichiers@[i]) by {}
    }
    Ok(Rendu { production, fichiers })
}

} // verus!
