use carnet::derive::{Format, Reglages};
use carnet::noms::Convention;
use carnet::derive::produire;
use carnet::pixels::{apercu, redimensionner, redresser, Contenu, ErreurImage, Pixels};
use carnet::scan::{Fiabilite, Media, OrigineDate, TypeMedia};
use image::ImageEncoder;

fn photo(id: &str, nom: &str, orientation: Option<u16>) -> Media {
    Media {
        id: id.to_string(),
        type_media: TypeMedia::Photo,
        fichier_source: nom.to_string(),
        prise_le: None,
        origine_date: OrigineDate::Absente,
        jour: None,
        position: None,
        fiabilite: Fiabilite::Absente,
        origine_position: None,
        lieu: None,
        publie: true,
        derives: None,
        lqip: None,
        anomalies: Vec::new(),
        largeur: None,
        hauteur: None,
        orientation,
        appareil: None,
        convention: Convention::Autre,
        octets: 1,
    }
}

fn degrade(largeur: u32, hauteur: u32) -> Vec<u8> {
    let mut octets = Vec::new();
    for y in 0..hauteur {
        for x in 0..largeur {
            octets.extend_from_slice(&[(x % 256) as u8, (y % 256) as u8, 128]);
        }
    }
    octets
}

fn png(largeur: u32, hauteur: u32) -> Vec<u8> {
    let mut sortie = Vec::new();
    image::codecs::png::PngEncoder::new(&mut sortie)
        .write_image(&degrade(largeur, hauteur), largeur, hauteur, image::ExtendedColorType::Rgb8)
        .expect("png");
    sortie
}

fn png_gris(largeur: u32, hauteur: u32) -> Vec<u8> {
    let mut sortie = Vec::new();
    let gris = vec![90u8; (largeur * hauteur) as usize];
    image::codecs::png::PngEncoder::new(&mut sortie)
        .write_image(&gris, largeur, hauteur, image::ExtendedColorType::L8)
        .expect("png");
    sortie
}

#[test]
fn production_jpeg_d_une_photo_couchee() {
    let source = png(3000, 2000);
    let media = photo("IMG_0001", "IMG_0001.png", Some(6));
    let reglages = Reglages { format: Format::Jpeg, ..Reglages::default() };
    let rendu = produire(&media, &source, &reglages).expect("production");
    // Le quart de tour échange les dimensions.
    assert_eq!((rendu.production.largeur, rendu.production.hauteur), (2000, 3000));
    assert_eq!(rendu.fichiers.len(), 3);
    let chemins: Vec<&str> = rendu.fichiers.iter().map(|f| f.chemin.as_str()).collect();
    assert_eq!(chemins, ["photos/IMG_0001-320.jpg", "photos/IMG_0001-1024.jpg", "photos/IMG_0001-2048.jpg"]);
    for f in &rendu.fichiers {
        match &f.contenu {
            Contenu::Jpeg(o) => assert_eq!(&o[..2], &[0xFF, 0xD8]),
            Contenu::Avif(_) => panic!("un JPEG était attendu"),
        }
    }
    assert_eq!(rendu.production.derives.repli, "photos/IMG_0001-1024.jpg");
    assert!(rendu.production.lqip.starts_with("data:image/jpeg;base64,"));
}

#[test]
fn production_avif_avec_repli() {
    let source = png(3000, 2000);
    let media = photo("IMG_0002", "IMG_0002.png", None);
    let rendu = produire(&media, &source, &Reglages::default()).expect("production");
    assert_eq!((rendu.production.largeur, rendu.production.hauteur), (3000, 2000));
    assert_eq!(rendu.fichiers.len(), 4);
    let attendues = [(320, 213), (1024, 683), (2048, 1365)];
    for (f, (l, h)) in rendu.fichiers.iter().zip(attendues) {
        match &f.contenu {
            Contenu::Avif(p) => assert_eq!((p.largeur, p.hauteur), (l, h)),
            Contenu::Jpeg(_) => panic!("des pixels AVIF étaient attendus"),
        }
    }
    assert_eq!(rendu.fichiers[0].chemin, "photos/IMG_0002-320.avif");
    assert_eq!(rendu.fichiers[3].chemin, "photos/IMG_0002-1024.jpg");
    assert!(matches!(rendu.fichiers[3].contenu, Contenu::Jpeg(_)));
}

#[test]
fn source_illisible() {
    let media = photo("IMG_0003", "IMG_0003.jpg", None);
    let r = produire(&media, b"pas une image", &Reglages::default());
    assert_eq!(r.err(), Some(ErreurImage::Lecture));
}

#[test]
fn petite_image_non_native_gardee_telle_quelle() {
    // Une image en niveaux de gris plus étroite que toutes les largeurs n'a
    // pas à être redimensionnée.
    let media = photo("IMG_0004", "IMG_0004.png", None);
    let reglages = Reglages { format: Format::Jpeg, ..Reglages::default() };
    let rendu = produire(&media, &png_gris(12, 8), &reglages).expect("production");
    assert_eq!((rendu.production.largeur, rendu.production.hauteur), (12, 8));
}

#[test]
fn grande_image_non_native_refusee() {
    // Le redimensionnement n'accepte que des pixels RGB ou RGBA de huit bits.
    let media = photo("IMG_0005", "IMG_0005.png", None);
    let r = produire(&media, &png_gris(400, 300), &Reglages::default());
    assert_eq!(r.err(), Some(ErreurImage::Redimension(carnet::pixels::EtapeImage::Vignette)));
}

#[test]
fn miroir_horizontal_echange_les_pixels() {
    let p = Pixels { largeur: 2, hauteur: 1, alpha: false, natif: true, octets: vec![1, 2, 3, 4, 5, 6] };
    let q = redresser(p, Some(2));
    assert_eq!(q.octets, vec![4, 5, 6, 1, 2, 3]);
    let p = Pixels { largeur: 1, hauteur: 2, alpha: false, natif: true, octets: vec![1, 2, 3, 4, 5, 6] };
    let q = redresser(p, Some(4));
    assert_eq!(q.octets, vec![4, 5, 6, 1, 2, 3]);
    let p = Pixels { largeur: 2, hauteur: 1, alpha: false, natif: true, octets: vec![1, 2, 3, 4, 5, 6] };
    let q = redresser(p, Some(3));
    assert_eq!(q.octets, vec![4, 5, 6, 1, 2, 3]);
}

#[test]
fn quarts_de_tour() {
    // Deux pixels côte à côte : un quart de tour horaire les met l'un sous
    // l'autre, le premier en haut ; trois quarts, le premier en bas.
    let p = Pixels { largeur: 2, hauteur: 1, alpha: false, natif: true, octets: vec![1, 2, 3, 4, 5, 6] };
    let q = redresser(p.clone(), Some(6));
    assert_eq!((q.largeur, q.hauteur, q.octets), (1, 2, vec![1, 2, 3, 4, 5, 6]));
    let q = redresser(p, Some(8));
    assert_eq!((q.largeur, q.hauteur, q.octets), (1, 2, vec![4, 5, 6, 1, 2, 3]));
}

#[test]
fn reduction_avec_alpha() {
    let octets = vec![200u8; 400 * 300 * 4];
    let p = Pixels { largeur: 400, hauteur: 300, alpha: true, natif: true, octets };
    let q = redimensionner(&p, 320).expect("redimension");
    assert_eq!((q.largeur, q.hauteur, q.alpha), (320, 240, true));
    assert_eq!(q.octets.len(), 320 * 240 * 4);
}

#[test]
fn apercu_d_une_petite_image() {
    let p = Pixels { largeur: 8, hauteur: 4, alpha: false, natif: true, octets: degrade(8, 4) };
    let a = apercu(&p).expect("aperçu");
    // Le JPEG commence par FF D8 FF : « /9j/ » en base64.
    assert!(a.starts_with("data:image/jpeg;base64,/9j/"));
}
