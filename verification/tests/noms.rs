use carnet::calendrier::DateHeure;
use carnet::noms::{analyser, detecter_collisions, est_media, est_video, Convention};

fn date(annee: u32, mois: u32, jour: u32, heure: u32, minute: u32, seconde: u32) -> Option<DateHeure> {
    Some(DateHeure { annee, mois, jour, heure, minute, seconde })
}

#[test]
fn convention_du_telephone() {
    let a = analyser("IMG20260814151616.jpg");
    assert_eq!(a.convention, Convention::Telephone);
    assert_eq!(a.identifiant, "IMG20260814151616");
    assert_eq!(a.horodatage, date(2026, 8, 14, 15, 16, 16));
    assert!(!a.normalise);
    assert!(a.variante.is_none());
}

#[test]
fn convention_video() {
    let a = analyser("VID20260725164207.mp4");
    assert_eq!(a.convention, Convention::Telephone);
    assert_eq!(a.horodatage, date(2026, 7, 25, 16, 42, 7));
}

/// Le nom porte la date du partage, l'EXIF porte la vraie date.
#[test]
fn fichier_repartage() {
    let a = analyser("IMG_20260730_071148.jpg");
    assert_eq!(a.convention, Convention::Repartage);
    assert_eq!(a.identifiant, "IMG_20260730_071148");
    assert_eq!(a.horodatage, date(2026, 7, 30, 7, 11, 48));
    assert!(!a.normalise);
}

/// Fichier reçu par messagerie, aucun EXIF, date à la journée.
#[test]
fn fichier_de_messagerie() {
    let a = analyser("IMG-20250722-WA0000.jpg");
    assert_eq!(a.convention, Convention::Messagerie);
    assert_eq!(a.horodatage, date(2025, 7, 22, 0, 0, 0));
    assert!(a.convention.porte_une_date());
}

/// Le tilde est remplacé, la variante est conservée.
#[test]
fn nom_au_tilde() {
    let a = analyser("IMG20260808113008~2.jpg");
    assert_eq!(a.identifiant, "IMG20260808113008-2");
    assert_eq!(a.convention, Convention::Telephone);
    assert_eq!(a.variante.as_deref(), Some("2"));
    assert!(a.normalise);
    assert_eq!(a.horodatage, date(2026, 8, 8, 11, 30, 8));
}

/// `_01` est déjà valide : l'identifiant ne change pas, et il n'entre pas en
/// collision avec celui de la photo dont il est la variante.
#[test]
fn variante_soulignee_sans_collision() {
    let a = analyser("IMG20260807151640_01.jpg");
    let b = analyser("IMG20260807151640.jpg");
    assert_eq!(a.identifiant, "IMG20260807151640_01");
    assert_eq!(a.variante.as_deref(), Some("01"));
    assert!(!a.normalise);
    assert_ne!(a.identifiant, b.identifiant);
}

/// Les GoPro ne portent aucune date dans leur nom.
#[test]
fn fichiers_gopro() {
    let a = analyser("GOPR2699.JPG");
    assert_eq!(a.convention, Convention::GoPro);
    assert!(a.horodatage.is_none());
    assert!(!a.convention.porte_une_date());
    assert_eq!(analyser("GX010123.MP4").convention, Convention::GoPro);
}

#[test]
fn appareils_de_la_polynesie() {
    assert_eq!(analyser("P1000123.JPG").convention, Convention::Compact);
    assert_eq!(analyser("DSCN0001.JPG").convention, Convention::AppareilPhoto);
}

#[test]
fn nom_sans_convention() {
    let a = analyser("photo de vacances (1).jpg");
    assert_eq!(a.convention, Convention::Autre);
    assert_eq!(a.identifiant, "photo-de-vacances--1-");
    assert!(a.normalise);
    assert!(a.horodatage.is_none());
}

#[test]
fn date_impossible_dans_le_nom() {
    let a = analyser("IMG20261345999999.jpg");
    assert!(a.horodatage.is_none());
}

/// Deux fichiers homonymes dans deux dossiers différents.
#[test]
fn collisions_detectees() {
    let entrees = vec![
        ("IMG20260731092009".to_string(), "IMG20260731092009.jpg".to_string()),
        ("IMG20260731092009".to_string(), "[Originals]/IMG20260731092009.jpg".to_string()),
        ("IMG20260814151616".to_string(), "IMG20260814151616.jpg".to_string()),
    ];
    let collisions = detecter_collisions(&entrees);
    assert_eq!(collisions.len(), 1);
    assert_eq!(collisions[0].identifiant, "IMG20260731092009");
    assert_eq!(collisions[0].fichiers.len(), 2);
}

#[test]
fn extensions_reconnues() {
    assert!(est_media("a.JPG"));
    assert!(est_media("a.mp4"));
    assert!(!est_media("a.txt"));
    assert!(est_video("a.MP4"));
    assert!(!est_video("a.jpg"));
}

#[test]
fn identifiant_sans_extension() {
    let a = analyser("archive.tar.jpg");
    assert_eq!(a.identifiant, "archive-tar");
    assert!(a.normalise);
    assert!(!est_media("sans_extension"));
    assert!(est_media("dossier/sous/b.heic"));
}

#[test]
fn sans_collision_rien_a_signaler() {
    let entrees = vec![("a".to_string(), "a.jpg".to_string()), ("b".to_string(), "b.jpg".to_string())];
    assert!(detecter_collisions(&entrees).is_empty());
}

#[test]
fn extension_apres_separateurs_finaux() {
    // Comme `Path::extension` : les `/` et `.` finaux ne comptent pas.
    assert!(est_media("a.jpg/"));
    assert!(est_media("x/a.JPG/."));
    assert!(est_video("clips/b.MOV//"));
    assert!(!est_media("photos/.."));
    assert!(!est_media(".jpg"));
    assert!(!est_media("a.jpg.txt/"));
}
