use carnet::scan::{ancrer, nom_appareil};
use carnet::voyage::{ErreurVoyage, Voyage};

/// 2026-08-14 15:16, heure naïve.
const NAIF: i64 = 20679 * 86400 + 15 * 3600 + 16 * 60;

#[test]
fn ancrage_sans_offset_utilise_le_fuseau_du_voyage() {
    let instant = ancrer(NAIF, None, "Europe/Paris").expect("fuseau connu");
    // CEST en août : UTC+2.
    assert_eq!(instant.decalage, 2 * 3600);
    assert_eq!(instant.utc + instant.decalage as i64, NAIF);
}

#[test]
fn ancrage_respecte_offset_exif() {
    let naif = 20015 * 86400 + 11 * 3600 + 40 * 60;
    let instant = ancrer(naif, Some(9 * 3600), "Europe/Paris").expect("décalage connu");
    assert_eq!(instant.decalage, 9 * 3600);
    assert_eq!(instant.utc, naif - 9 * 3600);
}

#[test]
fn ancrage_en_hiver_et_fuseau_inconnu() {
    // 2026-01-15 12:00 : CET, UTC+1.
    let naif = 20468 * 86400 + 12 * 3600;
    assert_eq!(ancrer(naif, None, "Europe/Paris").map(|i| i.decalage), Some(3600));
    assert!(ancrer(naif, None, "Nulle/Part").is_none());
}

#[test]
fn identifiant_du_voyage_coherent() {
    let voyage = Voyage {
        id: "2026-alpes".to_string(),
        titre: "Alpes".to_string(),
        sous_titre: None,
        date_debut: 0,
        date_fin: 1,
        pays: Vec::new(),
        distance_km: None,
        nuits: None,
        mode: None,
        fuseau: "Europe/Paris".to_string(),
        source_photos: "/p".to_string(),
        dossiers_ignores: vec!["[Originals]".to_string()],
        notion: None,
        lieux: Vec::new(),
    };
    assert!(voyage.clone().verifier_identifiant("2026-alpes").is_ok());
    match voyage.verifier_identifiant("2025-alpes") {
        Err(ErreurVoyage::IdentifiantIncoherent { declare, dossier }) => {
            assert_eq!(declare, "2026-alpes");
            assert_eq!(dossier, "2025-alpes");
        },
        Ok(_) => panic!("l'identifiant doit être refusé"),
    }
}

#[test]
fn nom_d_appareil_marque_et_modele() {
    assert_eq!(nom_appareil(Some("  FUJIFILM "), " X-T5 "), "FUJIFILM X-T5");
    // Le modèle reprend déjà la marque : seul le modèle est gardé.
    assert_eq!(nom_appareil(Some("Canon"), "Canon EOS R6 "), "Canon EOS R6");
    assert_eq!(nom_appareil(None, "\tiPhone 15 Pro\n"), "iPhone 15 Pro");
    assert_eq!(nom_appareil(Some(""), "Pixel 8"), "Pixel 8");
}
