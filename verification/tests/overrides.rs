use carnet::motif::{correspond_car, motif_correspond};
use carnet::noms::Convention;
use carnet::overrides::{ErreurOverrides, ForcageMode, Lot, Overrides, Segment, SurchargeMedia};
use carnet::scan::{Anomalie, Fiabilite, Instant, Media, OrigineDate, OriginePosition, Position, TypeMedia};
use carnet::track::Mode;

/// 2016-01-03T10:00:00+01:00.
const INSTANT: i64 = 1_451_811_600;
const JOUR_2016_01_03: i64 = 16803;
const JOUR_2026_08_02: i64 = 20667;

fn media(id: &str, fichier: &str) -> Media {
    Media {
        id: id.to_string(),
        type_media: TypeMedia::Photo,
        fichier_source: fichier.to_string(),
        prise_le: Some(Instant { utc: INSTANT, decalage: 3600 }),
        origine_date: OrigineDate::Exif,
        jour: Some(JOUR_2016_01_03),
        position: None,
        fiabilite: Fiabilite::Absente,
        origine_position: None,
        lieu: None,
        publie: true,
        derives: None,
        lqip: None,
        anomalies: vec![Anomalie::HorlogePerdue],
        largeur: None,
        hauteur: None,
        orientation: None,
        appareil: None,
        convention: Convention::GoPro,
        octets: 1000,
    }
}

fn lot(motif: &str) -> Lot {
    Lot { motif: motif.to_string(), jour: None, position: None, prise_le: None, repartir_sur_segment: false, note: None }
}

fn segment(jour: i64, mode: Mode, points: Vec<[i64; 2]>) -> Segment {
    Segment { jour, mode, apres: None, points, calculer: false, note: None }
}

#[test]
fn motifs_avec_jokers() {
    assert!(motif_correspond("GOPR2*.JPG", "GOPR2699.JPG"));
    assert!(motif_correspond("GOPR2*.JPG", "gopr2717.jpg"));
    assert!(!motif_correspond("GOPR2*.JPG", "GOPR3599.JPG"));
    assert!(motif_correspond("IMG2026080?*.jpg", "IMG20260808113008.jpg"));
    assert!(motif_correspond("*", "n'importe quoi"));
    assert!(!motif_correspond("*.mp4", "photo.jpg"));
    assert!(motif_correspond("IMG*08*.jpg", "IMG20260808113008.jpg"));
}

/// Un motif trop étroit ne prévient pas : il applique la correction à une
/// partie du lot seulement.
#[test]
fn motif_trop_etroit_rate_une_partie_du_lot() {
    assert!(!motif_correspond("GOPR27*.JPG", "GOPR2699.JPG"));
    assert!(motif_correspond("GOPR27*.JPG", "GOPR2700.JPG"));
}

/// Les GoPro sont redatées et repositionnées en bloc.
#[test]
fn lot_applique_jour_et_position() {
    let mut medias = vec![media("GOPR2699", "GOPR2699.JPG"), media("GOPR2700", "GOPR2700.JPG")];
    let overrides = Overrides {
        lots: vec![Lot {
            jour: Some(JOUR_2026_08_02),
            position: Some(Position { lat: 462_010_000, lon: 136_480_000, alt: None }),
            repartir_sur_segment: true,
            note: Some("Canyoning du Sušec".to_string()),
            ..lot("GOPR2*.JPG")
        }],
        ..Overrides::default()
    };
    let journal = overrides.appliquer(&mut medias, "Europe/Paris");

    assert_eq!(journal.lots_appliques, vec![("GOPR2*.JPG".to_string(), 2)]);
    assert!(journal.inutilisees.is_empty());
    for m in &medias {
        assert_eq!(m.jour, Some(JOUR_2026_08_02));
        assert_eq!(m.fiabilite, Fiabilite::Haute);
        assert_eq!(m.origine_position, Some(OriginePosition::Override));
    }
    // L'horodatage d'origine est conservé : il porte l'ordre relatif.
    assert!(medias[0].prise_le.is_some());
    assert_eq!(journal.repartitions.len(), 1);
    assert_eq!(journal.repartitions[0].identifiants.len(), 2);
    assert_eq!(journal.total_applique(), 2);
}

#[test]
fn correction_individuelle_prime_sur_le_lot() {
    let mut medias = vec![media("GOPR2699", "GOPR2699.JPG")];
    let overrides = Overrides {
        lots: vec![Lot { position: Some(Position { lat: 462_010_000, lon: 136_480_000, alt: None }), ..lot("GOPR*.JPG") }],
        medias: vec![(
            "GOPR2699".to_string(),
            SurchargeMedia {
                position: Some(Position { lat: 463_000_000, lon: 137_000_000, alt: Some(500_000) }),
                prise_le: None,
                jour: None,
                note: None,
            },
        )],
        ..Overrides::default()
    };
    overrides.appliquer(&mut medias, "Europe/Paris");
    let position = medias[0].position.expect("position posée");
    assert_eq!(position.lat, 463_000_000);
    assert_eq!(position.alt, Some(500_000));
}

#[test]
fn exclusion_retire_le_media() {
    let mut medias = vec![media("A", "A.jpg"), media("B", "B.jpg")];
    let overrides = Overrides { exclusions: vec!["A".to_string()], ..Overrides::default() };
    let journal = overrides.appliquer(&mut medias, "Europe/Paris");
    assert_eq!(medias.len(), 1);
    assert_eq!(medias[0].id, "B");
    assert_eq!(journal.exclus, vec!["A".to_string()]);
}

/// Une correction qui ne s'applique à rien est une correction perdue.
#[test]
fn surcharge_sans_cible_est_signalee() {
    let mut medias = vec![media("A", "A.jpg")];
    let overrides = Overrides {
        exclusions: vec!["INEXISTANT".to_string()],
        lots: vec![Lot { jour: Some(JOUR_2026_08_02), ..lot("RIEN*.jpg") }],
        medias: vec![(
            "AUTRE_INEXISTANT".to_string(),
            SurchargeMedia { position: None, prise_le: None, jour: Some(JOUR_2026_08_02), note: None },
        )],
        ..Overrides::default()
    };
    let journal = overrides.appliquer(&mut medias, "Europe/Paris");
    assert_eq!(journal.inutilisees.len(), 3);
    assert_eq!(journal.inutilisees[0], "exclusion « INEXISTANT » : aucun média de ce nom");
}

/// L'inférence par la vitesse se corrige ici, à la journée ou à la tranche.
#[test]
fn mode_force_par_journee_et_par_tranche() {
    let jour = 20671;
    let overrides = Overrides {
        modes: vec![
            ForcageMode {
                jour,
                mode: Mode::Velo,
                de: Some(13 * 3600 + 30 * 60),
                a: Some(18 * 3600),
                note: Some("Tassenbach vers Lienz".to_string()),
            },
            ForcageMode { jour, mode: Mode::Route, de: None, a: None, note: None },
            ForcageMode { jour: 20677, mode: Mode::Route, de: None, a: None, note: None },
        ],
        ..Overrides::default()
    };
    let heure = |h: u32, m: u32| h * 3600 + m * 60;
    // La tranche horaire est déclarée en premier, elle l'emporte.
    assert_eq!(overrides.mode_force(jour, heure(14, 0)), Some(Mode::Velo));
    // Hors tranche, la règle de journée s'applique.
    assert_eq!(overrides.mode_force(jour, heure(9, 0)), Some(Mode::Route));
    // Une journée sans règle laisse l'inférence décider.
    assert_eq!(overrides.mode_force(20672, heure(9, 0)), None);
}

#[test]
fn segment_trop_court_refuse() {
    let overrides = Overrides {
        segments: vec![segment(20665, Mode::Bateau, vec![[129_887_000, 475_893_000]])],
        ..Overrides::default()
    };
    assert_eq!(overrides.valider(), Err(ErreurOverrides::SegmentTropCourt { jour: 20665, nombre: 1 }));
}

#[test]
fn coordonnee_inversee_refusee() {
    // Latitude en première position : GeoJSON attend [longitude, latitude].
    let overrides = Overrides {
        segments: vec![segment(20665, Mode::Bateau, vec![[475_893_000, 1_129_887_000], [475_225_000, 129_797_000]])],
        ..Overrides::default()
    };
    assert_eq!(
        overrides.valider(),
        Err(ErreurOverrides::CoordonneeInvalide { jour: 20665, lon: 475_893_000, lat: 1_129_887_000 })
    );
}

#[test]
fn motif_vide_refuse() {
    let overrides = Overrides { lots: vec![lot("  ")], ..Overrides::default() };
    assert_eq!(overrides.valider(), Err(ErreurOverrides::MotifVide));
    let valides = Overrides {
        segments: vec![segment(20665, Mode::Bateau, vec![[129_887_000, 475_893_000], [129_797_000, 475_225_000]])],
        ..Overrides::default()
    };
    assert_eq!(valides.valider(), Ok(()));
}

/// Le lot est appliqué d'abord, la correction individuelle ensuite.
#[test]
fn loi_correction_sur_lot_sur_des_valeurs() {
    let mut medias = vec![media("X", "dossier/X.jpg")];
    let overrides = Overrides {
        lots: vec![Lot { jour: Some(1), ..lot("x.JPG") }],
        medias: vec![("X".to_string(), SurchargeMedia { position: None, prise_le: None, jour: Some(2), note: None })],
        ..Overrides::default()
    };
    let journal = overrides.appliquer(&mut medias, "Europe/Paris");
    assert_eq!(medias[0].jour, Some(2));
    assert_eq!(journal.medias_surcharges, vec!["X".to_string()]);
    assert_eq!(journal.lots_appliques, vec![("x.JPG".to_string(), 1)]);
}

/// Les médias d'un lot à répartir sont rangés par horodatage, puis par nom
/// de fichier.
#[test]
fn repartition_rangee_par_horodatage_puis_par_nom() {
    let mut tard = media("GOPR2701", "GOPR2701.JPG");
    tard.prise_le = Some(Instant { utc: INSTANT + 60, decalage: 3600 });
    let mut sans_heure = media("GOPR2702", "GOPR2702.JPG");
    sans_heure.prise_le = None;
    let mut medias = vec![tard, media("GOPR2700", "GOPR2700.JPG"), media("GOPR2699", "GOPR2699.JPG"), sans_heure];
    let overrides = Overrides {
        lots: vec![Lot { jour: Some(JOUR_2026_08_02), repartir_sur_segment: true, ..lot("GOPR*.JPG") }],
        ..Overrides::default()
    };
    let journal = overrides.appliquer(&mut medias, "Europe/Paris");
    assert_eq!(journal.repartitions.len(), 1);
    assert_eq!(journal.repartitions[0].jour, JOUR_2026_08_02);
    assert_eq!(
        journal.repartitions[0].identifiants,
        vec!["GOPR2702".to_string(), "GOPR2699".to_string(), "GOPR2700".to_string(), "GOPR2701".to_string()]
    );
}

/// Toute exclusion est soit appliquée, soit signalée.
#[test]
fn chaque_exclusion_est_comptee() {
    let mut medias = vec![media("A", "A.jpg"), media("B", "B.jpg")];
    let overrides = Overrides { exclusions: vec!["B".to_string(), "Z".to_string()], ..Overrides::default() };
    let journal = overrides.appliquer(&mut medias, "Europe/Paris");
    assert_eq!(journal.exclus.len() + journal.inutilisees.len(), 2);
    assert_eq!(medias.len(), 1);
}

#[test]
fn comparaison_sensible_a_la_casse() {
    let car = |t: &str| t.chars().collect::<Vec<char>>();
    assert!(correspond_car(&car("gopr2*.jpg"), &car("gopr2717.jpg")));
    assert!(!correspond_car(&car("GOPR2*.JPG"), &car("gopr2717.jpg")));
    assert!(correspond_car(&car("*a?c"), &car("xxabc")));
    assert!(!correspond_car(&car("*a?c"), &car("xxabcd")));
}

#[test]
fn l_etoile_couvre_tout() {
    assert!(motif_correspond("*", "IMG_0001.JPG"));
    assert!(motif_correspond("*", ""));
    assert!(motif_correspond("*", "été/photo.jpg"));
}

#[test]
fn sans_joker_egalite_sans_casse() {
    assert!(motif_correspond("IMG_0001.JPG", "img_0001.jpg"));
    assert!(!motif_correspond("IMG_0001.JPG", "img_0002.jpg"));
    assert!(!motif_correspond("IMG_0001.JPG", "img_0001.jpg.bak"));
}

#[test]
fn le_dernier_lot_qui_pose_l_emporte() {
    let mut medias = vec![media("GOPR2699", "GOPR2699.JPG")];
    medias[0].anomalies = vec![Anomalie::AltitudeNulle];
    let overrides = Overrides {
        lots: vec![
            Lot { position: Some(Position { lat: 1, lon: 2, alt: None }), ..lot("GOPR*") },
            Lot { position: Some(Position { lat: 3, lon: 4, alt: None }), ..lot("*.jpg") },
            lot("GOPR2699.JPG"),
        ],
        ..Overrides::default()
    };
    overrides.appliquer(&mut medias, "Europe/Paris");
    assert_eq!(medias[0].position, Some(Position { lat: 3, lon: 4, alt: None }));
    assert_eq!(medias[0].fiabilite, Fiabilite::Haute);
    assert_eq!(medias[0].origine_position, Some(OriginePosition::Override));
    assert!(!medias[0].anomalies.contains(&Anomalie::AltitudeNulle));
}

#[test]
fn journal_des_exclusions_et_des_inutilisees() {
    let mut medias = vec![media("A", "A.jpg"), media("B", "B.jpg"), media("C", "C.jpg")];
    let overrides = Overrides {
        exclusions: vec!["C".to_string(), "Z".to_string(), "A".to_string()],
        lots: vec![lot("nulle-part*")],
        ..Overrides::default()
    };
    let journal = overrides.appliquer(&mut medias, "Europe/Paris");
    let ids: Vec<&str> = medias.iter().map(|m| m.id.as_str()).collect();
    assert_eq!(ids, ["B"]);
    assert_eq!(journal.exclus, vec!["C".to_string(), "A".to_string()]);
    assert_eq!(journal.inutilisees.len(), 2);
}
