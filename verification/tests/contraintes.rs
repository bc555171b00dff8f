//! Un test par contrainte de la spécification, sur des fichiers lus
//! fabriqués : ce que l'EXIF et le nom auraient donné.

use carnet::noms::analyser;
use carnet::quality::evaluer;
use carnet::scan::{assembler, Anomalie, ErreurScan, Fiabilite, FichierLu, LectureExif, Media, OrigineDate, Position};
use carnet::voyage::Voyage;

/// Distance sur une sphère de 6 371 km, en millimètres.
fn distance_mm(a: Position, b: Position) -> u64 {
    let rayon = 6_371_000.0_f64;
    let (lat1, lat2) = ((a.lat as f64 / 1e7).to_radians(), (b.lat as f64 / 1e7).to_radians());
    let dphi = ((b.lat - a.lat) as f64 / 1e7).to_radians();
    let dlambda = ((b.lon - a.lon) as f64 / 1e7).to_radians();
    let h = (dphi / 2.0).sin().powi(2) + lat1.cos() * lat2.cos() * (dlambda / 2.0).sin().powi(2);
    (2.0 * rayon * h.sqrt().asin() * 1000.0).round() as u64
}

fn voyage(dossiers_ignores: Vec<String>) -> Voyage {
    Voyage {
        id: "fixtures".to_string(),
        titre: "Fixtures des contraintes".to_string(),
        sous_titre: None,
        date_debut: 20658,
        date_fin: 20680,
        pays: vec![],
        distance_km: None,
        nuits: None,
        mode: None,
        fuseau: "Europe/Paris".to_string(),
        source_photos: "/fixtures".to_string(),
        dossiers_ignores,
        notion: None,
        lieux: vec![],
    }
}

fn fichier(relatif: &str, naif: Option<i64>, position: Option<(i64, i64, Option<i64>)>) -> FichierLu {
    let nom = relatif.rsplit('/').next().unwrap_or(relatif);
    FichierLu {
        chemin: format!("/fixtures/{relatif}"),
        relatif: relatif.to_string(),
        nom: analyser(nom),
        lecture: LectureExif {
            prise_le: naif,
            decalage: None,
            position: position.map(|(lat, lon, alt)| Position { lat, lon, alt }),
            hemisphere_absent: false,
            appareil: None,
            largeur: Some(4000),
            hauteur: Some(3000),
            orientation: Some(1),
            presente: naif.is_some() || position.is_some(),
        },
        octets: 1234,
    }
}

/// 2026-08-01 à 10:00, heure de Paris, lu comme une heure naïve.
const PREMIER_AOUT: i64 = 1_785_578_400;

fn inventorier() -> (Vec<Media>, carnet::quality::Bilan) {
    let fichiers = vec![
        fichier("c01_altitude_reelle.jpg", Some(PREMIER_AOUT), Some((455_000_000, 74_000_000, Some(1_200_000)))),
        fichier("c01_altitude_nulle.jpg", Some(PREMIER_AOUT), Some((455_100_000, 74_000_000, Some(0)))),
        fichier("c02_clone_matin.jpg", Some(PREMIER_AOUT - 7200), Some((456_000_000, 75_000_000, Some(900_000)))),
        fichier("c02_clone_soir.jpg", Some(PREMIER_AOUT + 7200), Some((456_000_000, 75_000_000, Some(900_000)))),
        fichier("IMG_20260730_071148.jpg", Some(1_785_240_000), None),
        fichier("GOPR2699.JPG", Some(1_451_815_200), None),
        fichier("IMG20260808113008~2.jpg", Some(1_786_188_608), None),
        fichier("IMG-20260811-WA0000.jpg", None, None),
        fichier("c05_matin.jpg", Some(1_786_006_800), Some((460_000_000, 120_000_000, Some(1_000_000)))),
        fichier("c05_apres.jpg", Some(1_786_006_800 + 7200), Some((461_000_000, 120_000_000, Some(1_000_000)))),
    ];
    let v = voyage(vec!["[Originals]".to_string()]);
    let mut medias = match assembler(fichiers, &v.fuseau) {
        Ok(m) => m,
        Err(e) => panic!("inventaire impossible : {}", e.message()),
    };
    let bilan = evaluer(&mut medias, &v, &distance_mm);
    (medias, bilan)
}

fn media<'a>(medias: &'a [Media], id: &str) -> &'a Media {
    medias.iter().find(|m| m.id == id).unwrap_or_else(|| panic!("« {id} » absent de l'inventaire"))
}

/// C1 : c'est l'altitude non nulle qui distingue une position satellite.
#[test]
fn c1_altitude_nulle_declasse_la_position() {
    let (medias, _) = inventorier();
    let fiable = media(&medias, "c01_altitude_reelle");
    assert_eq!(fiable.fiabilite, Fiabilite::Haute);
    assert!(!fiable.anomalies.contains(&Anomalie::AltitudeNulle));
    let suspecte = media(&medias, "c01_altitude_nulle");
    assert_eq!(suspecte.fiabilite, Fiabilite::Basse);
    assert!(suspecte.anomalies.contains(&Anomalie::AltitudeNulle));
    // La position reste, elle n'est pas effacée.
    assert!(suspecte.position.is_some());
}

/// C2 : deux médias à la même position, à plus de vingt minutes.
#[test]
fn c2_positions_clonees_signalees() {
    let (medias, bilan) = inventorier();
    for id in ["c02_clone_matin", "c02_clone_soir"] {
        assert!(media(&medias, id).anomalies.contains(&Anomalie::PositionClonee), "{id}");
    }
    assert!(bilan.clones_groupes >= 1);
    // Deux médias pris au même instant ne sont pas des clones.
    assert!(!media(&medias, "c01_altitude_reelle").anomalies.contains(&Anomalie::PositionClonee));
}

/// C3 : le nom porte la date du partage, l'EXIF porte la vraie date.
#[test]
fn c3_le_nom_ne_prime_jamais_sur_l_exif() {
    let (medias, _) = inventorier();
    let repartage = media(&medias, "IMG_20260730_071148");
    assert_eq!(repartage.origine_date, OrigineDate::Exif);
    assert_eq!(repartage.jour, Some(20662));
    assert!(repartage.anomalies.contains(&Anomalie::NomMenteur));
}

/// C4 : horloge perdue, déduite des bornes du voyage.
#[test]
fn c4_horloge_perdue_detectee() {
    let (medias, _) = inventorier();
    let gopro = media(&medias, "GOPR2699");
    assert!(gopro.anomalies.contains(&Anomalie::HorlogePerdue));
    assert_eq!(gopro.jour, Some(16803));
    assert_eq!(gopro.fiabilite, Fiabilite::Absente);
    assert!(gopro.position.is_none());
}

/// C5 : un saut anormal est signalé comme candidat.
#[test]
fn c5_trou_de_trace_signale_comme_candidat() {
    let (_, bilan) = inventorier();
    let trous: Vec<_> = bilan.trous.iter().filter(|t| t.jour == 20671).collect();
    assert!(!trous.is_empty(), "le saut du 6 août devrait être signalé");
    assert!(trous.iter().any(|t| t.motif == "saut de 11.1 km en 120 min, entre 09:00 et 11:00"), "{trous:?}");
}

/// C6 : le tilde est normalisé, la variante conservée, l'anomalie posée.
#[test]
fn c6_nom_hostile_normalise() {
    let (medias, _) = inventorier();
    let variante = media(&medias, "IMG20260808113008-2");
    assert!(variante.anomalies.contains(&Anomalie::NomNormalise));
    assert_eq!(variante.fichier_source, "IMG20260808113008~2.jpg");
}

/// C8 : le sous-dossier d'originaux est ignoré par défaut.
#[test]
fn c8_sous_dossier_ignore() {
    assert!(voyage(vec!["[Originals]".to_string()]).dossier_ignore("[Originals]"));
    assert!(!voyage(vec![]).dossier_ignore("[Originals]"));
}

/// C8 : sans cette exclusion, la collision fait échouer l'inventaire.
#[test]
fn c8_collision_fait_echouer_le_scan() {
    let fichiers = vec![
        fichier("c08_homonyme.jpg", Some(PREMIER_AOUT), None),
        fichier("[Originals]/c08_homonyme.jpg", Some(PREMIER_AOUT), None),
    ];
    let erreur = assembler(fichiers, "Europe/Paris").expect_err("deux homonymes doivent faire échouer");
    assert!(matches!(&erreur, ErreurScan::Collisions(c) if c.len() == 1));
    let message = erreur.message();
    assert!(message.contains("collision"), "message obtenu : {message}");
    assert!(message.contains("c08_homonyme"), "message obtenu : {message}");
    assert!(message.contains("    /fixtures/[Originals]/c08_homonyme.jpg\n"), "message obtenu : {message}");
}

/// C10 : aucun EXIF, la date vient du nom, et seulement dans ce cas.
#[test]
fn c10_fichier_sans_exif_date_par_son_nom() {
    let (medias, _) = inventorier();
    let messagerie = media(&medias, "IMG-20260811-WA0000");
    assert!(messagerie.anomalies.contains(&Anomalie::ExifAbsent));
    assert!(messagerie.anomalies.contains(&Anomalie::DateDuNom));
    assert_eq!(messagerie.origine_date, OrigineDate::Nom);
    assert_eq!(messagerie.jour, Some(20676));
    assert_eq!(messagerie.fiabilite, Fiabilite::Absente);
}

/// La datation par le nom est un dernier recours.
#[test]
fn la_date_du_nom_ne_sert_qu_en_dernier_recours() {
    let (medias, _) = inventorier();
    let par_le_nom = medias.iter().filter(|m| m.origine_date == OrigineDate::Nom).count();
    assert_eq!(par_le_nom, 1, "seul le fichier de messagerie doit être daté par son nom");
}

#[test]
fn l_inventaire_est_range_par_identifiant() {
    let (medias, _) = inventorier();
    let ids: Vec<_> = medias.iter().map(|m| m.id.clone()).collect();
    let mut ranges = ids.clone();
    ranges.sort();
    assert_eq!(ids, ranges);
    assert_eq!(medias.len(), 10);
}

#[test]
fn message_d_un_dossier_illisible() {
    assert_eq!(ErreurScan::Parcours("/photos".to_string()).message(), "le dossier source /photos est illisible");
}

/// Le message liste chaque collision et tous ses fichiers, sans en taire.
#[test]
fn toutes_les_collisions_sont_listees() {
    let mut fichiers = Vec::new();
    for k in 0..12 {
        fichiers.push(fichier(&format!("homonyme{k:02}.jpg"), Some(PREMIER_AOUT), None));
        fichiers.push(fichier(&format!("[Originals]/homonyme{k:02}.jpg"), Some(PREMIER_AOUT), None));
    }
    let message = assembler(fichiers, "Europe/Paris").expect_err("douze collisions").message();
    assert!(message.starts_with("12 collisions"), "message obtenu : {message}");
    for k in 0..12 {
        assert!(message.contains(&format!("  « homonyme{k:02} » :\n")), "message obtenu : {message}");
        assert!(message.contains(&format!("    /fixtures/[Originals]/homonyme{k:02}.jpg\n")), "message obtenu : {message}");
    }
    assert!(!message.contains("autres"));
}
