use carnet::jours::Journee;
use carnet::lieux::appliquer;
use carnet::noms::Convention;
use carnet::scan::{Anomalie, Fiabilite, Instant, Media, OrigineDate, OriginePosition, Position, TypeMedia};
use carnet::voyage::{Lieu, TypeLieu, Voyage};

fn distance_mm(a: Position, b: Position) -> u64 {
    let rayon = 6_371_008.8_f64;
    let (lat1, lat2) = ((a.lat as f64 / 1e7).to_radians(), (b.lat as f64 / 1e7).to_radians());
    let dphi = ((b.lat - a.lat) as f64 / 1e7).to_radians();
    let dlambda = ((b.lon - a.lon) as f64 / 1e7).to_radians();
    let h = (dphi / 2.0).sin().powi(2) + lat1.cos() * lat2.cos() * (dlambda / 2.0).sin().powi(2);
    (2.0 * rayon * h.sqrt().asin() * 1000.0).round() as u64
}

/// 2026-08-14 à 10:00 à Paris.
const DIX_HEURES: i64 = 1_786_694_400;
const JOUR: i64 = 20679;

fn voyage(lieux: Vec<Lieu>) -> Voyage {
    Voyage {
        id: "2026-alpes".to_string(),
        titre: "Alpes".to_string(),
        sous_titre: None,
        date_debut: 20660,
        date_fin: 20690,
        pays: vec!["fr".to_string()],
        distance_km: None,
        nuits: None,
        mode: None,
        fuseau: "Europe/Paris".to_string(),
        source_photos: "/photos".to_string(),
        dossiers_ignores: Vec::new(),
        notion: None,
        lieux,
    }
}

fn media(id: &str, utc: i64, jour: i64, position: Option<(i64, i64)>, fiabilite: Fiabilite) -> Media {
    Media {
        id: id.to_string(),
        type_media: TypeMedia::Photo,
        fichier_source: format!("{id}.jpg"),
        prise_le: Some(Instant { utc, decalage: 7200 }),
        origine_date: OrigineDate::Exif,
        jour: Some(jour),
        position: position.map(|(lat, lon)| Position { lat, lon, alt: Some(1_000_000) }),
        fiabilite,
        origine_position: position.map(|_| OriginePosition::Exif),
        lieu: None,
        publie: true,
        derives: None,
        lqip: None,
        anomalies: Vec::new(),
        largeur: None,
        hauteur: None,
        orientation: None,
        appareil: None,
        convention: Convention::Telephone,
        octets: 1,
    }
}

fn video(id: &str, utc: i64, position: (i64, i64)) -> Media {
    let mut m = media(id, utc, JOUR, Some(position), Fiabilite::Basse);
    m.type_media = TypeMedia::Video;
    m.fichier_source = format!("{id}.mp4");
    m.anomalies.push(Anomalie::AltitudeNulle);
    m
}

/// Promotion quand le temps et la distance concordent.
#[test]
fn video_promue_par_une_photo_proche() {
    let mut medias = vec![
        media("PHOTO", DIX_HEURES, JOUR, Some((455_000_000, 74_000_000)), Fiabilite::Haute),
        video("VIDEO", DIX_HEURES + 300, (455_005_000, 74_005_000)),
    ];
    let bilan = appliquer(&mut medias, &voyage(Vec::new()), &Vec::new(), &distance_mm);
    assert_eq!(bilan.videos_promues, 1);
    let v = medias.iter().find(|m| m.id == "VIDEO").expect("vidéo");
    assert_eq!(v.fiabilite, Fiabilite::Haute);
    // L'anomalie constatée reste, seul le verdict change.
    assert!(v.anomalies.contains(&Anomalie::AltitudeNulle));
}

/// Une position gelée n'est pas promue par une photo prise au même moment ailleurs.
#[test]
fn video_non_promue_si_la_position_est_loin() {
    let mut medias = vec![
        media("PHOTO", DIX_HEURES, JOUR, Some((455_000_000, 74_000_000)), Fiabilite::Haute),
        video("VIDEO", DIX_HEURES + 300, (456_000_000, 76_000_000)),
    ];
    let bilan = appliquer(&mut medias, &voyage(Vec::new()), &Vec::new(), &distance_mm);
    assert_eq!(bilan.videos_promues, 0);
}

#[test]
fn video_non_promue_si_la_photo_est_trop_ancienne() {
    let mut medias = vec![
        media("PHOTO", DIX_HEURES - 3600, JOUR, Some((455_000_000, 74_000_000)), Fiabilite::Haute),
        video("VIDEO", DIX_HEURES + 300, (455_001_000, 74_001_000)),
    ];
    let bilan = appliquer(&mut medias, &voyage(Vec::new()), &Vec::new(), &distance_mm);
    assert_eq!(bilan.videos_promues, 0);
}

#[test]
fn interpolation_entre_deux_reperes() {
    let mut medias = vec![
        media("A", DIX_HEURES, JOUR, Some((450_000_000, 70_000_000)), Fiabilite::Haute),
        media("B", DIX_HEURES + 600, JOUR, None, Fiabilite::Absente),
        media("C", DIX_HEURES + 1200, JOUR, Some((450_200_000, 70_000_000)), Fiabilite::Haute),
    ];
    let bilan = appliquer(&mut medias, &voyage(Vec::new()), &Vec::new(), &distance_mm);
    assert_eq!(bilan.interpolees, 1);
    let b = medias.iter().find(|m| m.id == "B").expect("média B");
    let position = b.position.expect("position interpolée");
    assert_eq!(position.lat, 450_100_000);
    assert_eq!(b.fiabilite, Fiabilite::Basse);
    assert_eq!(b.origine_position, Some(OriginePosition::Interpolee));
    // Une position reconstituée ne prétend pas connaître l'altitude.
    assert!(position.alt.is_none());
}

#[test]
fn pas_d_interpolation_au_dela_des_garde_fous() {
    let mut medias = vec![
        media("A", DIX_HEURES - 7200, JOUR, Some((450_000_000, 70_000_000)), Fiabilite::Haute),
        media("B", DIX_HEURES, JOUR, None, Fiabilite::Absente),
        media("C", DIX_HEURES + 7200, JOUR, Some((450_200_000, 70_000_000)), Fiabilite::Haute),
    ];
    let bilan = appliquer(&mut medias, &voyage(Vec::new()), &Vec::new(), &distance_mm);
    assert_eq!(bilan.interpolees, 0);
}

#[test]
fn pas_d_interpolation_entre_deux_journees() {
    let mut medias = vec![
        media("A", DIX_HEURES + 49_800, JOUR, Some((450_000_000, 70_000_000)), Fiabilite::Haute),
        media("B", DIX_HEURES + 50_400, JOUR + 1, None, Fiabilite::Absente),
        media("C", DIX_HEURES + 51_000, JOUR + 1, Some((450_200_000, 70_000_000)), Fiabilite::Haute),
    ];
    let bilan = appliquer(&mut medias, &voyage(Vec::new()), &Vec::new(), &distance_mm);
    // Les bornes doivent appartenir à la journée du média : ici, une seule.
    assert_eq!(bilan.interpolees, 0);
}

/// Un média sans position hérite du lieu de sa journée.
#[test]
fn heritage_du_lieu_de_la_journee() {
    let lieu = Lieu {
        id: "lillaz".to_string(),
        nom: "Lillaz".to_string(),
        type_lieu: TypeLieu::Etape,
        position: Position { lat: 456_000_000, lon: 73_000_000, alt: None },
        du: None,
        au: None,
    };
    let journees = vec![Journee { date: JOUR, titre: None, lieu: Some("lillaz".to_string()), camp: None, couverture: None }];
    let mut medias = vec![media("B", DIX_HEURES, JOUR, None, Fiabilite::Absente), media("Z", DIX_HEURES, JOUR + 3, None, Fiabilite::Absente)];
    let bilan = appliquer(&mut medias, &voyage(vec![lieu]), &journees, &distance_mm);
    assert_eq!(bilan.heritees, 1);
    assert_eq!(medias[0].position.map(|p| p.lat), Some(456_000_000));
    assert_eq!(medias[0].origine_position, Some(OriginePosition::Heritee));
    assert_eq!(medias[0].lieu.as_deref(), Some("lillaz"));
    assert_eq!(bilan.sans_position, 1);
    assert_eq!(bilan.jours_sans_lieu, vec![JOUR + 3]);
}

/// Les médias sortent rangés par horodatage.
#[test]
fn les_medias_sont_ranges() {
    let mut medias = vec![
        media("B", DIX_HEURES + 10, JOUR, None, Fiabilite::Absente),
        media("A", DIX_HEURES, JOUR, None, Fiabilite::Absente),
    ];
    appliquer(&mut medias, &voyage(Vec::new()), &Vec::new(), &distance_mm);
    assert_eq!(medias[0].id, "A");
}

/// Une vidéo clonée n'est jamais promue, même confirmée par une photo.
#[test]
fn video_clonee_non_promue() {
    let mut v = video("VIDEO", DIX_HEURES + 300, (455_005_000, 74_005_000));
    v.anomalies.push(Anomalie::PositionClonee);
    let mut medias = vec![media("PHOTO", DIX_HEURES, JOUR, Some((455_000_000, 74_000_000)), Fiabilite::Haute), v];
    let bilan = appliquer(&mut medias, &voyage(Vec::new()), &Vec::new(), &distance_mm);
    assert_eq!(bilan.videos_promues, 0);
    assert_eq!(medias.iter().find(|m| m.id == "VIDEO").expect("vidéo").fiabilite, Fiabilite::Basse);
}

/// Moins de dix minutes et moins de cinq cents mètres, au sens strict.
#[test]
fn promotion_aux_bornes() {
    let cas = |ecart: i64, millimetres: u64| {
        let mut medias = vec![
            media("PHOTO", DIX_HEURES, JOUR, Some((455_000_000, 74_000_000)), Fiabilite::Haute),
            video("VIDEO", DIX_HEURES + ecart, (455_000_010, 74_000_000)),
        ];
        let mesure = move |a: Position, b: Position| if a == b { 0 } else { millimetres };
        appliquer(&mut medias, &voyage(Vec::new()), &Vec::new(), &|a, b| mesure(a, b)).videos_promues
    };
    assert_eq!(cas(599, 0), 1);
    assert_eq!(cas(600, 0), 0);
    assert_eq!(cas(300, 499_999), 1);
    assert_eq!(cas(300, 500_000), 0);
}

/// Moins de trente minutes de part et d'autre, moins de cinq kilomètres
/// entre les bornes, au sens strict.
#[test]
fn interpolation_aux_bornes() {
    let cas = |ecart: i64, millimetres: u64| {
        let mut medias = vec![
            media("A", DIX_HEURES - ecart, JOUR, Some((450_000_000, 70_000_000)), Fiabilite::Haute),
            media("B", DIX_HEURES, JOUR, None, Fiabilite::Absente),
            media("C", DIX_HEURES + ecart, JOUR, Some((450_200_000, 70_000_000)), Fiabilite::Haute),
        ];
        let mesure = move |a: Position, b: Position| if a == b { 0 } else { millimetres };
        appliquer(&mut medias, &voyage(Vec::new()), &Vec::new(), &|a, b| mesure(a, b)).interpolees
    };
    assert_eq!(cas(1799, 1000), 1);
    assert_eq!(cas(1800, 1000), 0);
    assert_eq!(cas(600, 4_999_999), 1);
    assert_eq!(cas(600, 5_000_000), 0);
}
