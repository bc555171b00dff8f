use carnet::noms::Convention;
use carnet::pose::{appliquer, le_long_de, rafraichir_points};
use carnet::scan::{Fiabilite, Instant, Media, OrigineDate, OriginePosition, Position, TypeMedia};
use carnet::track::{BilanTraces, Mode, SourceTrace, Traces, Troncon};

fn distance_mm(a: Position, b: Position) -> u64 {
    let rayon = 6_371_008.8_f64;
    let (lat1, lat2) = ((a.lat as f64 / 1e7).to_radians(), (b.lat as f64 / 1e7).to_radians());
    let dphi = ((b.lat - a.lat) as f64 / 1e7).to_radians();
    let dlambda = ((b.lon - a.lon) as f64 / 1e7).to_radians();
    let h = (dphi / 2.0).sin().powi(2) + lat1.cos() * lat2.cos() * (dlambda / 2.0).sin().powi(2);
    (2.0 * rayon * h.sqrt().asin() * 1000.0).round() as u64
}

/// 2026-07-27 à 16:46 à Paris.
const A: i64 = 1_785_163_560;
const JOUR: i64 = 20661;

fn media(id: &str, utc: i64, position: (i64, i64), fiabilite: Fiabilite) -> Media {
    Media {
        id: id.to_string(),
        type_media: TypeMedia::Photo,
        fichier_source: format!("{id}.jpg"),
        prise_le: Some(Instant { utc, decalage: 7200 }),
        origine_date: OrigineDate::Exif,
        jour: Some(JOUR),
        position: Some(Position { lat: position.0, lon: position.1, alt: None }),
        fiabilite,
        origine_position: Some(OriginePosition::Exif),
        lieu: None,
        publie: true,
        derives: None,
        lqip: None,
        anomalies: Vec::new(),
        largeur: None,
        hauteur: None,
        orientation: None,
        appareil: None,
        convention: Convention::Telephone,
        octets: 1,
    }
}

fn bilan_vide() -> BilanTraces {
    BilanTraces {
        jours_traces: 0,
        jours_sans_trace: Vec::new(),
        troncons_calcules: 0,
        troncons_droits: 0,
        repartitions_sans_segment: Vec::new(),
        transits: 0,
        transits_manques: Vec::new(),
        sorties_de_camp: 0,
    }
}

fn trois_medias(debut: i64) -> Vec<Media> {
    vec![
        media("A", debut, (474_542_000, 109_826_000), Fiabilite::Haute),
        media("LAC", A + 1140, (474_575_000, 109_804_000), Fiabilite::Basse),
        media("B", A + 4200, (474_565_000, 109_940_000), Fiabilite::Haute),
    ]
}

/// Deux bornes sur la rive est, et au milieu une photo dont le relevé réseau
/// tombe dans le lac ; le tronçon contourne le lac par le nord.
#[test]
fn la_photo_tombee_dans_l_eau_revient_sur_le_sentier() {
    let mut medias = trois_medias(A);
    let traces = Traces {
        troncons: vec![Troncon {
            jour: JOUR,
            mode: Mode::Marche,
            source: SourceTrace::Calculee,
            points: vec![[109_826_000, 474_542_000], [109_800_000, 474_620_000], [109_940_000, 474_565_000]],
        }],
        points: Vec::new(),
        bilan: bilan_vide(),
    };
    let bilan = appliquer(&mut medias, &traces, &distance_mm);
    assert_eq!(bilan.posees, 1);
    let pose = medias[1].position.unwrap();
    assert_eq!(medias[1].origine_position, Some(OriginePosition::Posee));
    // La photo n'est plus au milieu du lac, elle est sur la rive nord.
    assert!(pose.lat > 474_590_000, "posée à {}", pose.lat);
    // Et la fiabilité ne monte pas : posée n'est pas mesurée.
    assert_eq!(medias[1].fiabilite, Fiabilite::Basse);
}

/// Sans tronçon reliant les deux bornes, on ne pose rien.
#[test]
fn sans_troncon_la_position_ne_bouge_pas() {
    let mut medias = trois_medias(A);
    let traces = Traces { troncons: Vec::new(), points: Vec::new(), bilan: bilan_vide() };
    let bilan = appliquer(&mut medias, &traces, &distance_mm);
    assert_eq!(bilan.posees, 0);
    assert_eq!(bilan.sans_troncon, 1);
    assert_eq!(medias[1].position.unwrap().lat, 474_575_000);
}

/// Une borne trop lointaine dans le temps ne dit plus rien du parcours.
#[test]
fn la_borne_trop_lointaine_ne_pose_pas() {
    let mut medias = trois_medias(A - 24_360);
    let traces = Traces { troncons: Vec::new(), points: Vec::new(), bilan: bilan_vide() };
    assert_eq!(appliquer(&mut medias, &traces, &distance_mm).posees, 0);
}

#[test]
fn le_long_d_une_polyligne() {
    let points = vec![[0, 0], [0, 10_000_000], [10_000_000, 10_000_000]];
    let milieu = le_long_de(&points, 1, 2, &distance_mm).unwrap();
    assert!((milieu.lat - 10_000_000).abs() < 500_000, "lat {}", milieu.lat);
    let fin = le_long_de(&points, 2, 2, &distance_mm).unwrap();
    assert!((fin.lon - 10_000_000).abs() < 10_000);
    // Une fraction hors de [0, 1] est ramenée à ses bornes.
    assert_eq!(le_long_de(&points, -5, 2, &distance_mm).map(|p| (p.lat, p.lon)), Some((0, 0)));
    assert!(le_long_de(&vec![[1, 2]], 1, 2, &distance_mm).is_none());
}

#[test]
fn les_points_suivent_la_pose() {
    let medias = trois_medias(A);
    let mut traces = Traces { troncons: Vec::new(), points: Vec::new(), bilan: bilan_vide() };
    rafraichir_points(&mut traces, &medias);
    assert_eq!(traces.points.len(), 3);
    assert_eq!(traces.points[1].id, "LAC");
}
