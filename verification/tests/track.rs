use carnet::construction::{construire, preparer, Reponses};
use carnet::noms::Convention;
use carnet::overrides::{ForcageItineraire, ForcageMode, Overrides, Segment};
use carnet::voyage::Voyage;
use carnet::scan::{Fiabilite, Instant, Media, OrigineDate, OriginePosition, Position, TypeMedia};
use carnet::track::{
    demande_segment, jours_fiables, paires_du_jour, points_medias, repartitions_sans_segment, tracer_journee,
    troncon_de_segment, Mode, SourceTrace,
};

/// Distance sur la sphère, en millimètres.
fn distance_mm(a: Position, b: Position) -> u64 {
    let rayon = 6_371_008.8_f64;
    let (lat1, lat2) = ((a.lat as f64 / 1e7).to_radians(), (b.lat as f64 / 1e7).to_radians());
    let dphi = ((b.lat - a.lat) as f64 / 1e7).to_radians();
    let dlambda = ((b.lon - a.lon) as f64 / 1e7).to_radians();
    let h = (dphi / 2.0).sin().powi(2) + lat1.cos() * lat2.cos() * (dlambda / 2.0).sin().powi(2);
    (2.0 * rayon * h.sqrt().asin() * 1000.0).round() as u64
}

/// 2026-08-14 à 10:00 à Paris.
const DIX_HEURES: i64 = 1_786_694_400;
const JOUR: i64 = 20679;

fn media(id: &str, utc: i64, lat: i64, lon: i64) -> Media {
    Media {
        id: id.to_string(),
        type_media: TypeMedia::Photo,
        fichier_source: format!("{id}.jpg"),
        prise_le: Some(Instant { utc, decalage: 7200 }),
        origine_date: OrigineDate::Exif,
        jour: Some(JOUR),
        position: Some(Position { lat, lon, alt: Some(1_200_000) }),
        fiabilite: Fiabilite::Haute,
        origine_position: Some(OriginePosition::Exif),
        lieu: None,
        publie: true,
        derives: None,
        lqip: None,
        anomalies: Vec::new(),
        largeur: None,
        hauteur: None,
        orientation: None,
        appareil: None,
        convention: Convention::Telephone,
        octets: 1,
    }
}

/// Chaque mode terrestre a son réseau, les autres n'en ont aucun.
#[test]
fn seuls_les_modes_terrestres_partent_au_calcul() {
    assert_eq!(Mode::Route.profil(), Some("driving-car"));
    assert_eq!(Mode::Velo.profil(), Some("cycling-regular"));
    assert_eq!(Mode::Marche.profil(), Some("foot-walking"));
    for mode in [Mode::Bateau, Mode::Train, Mode::Telepherique] {
        assert!(!mode.calculable(), "{} ne doit jamais être calculé", mode.nom());
    }
}

#[test]
fn couleur_de_la_marche_conforme_a_la_spec() {
    assert_eq!(Mode::Marche.couleur(), "#d1491f");
}

/// Les vitesses sont en mètres par heure.
#[test]
fn inference_par_la_vitesse() {
    assert_eq!(Mode::depuis_vitesse(3_500), Mode::Marche);
    assert_eq!(Mode::depuis_vitesse(15_000), Mode::Velo);
    assert_eq!(Mode::depuis_vitesse(70_000), Mode::Route);
    assert_eq!(Mode::depuis_vitesse(5_999), Mode::Marche);
    assert_eq!(Mode::depuis_vitesse(6_000), Mode::Velo);
    assert_eq!(Mode::depuis_vitesse(25_000), Mode::Route);
}

/// Neuf kilomètres à vol d'oiseau entre deux photos espacées de quatre
/// heures : la vitesse dit la marche, la distance dit la voiture.
#[test]
fn la_distance_corrige_les_marches_trop_longues() {
    assert_eq!(Mode::Marche.corrige_par_distance(9_400_000), Mode::Route);
    assert_eq!(Mode::Marche.corrige_par_distance(3_800_000), Mode::Marche);
    assert_eq!(Mode::Velo.corrige_par_distance(40_000_000), Mode::Velo);
}

fn tracer(medias: &Vec<Media>, overrides: &Overrides) -> (Vec<carnet::track::Troncon>, usize, usize) {
    let paires = paires_du_jour(medias, JOUR, overrides, "Europe/Paris", &distance_mm);
    let routes = vec![None; paires.len()];
    tracer_journee(JOUR, &paires, routes)
}

#[test]
fn une_marche_donne_un_troncon_mesure() {
    // Environ 800 mètres en dix minutes, soit 4,7 km/h.
    let medias = vec![
        media("A", DIX_HEURES, 455_000_000, 74_000_000),
        media("B", DIX_HEURES + 600, 455_000_000, 74_100_000),
    ];
    let (troncons, _, _) = tracer(&medias, &Overrides::default());
    assert_eq!(troncons.len(), 1);
    assert_eq!(troncons[0].mode, Mode::Marche);
    assert_eq!(troncons[0].source, SourceTrace::Mesuree);
}

#[test]
fn le_bruit_gps_ne_cree_pas_de_troncon() {
    // Dix mètres : un appareil immobile.
    let medias = vec![
        media("A", DIX_HEURES, 455_000_000, 74_000_000),
        media("B", DIX_HEURES + 300, 455_000_800, 74_000_000),
    ];
    let (troncons, _, _) = tracer(&medias, &Overrides::default());
    assert!(troncons.is_empty());
}

#[test]
fn un_troncon_routier_sans_itineraire_reste_droit() {
    // Vingt kilomètres en dix minutes : 120 km/h.
    let medias = vec![
        media("A", DIX_HEURES, 455_000_000, 74_000_000),
        media("B", DIX_HEURES + 600, 456_800_000, 74_000_000),
    ];
    let (troncons, calcules, droits) = tracer(&medias, &Overrides::default());
    assert_eq!(troncons.len(), 1);
    assert_eq!(troncons[0].mode, Mode::Route);
    assert_eq!(troncons[0].source, SourceTrace::Mesuree);
    assert_eq!(droits, 1);
    assert_eq!(calcules, 0);
}

/// Le mode déclaré doit l'emporter sur l'inférence.
#[test]
fn le_mode_declare_emporte_sur_l_inference() {
    let medias = vec![
        media("A", DIX_HEURES, 455_000_000, 74_000_000),
        media("B", DIX_HEURES + 600, 455_000_000, 74_100_000),
    ];
    let overrides = Overrides {
        modes: vec![ForcageMode { jour: JOUR, mode: Mode::Bateau, de: None, a: None, note: None }],
        ..Overrides::default()
    };
    let (troncons, _, _) = tracer(&medias, &overrides);
    assert_eq!(troncons.len(), 1);
    assert_eq!(troncons[0].mode, Mode::Bateau);
}

#[test]
fn un_itineraire_venu_donne_un_troncon_calcule() {
    let medias = vec![
        media("A", DIX_HEURES, 455_000_000, 74_000_000),
        media("B", DIX_HEURES + 600, 456_800_000, 74_000_000),
    ];
    let paires = paires_du_jour(&medias, JOUR, &Overrides::default(), "Europe/Paris", &distance_mm);
    let route = vec![[74_000_000, 455_000_000], [74_500_000, 456_000_000], [74_000_000, 456_800_000]];
    let (troncons, calcules, droits) = tracer_journee(JOUR, &paires, vec![Some(route.clone())]);
    assert_eq!((calcules, droits), (1, 0));
    assert_eq!(troncons[0].source, SourceTrace::Calculee);
    assert_eq!(troncons[0].points, route);
}

#[test]
fn les_points_de_media_gardent_l_ordre() {
    let mut sans_position = media("C", DIX_HEURES, 0, 0);
    sans_position.position = None;
    let medias = vec![media("A", DIX_HEURES, 1, 2), sans_position, media("B", DIX_HEURES, 3, 4)];
    let points = points_medias(&medias);
    assert_eq!(points.len(), 2);
    assert_eq!(points[0].id, "A");
    assert_eq!(points[1].position.lon, 4);
    assert_eq!(jours_fiables(&medias), vec![JOUR]);
}

#[test]
fn segment_calcule_ou_manuel() {
    let segment = Segment {
        jour: JOUR,
        mode: Mode::Route,
        apres: None,
        points: vec![[1, 2], [3, 4], [5, 6]],
        calculer: true,
        note: None,
    };
    let demande = demande_segment(&segment).expect("route calculable");
    assert_eq!(demande.depart.lat, 2);
    assert_eq!(demande.arrivee.lon, 5);
    assert_eq!(demande.passages, vec![[3, 4]]);
    let manuel = troncon_de_segment(&segment, None);
    assert_eq!(manuel.source, SourceTrace::Manuelle);
    assert_eq!(manuel.points, segment.points);
    let bateau = Segment { mode: Mode::Bateau, ..segment.clone() };
    assert!(demande_segment(&bateau).is_none());
}

#[test]
fn repartition_sans_segment_signalee() {
    let overrides = Overrides {
        lots: vec![carnet::overrides::Lot {
            motif: "GOPR*".to_string(),
            jour: Some(JOUR),
            position: None,
            prise_le: None,
            repartir_sur_segment: true,
            note: None,
        }],
        ..Overrides::default()
    };
    assert_eq!(repartitions_sans_segment(&overrides), vec![JOUR]);
}

fn voyage_sans_lieux() -> Voyage {
    Voyage {
        id: "2026-alpes".to_string(),
        titre: "Alpes".to_string(),
        sous_titre: None,
        date_debut: JOUR,
        date_fin: JOUR,
        pays: Vec::new(),
        distance_km: None,
        nuits: None,
        mode: None,
        fuseau: "Europe/Paris".to_string(),
        source_photos: "/p".to_string(),
        dossiers_ignores: Vec::new(),
        notion: None,
        lieux: Vec::new(),
    }
}

/// Une marche, puis une route qui part au moteur avec son col imposé, et
/// un segment manuel : les demandes, puis les traces une fois les réponses
/// venues.
#[test]
fn les_traces_du_voyage_en_deux_temps() {
    let medias = vec![
        media("A", DIX_HEURES, 455_000_000, 74_000_000),
        media("B", DIX_HEURES + 600, 455_000_000, 74_100_000),
        media("C", DIX_HEURES + 1200, 456_800_000, 74_100_000),
    ];
    let segment = Segment {
        jour: JOUR,
        mode: Mode::Bateau,
        apres: None,
        points: vec![[1, 2], [3, 4]],
        calculer: false,
        note: None,
    };
    let overrides = Overrides {
        segments: vec![segment],
        itineraires: vec![ForcageItineraire { jour: JOUR, mode: Mode::Route, points_de_passage: vec![[74_050_000, 456_000_000]], note: None }],
        ..Overrides::default()
    };
    let voyage = voyage_sans_lieux();
    let demandes = preparer(&medias, &voyage, &overrides, &distance_mm);
    assert_eq!(demandes.jours.len(), 1);
    assert_eq!(demandes.jours[0].paires.len(), 2);
    // Chacune part au moteur ; le col imposé à la route ne va qu'à elle.
    let marche = demandes.jours[0].demandes[0].as_ref().expect("la marche part au moteur");
    assert_eq!(marche.mode, Mode::Marche);
    assert!(marche.passages.is_empty());
    let route = demandes.jours[0].demandes[1].as_ref().expect("la route part au moteur");
    assert_eq!(route.mode, Mode::Route);
    assert_eq!(route.passages, vec![[74_050_000, 456_000_000]]);
    assert_eq!(demandes.segments.len(), 1);
    assert!(demandes.segments[0].is_none());

    let trajet = vec![[74_100_000, 455_000_000], [74_050_000, 456_000_000], [74_100_000, 456_800_000]];
    let reponses = Reponses {
        jours: vec![vec![None, Some(trajet.clone())]],
        segments: vec![None],
        sorties: vec![None; demandes.sorties.len()],
        transits: vec![None; demandes.transits.len()],
    };
    let traces = construire(&medias, &voyage, &Vec::new(), &overrides, &demandes, reponses);
    assert_eq!(traces.troncons.len(), 3);
    assert_eq!((traces.troncons[0].mode, traces.troncons[0].source), (Mode::Marche, SourceTrace::Mesuree));
    assert_eq!((traces.troncons[1].source, &traces.troncons[1].points), (SourceTrace::Calculee, &trajet));
    assert_eq!((traces.troncons[2].mode, traces.troncons[2].source), (Mode::Bateau, SourceTrace::Manuelle));
    assert_eq!(traces.bilan.jours_traces, 1);
    // Sans itinéraire, la marche reste droite.
    assert_eq!((traces.bilan.troncons_calcules, traces.bilan.troncons_droits), (1, 1));
    assert!(traces.bilan.jours_sans_trace.is_empty());
    assert_eq!(traces.points.len(), 3);
}

/// Un trou candidat : plus de deux kilomètres et plus de quarante-cinq
/// minutes entre deux positions fiables consécutives, au sens strict.
#[test]
fn saut_de_plus_de_quarante_cinq_minutes() {
    let trous = |ecart: i64| {
        let medias = vec![media("A", DIX_HEURES, 455_000_000, 74_000_000), media("B", DIX_HEURES + ecart, 455_300_000, 74_000_000)];
        carnet::quality::trous_candidats(&medias, &distance_mm).len()
    };
    assert_eq!(trous(2701), 1);
    assert_eq!(trous(2700), 0);
}

/// Des positions fiables qui couvrent moins de la moitié de l'amplitude
/// des médias de la journée font un trou candidat.
#[test]
fn couverture_de_moins_de_la_moitie() {
    let mut sans_position = media("C", DIX_HEURES + 3600, 0, 0);
    sans_position.position = None;
    sans_position.fiabilite = Fiabilite::Absente;
    let medias = vec![media("A", DIX_HEURES, 455_000_000, 74_000_000), media("B", DIX_HEURES + 600, 455_000_100, 74_000_000), sans_position];
    let trous = carnet::quality::trous_candidats(&medias, &distance_mm);
    assert_eq!(trous.len(), 1);
    assert_eq!(trous[0].motif, "positions fiables sur 10 min pour 60 min de photos");
}
