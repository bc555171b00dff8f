use carnet::emit::{
    construire_jours, nom_anomalie, nom_convention, nom_mode_json, nom_source_json, octets_lisibles, pourcent, statistiques,
    troncons_par_source,
};
use carnet::jours::Journee;
use carnet::noms::Convention;
use carnet::quality::TrouCandidat;
use carnet::scan::{Anomalie, Fiabilite, Instant, Media, OrigineDate, Position, TypeMedia};
use carnet::track::{Mode, SourceTrace, Troncon};
use carnet::voyage::Voyage;

fn media(id: &str, jour: Option<i64>, utc: Option<i64>, position: Option<(i64, i64)>, type_media: TypeMedia) -> Media {
    Media {
        id: id.to_string(),
        type_media,
        fichier_source: format!("{id}.jpg"),
        prise_le: utc.map(|u| Instant { utc: u, decalage: 7200 }),
        origine_date: if utc.is_some() { OrigineDate::Exif } else { OrigineDate::Absente },
        jour,
        position: position.map(|(lat, lon)| Position { lat, lon, alt: Some(1) }),
        fiabilite: if position.is_some() { Fiabilite::Haute } else { Fiabilite::Absente },
        origine_position: None,
        lieu: None,
        publie: true,
        derives: None,
        lqip: None,
        anomalies: Vec::new(),
        largeur: None,
        hauteur: None,
        orientation: None,
        appareil: None,
        convention: Convention::Telephone,
        octets: 1_000_000_000,
    }
}

fn voyage() -> Voyage {
    Voyage {
        id: "v".to_string(),
        titre: "V".to_string(),
        sous_titre: None,
        date_debut: 10,
        date_fin: 20,
        pays: Vec::new(),
        distance_km: None,
        nuits: None,
        mode: None,
        fuseau: "Europe/Paris".to_string(),
        source_photos: "/p".to_string(),
        dossiers_ignores: Vec::new(),
        notion: None,
        lieux: Vec::new(),
    }
}

/// Go et Mo au sens décimal.
#[test]
fn volumes_lisibles() {
    assert_eq!(octets_lisibles(8_600_000_000), "8,6 Go");
    assert_eq!(octets_lisibles(1_000_000_000), "1,0 Go");
    assert_eq!(octets_lisibles(450_000_000), "450 Mo");
    assert_eq!(octets_lisibles(0), "0 Mo");
    // Au demi, l'arrondi va au pair.
    assert_eq!(octets_lisibles(2_500_000), "2 Mo");
    assert_eq!(octets_lisibles(3_500_000), "4 Mo");
}

#[test]
fn pourcentages_arrondis() {
    assert_eq!(pourcent(1, 3), "33 %");
    assert_eq!(pourcent(2, 3), "67 %");
    assert_eq!(pourcent(0, 0), "0 %");
    assert_eq!(pourcent(1, 8), "12 %");
    assert_eq!(pourcent(3, 8), "38 %");
    assert_eq!(pourcent(5, 5), "100 %");
}

#[test]
fn noms_des_rubriques() {
    assert_eq!(nom_convention(Convention::Telephone), "IMG/VID + horodatage (téléphone)");
    assert_eq!(nom_anomalie(Anomalie::AltitudeNulle), "altitude_nulle (C1)");
    assert_eq!(nom_mode_json(Mode::Telepherique), "telepherique");
    assert_eq!(nom_source_json(SourceTrace::Heritee), "heritee");
}

#[test]
fn statistiques_du_rapport() {
    let mut video = media("V", Some(25), None, None, TypeMedia::Video);
    video.anomalies = vec![Anomalie::ExifAbsent, Anomalie::DateDuNom];
    video.convention = Convention::GoPro;
    let medias = vec![media("A", Some(12), Some(1000), Some((1, 2)), TypeMedia::Photo), video, media("B", Some(12), None, None, TypeMedia::Photo)];
    let s = statistiques(&medias, &voyage());
    assert_eq!((s.total, s.photos, s.videos), (3, 2, 1));
    assert_eq!(s.octets, 3_000_000_000);
    assert_eq!(s.octets_video, 1_000_000_000);
    assert_eq!((s.par_exif, s.par_nom, s.sans_date), (1, 0, 2));
    assert_eq!((s.haute, s.basse, s.absente), (1, 0, 2));
    assert_eq!(s.par_convention, vec![2, 0, 0, 1, 0, 0, 0]);
    assert_eq!(s.par_anomalie, vec![0, 0, 0, 0, 0, 0, 1, 1, 0]);
    assert_eq!(s.jours, vec![12, 25]);
    assert_eq!(s.hors_periode, vec![25]);
}

#[test]
fn journees_agregees() {
    let medias = vec![
        media("A", Some(12), Some(1000), Some((10, 20)), TypeMedia::Photo),
        media("B", Some(12), Some(900), Some((5, 30)), TypeMedia::Photo),
        media("V", Some(12), None, None, TypeMedia::Video),
        media("C", Some(14), None, None, TypeMedia::Photo),
    ];
    let journees = vec![Journee { date: 14, titre: None, lieu: Some("l".to_string()), camp: None, couverture: Some("X".to_string()) }];
    let troncons = vec![
        Troncon { jour: 12, mode: Mode::Velo, source: SourceTrace::Mesuree, points: vec![[0, 0], [1, 1]] },
        Troncon { jour: 12, mode: Mode::Route, source: SourceTrace::Mesuree, points: vec![[0, 0], [1, 1]] },
        Troncon { jour: 12, mode: Mode::Velo, source: SourceTrace::Calculee, points: vec![[0, 0], [1, 1]] },
    ];
    let trous = vec![TrouCandidat { jour: 12, motif: "saut".to_string() }];
    let jours = construire_jours(&medias, &journees, &troncons, &trous);
    assert_eq!(jours.len(), 2);
    let a = &jours[0];
    assert_eq!(a.jour, 12);
    assert_eq!((a.medias.photo, a.medias.video, a.medias.total), (2, 1, 3));
    assert_eq!(a.premiere_prise.map(|i| i.utc), Some(900));
    assert_eq!(a.derniere_prise.map(|i| i.utc), Some(1000));
    assert_eq!(a.bbox, Some([20, 5, 30, 10]));
    assert_eq!(a.modes, vec![Mode::Route, Mode::Velo]);
    assert_eq!(a.couverture.as_deref(), Some("A"));
    assert_eq!(a.anomalies, vec!["trou_candidat".to_string()]);
    let b = &jours[1];
    assert_eq!(b.lieu.as_deref(), Some("l"));
    assert_eq!(b.couverture.as_deref(), Some("X"));
    assert!(b.bbox.is_none());
}

#[test]
fn troncons_comptes_par_source() {
    let t = |source: SourceTrace| Troncon { jour: 3, mode: Mode::Velo, source, points: vec![[0, 0], [1, 1]] };
    let troncons = vec![t(SourceTrace::Mesuree), t(SourceTrace::Calculee), t(SourceTrace::Mesuree), t(SourceTrace::Heritee)];
    // Ordre alphabétique des noms : calculée, héritée, manuelle, mesurée.
    assert_eq!(troncons_par_source(&troncons), vec![1, 1, 0, 2]);
    assert_eq!(troncons_par_source(&Vec::new()), vec![0, 0, 0, 0]);
}

/// Au demi-dixième, c'est le double précision qui tranche, comme à
/// l'écriture de `octets as f64 / 1e9` avec `{:.1}`.
#[test]
fn gigaoctets_comme_la_double_precision() {
    assert_eq!(octets_lisibles(1_050_000_000), "1,1 Go");
    assert_eq!(octets_lisibles(1_150_000_000), "1,1 Go");
    assert_eq!(octets_lisibles(1_250_000_000), "1,2 Go");
    assert_eq!(octets_lisibles(1_350_000_000), "1,4 Go");
    assert_eq!(octets_lisibles(1_949_999_999), "1,9 Go");
    assert_eq!(octets_lisibles(1_950_000_000), "1,9 Go");
    assert_eq!(octets_lisibles(2_050_000_000), "2,0 Go");
    assert_eq!(octets_lisibles(2_850_000_000), "2,9 Go");
    assert_eq!(octets_lisibles(123_456_789_012), "123,5 Go");
    assert_eq!(octets_lisibles(9_007_199_254_740_993), "9007199,3 Go");
    assert_eq!(octets_lisibles(9_007_204_254_740_995), "9007204,3 Go");
    assert_eq!(octets_lisibles(u64::MAX), "18446744073,7 Go");
    for o in [1_000_000_000u64, 1_050_000_000, 7_777_777_777, 987_654_321_000, 1 << 60] {
        assert_eq!(octets_lisibles(o), format!("{:.1} Go", o as f64 / 1e9).replace('.', ","));
    }
}
