use carnet::itineraire::{cle_cache, url_ors, Decision, EtatItineraires, Issue, Suite};
use carnet::scan::Position;
use carnet::track::Mode;

fn position(lat: i64, lon: i64) -> Position {
    Position { lat, lon, alt: None }
}

/// Un mode sans réseau ne part jamais au calcul.
#[test]
fn refuse_les_modes_sans_reseau() {
    let mut etat = EtatItineraires::nouveau();
    for mode in [Mode::Bateau, Mode::Train, Mode::Telepherique] {
        assert_eq!(etat.decider(mode, false, true), Decision::NonCalculable);
    }
    assert_eq!(etat.appels, 0);
}

#[test]
fn le_cache_evite_l_appel_reseau() {
    let mut etat = EtatItineraires::nouveau();
    // Aucune clé : si le cache ne répondait pas, ce serait indisponible.
    assert_eq!(etat.decider(Mode::Route, true, false), Decision::DepuisLeCache);
    assert_eq!(etat.appels, 0);
    assert_eq!(etat.manques, 0);
}

#[test]
fn sans_cle_ni_cache_le_troncon_reste_indisponible() {
    let mut etat = EtatItineraires::nouveau();
    assert_eq!(etat.decider(Mode::Route, false, false), Decision::Indisponible);
    assert_eq!(etat.manques, 1);
}

#[test]
fn le_premier_appel_part_sans_pause() {
    let mut etat = EtatItineraires::nouveau();
    assert_eq!(etat.decider(Mode::Velo, false, true), Decision::Appeler { pause: false });
    assert_eq!(etat.apres_appel(Issue::Trajet), Suite::Calcule);
    assert_eq!(etat.appels, 1);
    assert_eq!(etat.decider(Mode::Marche, false, true), Decision::Appeler { pause: true });
}

/// Un refus de débit se réessaie une fois ; un second refus clôt le quota.
#[test]
fn refus_de_debit_puis_quota_epuise() {
    let mut etat = EtatItineraires::nouveau();
    assert_eq!(etat.apres_appel(Issue::Refus(429)), Suite::Reessayer);
    assert_eq!(etat.refus, 0);
    assert_eq!(etat.apres_reessai(Issue::Refus(429)), Suite::Indisponible { detail: false });
    assert!(etat.quota_epuise);
    assert_eq!(etat.refus, 1);
    assert_eq!(etat.refus_par_code, vec![(429, 1)]);
    // Les appels suivants ne partent plus.
    assert_eq!(etat.decider(Mode::Route, false, true), Decision::Indisponible);
    assert_eq!(etat.refus, 2);
}

#[test]
fn cle_refusee_et_autres_refus() {
    let mut etat = EtatItineraires::nouveau();
    assert_eq!(etat.apres_appel(Issue::Refus(404)), Suite::Indisponible { detail: true });
    assert_eq!(etat.details, 1);
    assert_eq!(etat.apres_appel(Issue::Refus(403)), Suite::Indisponible { detail: false });
    assert!(etat.quota_epuise);
    assert_eq!(etat.refus_par_code, vec![(403, 1), (404, 1)]);
    assert_eq!(etat.apres_appel(Issue::Echec), Suite::Erreur);
}

#[test]
fn huit_refus_detailles_au_plus() {
    let mut etat = EtatItineraires::nouveau();
    for _ in 0..8 {
        assert_eq!(etat.apres_appel(Issue::Refus(500)), Suite::Indisponible { detail: true });
    }
    assert_eq!(etat.apres_appel(Issue::Refus(500)), Suite::Indisponible { detail: false });
    assert_eq!(etat.refus_par_code, vec![(500, 9)]);
}

#[test]
fn adresse_du_moteur() {
    assert_eq!(url_ors("driving-car"), "https://api.heigit.org/openrouteservice/v2/directions/driving-car/geojson");
}

/// Les points de passage font partie de la clé : forcer un col plutôt
/// qu'un tunnel doit produire une entrée distincte.
#[test]
fn les_points_de_passage_changent_la_cle() {
    let sans = cle_cache(Mode::Route, &position(450_000_000, 70_000_000), &position(451_000_000, 71_000_000), &vec![]);
    let avec = cle_cache(
        Mode::Route,
        &position(450_000_000, 70_000_000),
        &position(451_000_000, 71_000_000),
        &vec![[70_500_000, 450_500_000]],
    );
    assert_ne!(sans, avec);
}

#[test]
fn cle_au_metre_pres() {
    let cle = cle_cache(
        Mode::Velo,
        &position(451_234_567, -1_234_549),
        &position(-175_392_400, -1_495_676_500),
        &vec![[50, -49]],
    );
    assert_eq!(cle, "vélo|-0.12345,45.12346|-149.56765,-17.53924|0.00001,-0.00000");
    // Deux prises au même mètre partagent la clé.
    let a = cle_cache(Mode::Route, &position(450_000_010, 70_000_020), &position(1, 2), &vec![]);
    let b = cle_cache(Mode::Route, &position(450_000_040, 70_000_000), &position(0, 0), &vec![]);
    assert_eq!(a, b);
}

/// La clé écrit chaque coordonnée comme `{:.5}` écrit le double
/// `e7 as f64 / 1e7`, demi-cent-millièmes compris.
#[test]
fn cle_comme_la_double_precision() {
    let valeurs: Vec<i64> = vec![
        0, 1, 5, 50, 150, 250, 450_000_050, 450_000_150, 450_000_250, -450_000_150, 1_799_999_950, -1_800_000_000,
        123_456_785, 987_654_315, -5, -50, 9_007_199_254_740_993, i64::MAX, i64::MIN + 1, i64::MIN,
    ];
    for v in valeurs {
        let cle = cle_cache(Mode::Route, &position(v, 0), &position(0, 0), &vec![]);
        let attendue = format!("route|{:.5},{:.5}|{:.5},{:.5}", 0.0_f64, v as f64 / 1e7, 0.0_f64, 0.0_f64);
        assert_eq!(cle, attendue, "coordonnée {v}");
    }
    assert_eq!(
        cle_cache(Mode::Route, &position(450_000_150, 0), &position(0, 0), &vec![]),
        "route|0.00000,45.00001|0.00000,0.00000"
    );
}
