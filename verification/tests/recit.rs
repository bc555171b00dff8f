use carnet::emit::{aucune_anomalie, Statistiques};
use carnet::overrides::Journal;
use carnet::recit::{ligne_clones, ligne_traces, ligne_volumetrie, lignes_datation, lignes_positions, lignes_surcharges};

fn stats(par_anomalie: Vec<usize>) -> Statistiques {
    Statistiques {
        total: 1200,
        photos: 1000,
        videos: 200,
        octets: 8_600_000_000,
        octets_video: 838_000_000,
        par_exif: 0,
        par_nom: 0,
        sans_date: 0,
        haute: 0,
        basse: 0,
        absente: 0,
        par_convention: vec![0; 7],
        par_anomalie,
        jours: Vec::new(),
        hors_periode: Vec::new(),
    }
}

#[test]
fn volumetrie_en_unites_decimales() {
    assert_eq!(
        ligne_volumetrie(&stats(vec![0; 9])),
        "  1200 médias      1000 photos, 200 vidéos, 8,6 Go dont 838 Mo de vidéo"
    );
}

#[test]
fn ligne_des_clones() {
    assert_eq!(ligne_clones(3, 12, 1), "  clones        3 groupes, 12 médias, dont 1 groupes à altitude réelle identique");
}

#[test]
fn anomalies_aucune_seulement_sans_compte() {
    assert!(aucune_anomalie(&stats(vec![0; 9])));
    let mut comptes = vec![0; 9];
    comptes[2] = 1;
    assert!(!aucune_anomalie(&stats(comptes)));
}

#[test]
fn section_des_surcharges() {
    let journal = Journal {
        medias_surcharges: vec!["a".to_string()],
        exclus: vec!["b".to_string(), "c".to_string()],
        lots_appliques: vec![("IMG_*".to_string(), 4)],
        inutilisees: Vec::new(),
        repartitions: Vec::new(),
    };
    assert_eq!(
        lignes_surcharges(&journal),
        [
            "SURCHARGES",
            "  appliquées    7",
            "    lot IMG_* : 4 fichiers",
            "    exclusions : 2",
            "  inutilisées   aucune"
        ]
    );
    let journal = Journal {
        medias_surcharges: Vec::new(),
        exclus: Vec::new(),
        lots_appliques: Vec::new(),
        inutilisees: vec!["exclusion « X » : aucun média de ce nom".to_string()],
        repartitions: Vec::new(),
    };
    assert_eq!(
        lignes_surcharges(&journal),
        [
            "SURCHARGES",
            "  appliquées    0",
            "  INUTILISÉES   1",
            "    exclusion « X » : aucun média de ce nom"
        ]
    );
}

#[test]
fn compteur_de_surcharges_plein() {
    let journal = Journal {
        medias_surcharges: vec!["a".to_string()],
        exclus: Vec::new(),
        lots_appliques: vec![("*".to_string(), usize::MAX)],
        inutilisees: Vec::new(),
        repartitions: Vec::new(),
    };
    assert_eq!(lignes_surcharges(&journal)[1], "  appliquées    hors de portée d'un compteur");
}

#[test]
fn en_tete_des_traces() {
    assert_eq!(ligne_traces(5), "TRACES  5 tronçons");
}

#[test]
fn section_de_la_datation() {
    let mut s = stats(vec![0; 9]);
    s.par_exif = 900;
    s.par_nom = 250;
    s.sans_date = 50;
    assert_eq!(
        lignes_datation(&s),
        ["DATATION (C3, C4, C10)", "  par l'EXIF    900 (75 %)", "  par le nom    250", "  sans date     50"]
    );
}

#[test]
fn section_des_positions() {
    let mut s = stats(vec![0; 9]);
    s.haute = 460;
    s.basse = 228;
    s.absente = 512;
    assert_eq!(
        lignes_positions(&s),
        [
            "POSITIONS (C1, C2, C9)",
            "  géolocalisés  688 sur 1200 (57 %)",
            "  fiables       460 (67 % des géolocalisés)",
            "  suspectes     228 (33 % des géolocalisés)",
            "  sans position 512"
        ]
    );
}
