use carnet::depot::{fautes, trouver_depot, Champ, Faute};
use carnet::jours::Journee;
use carnet::scan::Position;
use carnet::voyage::{Lieu, TypeLieu, Voyage};

fn remontee(depart: &str) -> Vec<(String, bool)> {
    std::path::Path::new(depart).ancestors().map(|d| (d.display().to_string(), false)).collect()
}

#[test]
fn depot_introuvable_donne_une_erreur_explicite() {
    let depart = "/dossier/qui/n/existe/pas";
    let erreur = trouver_depot(depart, &remontee(depart)).unwrap_err();
    assert!(erreur.contains("content/voyages"));
    assert!(erreur.contains(depart));
}

#[test]
fn le_premier_dossier_qui_contient_le_contenu() {
    let dossiers = vec![
        ("/a/b/c".to_string(), false),
        ("/a/b".to_string(), true),
        ("/a".to_string(), true),
    ];
    assert_eq!(trouver_depot("/a/b/c", &dossiers), Ok("/a/b".to_string()));
}

fn voyage() -> Voyage {
    Voyage {
        id: "v".to_string(),
        titre: "V".to_string(),
        sous_titre: None,
        date_debut: 0,
        date_fin: 10,
        pays: Vec::new(),
        distance_km: None,
        nuits: None,
        mode: None,
        fuseau: "Europe/Paris".to_string(),
        source_photos: "/p".to_string(),
        dossiers_ignores: Vec::new(),
        notion: None,
        lieux: vec![Lieu {
            id: "connu".to_string(),
            nom: "Connu".to_string(),
            type_lieu: TypeLieu::Camp,
            position: Position { lat: 0, lon: 0, alt: None },
            du: None,
            au: None,
        }],
    }
}

/// Aucun arbitrage silencieux : chaque incohérence est une faute.
#[test]
fn le_controle_releve_toutes_les_fautes() {
    let journees = vec![
        Journee { date: 3, titre: None, lieu: Some("connu".to_string()), camp: Some("perdu".to_string()), couverture: None },
        Journee { date: 4, titre: None, lieu: Some("ailleurs".to_string()), camp: None, couverture: None },
    ];
    let r = fautes(&vec!["lot « X* » : aucun fichier".to_string()], &voyage(), &journees, &vec![7]);
    assert_eq!(r.len(), 4);
    assert!(matches!(&r[0], Faute::Inutilisee(m) if m.starts_with("lot")));
    assert!(matches!(&r[1], Faute::ReferenceInconnue { jour: 3, champ: Champ::Camp, id } if id == "perdu"));
    assert!(matches!(&r[2], Faute::ReferenceInconnue { jour: 4, champ: Champ::Lieu, id } if id == "ailleurs"));
    assert!(matches!(&r[3], Faute::RepartitionSansSegment(7)));
    assert_eq!(Champ::Camp.nom(), "camp");
    assert!(fautes(&Vec::new(), &voyage(), &Vec::new(), &Vec::new()).is_empty());
}
