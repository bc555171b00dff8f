use carnet::noms::Convention;
use carnet::scan::{Fiabilite, Media, OrigineDate, TypeMedia};
use carnet::selection::{appliquer, identifiants_cites, Selection};

fn media(id: &str) -> Media {
    Media {
        id: id.to_string(),
        type_media: TypeMedia::Photo,
        fichier_source: format!("{id}.jpg"),
        prise_le: None,
        origine_date: OrigineDate::Absente,
        jour: None,
        position: None,
        fiabilite: Fiabilite::Absente,
        origine_position: None,
        lieu: None,
        publie: true,
        derives: None,
        lqip: None,
        anomalies: Vec::new(),
        largeur: None,
        hauteur: None,
        orientation: None,
        appareil: None,
        convention: Convention::Telephone,
        octets: 1,
    }
}

#[test]
fn directives_du_recit() {
    let texte = r#"
Le texte.

::photo{id="IMG001" legende="La montée"}

Encore du texte.

::galerie{ids="IMG002,IMG003, IMG004"}

::video{id=IMG005}
"#;
    let cites = identifiants_cites(texte);
    assert_eq!(cites.len(), 5, "{cites:?}");
    assert!(cites.contains(&"IMG004".to_string()), "le dernier d une liste ne doit pas etre perdu");
    assert!(cites.contains(&"IMG005".to_string()), "une valeur sans guillemets doit etre lue");
    assert!(cites.contains(&"IMG003".to_string()));
}

#[test]
fn identifiants_ranges_sans_doublon() {
    let cites = identifiants_cites("::photo{id=\"B\"} ::photo{id=\"A\"} ::galerie{ids=\"B,C\"}");
    assert_eq!(cites, vec!["A".to_string(), "B".to_string(), "C".to_string()]);
    assert!(identifiants_cites("aucune directive").is_empty());
}

/// En l'absence de fichier et de citation, tout est retenu.
#[test]
fn sans_selection_tout_est_publie() {
    let mut medias = vec![media("A"), media("B")];
    let bilan = appliquer(&mut medias, &Selection::default(), &Vec::new());
    assert!(bilan.tout_retenu);
    assert_eq!(bilan.publies, 2);
    assert!(medias.iter().all(|m| m.publie));
}

#[test]
fn une_liste_de_retenus_restreint() {
    let mut medias = vec![media("A"), media("B"), media("C")];
    let selection = Selection { retenus: vec!["A".into(), "C".into()], exclus: Vec::new() };
    let bilan = appliquer(&mut medias, &selection, &Vec::new());
    assert_eq!(bilan.publies, 2);
    assert_eq!(bilan.ecartes, 1);
    assert!(!medias.iter().find(|m| m.id == "B").expect("B").publie);
}

/// Un média cité par le récit est retenu sans avoir à le répéter.
#[test]
fn le_recit_retient_d_office() {
    let mut medias = vec![media("A"), media("B")];
    let cites = vec!["B".to_string()];
    let bilan = appliquer(&mut medias, &Selection::default(), &cites);
    assert!(!bilan.tout_retenu, "une citation suffit à restreindre");
    assert_eq!(bilan.publies, 1);
    assert_eq!(bilan.cites_par_le_recit, 1);
    assert!(medias.iter().find(|m| m.id == "B").expect("B").publie);
}

/// L'exclusion l'emporte sur tout, y compris sur une citation.
#[test]
fn l_exclusion_prime() {
    let mut medias = vec![media("A")];
    let selection = Selection { retenus: vec!["A".into()], exclus: vec!["A".into()] };
    let cites = vec!["A".to_string()];
    appliquer(&mut medias, &selection, &cites);
    assert!(!medias[0].publie);
}

#[test]
fn entree_sans_cible_signalee() {
    let mut medias = vec![media("A")];
    let selection = Selection { retenus: vec!["INEXISTANT".into()], exclus: Vec::new() };
    let bilan = appliquer(&mut medias, &selection, &Vec::new());
    assert_eq!(bilan.inutilisees.len(), 1);
}

/// `retenus` et `exclus` désignent par identifiant ou par motif.
#[test]
fn retenus_et_exclus_par_motif() {
    let mut medias = vec![media("IMG1"), media("IMG2"), media("GOPR3"), media("img4")];
    let selection = Selection { retenus: vec!["IMG*".into()], exclus: vec!["*2".into()] };
    let bilan = appliquer(&mut medias, &selection, &Vec::new());
    let publie = |id: &str| medias.iter().find(|m| m.id == id).expect("présent").publie;
    assert!(publie("IMG1"));
    assert!(!publie("IMG2"), "l'exclusion par motif l'emporte");
    assert!(!publie("GOPR3"));
    // Un motif ignore la casse.
    assert!(publie("img4"));
    assert_eq!((bilan.publies, bilan.ecartes), (2, 2));
    assert!(bilan.inutilisees.is_empty());
    // Sans joker, l'entrée est un identifiant exact.
    let mut medias = vec![media("IMG1")];
    let exact = Selection { retenus: vec!["img1".into(), "DSC*".into()], exclus: Vec::new() };
    let bilan = appliquer(&mut medias, &exact, &Vec::new());
    assert!(!medias[0].publie);
    assert_eq!(bilan.inutilisees, vec!["« img1 » : aucun média de ce nom".to_string(), "« DSC* » : aucun média de ce nom".to_string()]);
}
