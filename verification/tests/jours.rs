use carnet::jours::{comparer_date, lire_frontmatter, trier_journees, verifier_date, ErreurJours, Journee};

fn journee(date: i64, titre: &str) -> Journee {
    Journee { date, titre: Some(titre.to_string()), lieu: None, camp: None, couverture: None }
}

#[test]
fn frontmatter_complet() {
    let texte = "---\ndate: 2026-08-14\ntitre: Lillaz\nlieu: lillaz\ncamp: valnontey\n---\n\nLe récit.\n";
    let yaml = lire_frontmatter(texte).expect("frontmatter présent");
    assert_eq!(yaml, "date: 2026-08-14\ntitre: Lillaz\nlieu: lillaz\ncamp: valnontey\n");
}

/// Les champs rédactionnels que le pipeline n'utilise pas font partie du
/// frontmatter : c'est la lecture du YAML qui les ignore.
#[test]
fn champs_redactionnels_ignores() {
    let texte = "---\ndate: 2026-08-14\netiquettes: [randonnee, fete]\ndistance_marche_km: 14\ntemps_fort: true\n---\nTexte\n";
    let yaml = lire_frontmatter(texte).expect("présent");
    assert!(yaml.contains("temps_fort: true"));
}

#[test]
fn sans_frontmatter() {
    assert!(lire_frontmatter("Juste du texte\n").is_none());
}

#[test]
fn frontmatter_non_termine() {
    assert!(lire_frontmatter("---\ndate: 2026-08-14\nTexte sans fin\n").is_none());
}

/// Le frontmatter sans date est délimité : c'est la lecture du YAML qui le
/// refuse.
#[test]
fn date_obligatoire() {
    let texte = "---\ntitre: sans date\n---\nTexte\n";
    assert_eq!(lire_frontmatter(texte).as_deref(), Some("titre: sans date\n"));
}

#[test]
fn marque_d_ordre_et_fins_de_ligne() {
    assert_eq!(lire_frontmatter("\u{feff}---\r\na: 1\r\n---  \r\nfin").as_deref(), Some("a: 1\r\n"));
    // Un délimiteur qui ne commence pas sa ligne ne ferme rien.
    assert!(lire_frontmatter("---\na: b ---\n").is_none());
    // Un texte qui n'ouvre pas par un saut de ligne après le délimiteur.
    assert!(lire_frontmatter("--- a\n---\n").is_none());
}

#[test]
fn date_du_nom_verifiee() {
    assert!(verifier_date("jours/2026-08-14.md", "2026-08-14", &journee(20679, "a")).is_ok());
    match verifier_date("jours/2026-08-14.md", "2026-08-14", &journee(20680, "a")) {
        Err(ErreurJours::DateIncoherente { chemin, declaree, attendue }) => {
            assert_eq!(chemin, "jours/2026-08-14.md");
            assert_eq!((declaree, attendue), (20680, 20679));
        },
        autre => panic!("attendu une date incohérente, obtenu {autre:?}"),
    }
    // Un nom qui n'est pas une date n'engage à rien.
    assert!(verifier_date("jours/arrivee.md", "arrivee", &journee(20680, "a")).is_ok());
}

#[test]
fn journees_rangees_par_date() {
    let rangees = trier_journees(vec![journee(3, "c"), journee(1, "a"), journee(3, "d"), journee(2, "b")]);
    let titres: Vec<_> = rangees.iter().map(|j| j.titre.clone().unwrap()).collect();
    assert_eq!(titres, vec!["a", "b", "c", "d"]);
}

#[test]
fn date_lue_confrontee_au_frontmatter() {
    let j = journee(20679, "Lillaz");
    assert!(comparer_date("a.md", Some(20679), &j).is_ok());
    assert!(comparer_date("a.md", None, &j).is_ok());
    match comparer_date("a.md", Some(20680), &j) {
        Err(ErreurJours::DateIncoherente { chemin, declaree, attendue }) => {
            assert_eq!((chemin.as_str(), declaree, attendue), ("a.md", 20679, 20680));
        },
        autre => panic!("incohérence attendue, obtenu {autre:?}"),
    }
}
