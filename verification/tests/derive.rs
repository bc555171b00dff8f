use carnet::derivation::{integrer, planifier, Resultat};
use carnet::derive::{
    base64, chemins_derives, dimensions_reduites, lqip, CacheBuild, Derives,
    EntreeCache, Format, Presences, Production, Reglages,
};
use carnet::noms::Convention;
use carnet::pixels::{apercu, redimensionner, redresser, Pixels};
use carnet::scan::{Fiabilite, Media, OrigineDate, TypeMedia};

#[test]
fn base64_connu() {
    assert_eq!(base64(b"Ma"), "TWE=");
    assert_eq!(base64(b"Man"), "TWFu");
    assert_eq!(base64(b"Mane"), "TWFuZQ==");
    assert_eq!(base64(b""), "");
}

fn image_test(largeur: u32, hauteur: u32) -> Pixels {
    let mut octets = Vec::with_capacity((largeur * hauteur * 3) as usize);
    for y in 0..hauteur {
        for x in 0..largeur {
            octets.extend_from_slice(&[(x % 256) as u8, (y % 256) as u8, 128]);
        }
    }
    Pixels { largeur, hauteur, alpha: false, natif: true, octets }
}

#[test]
fn redimension_conserve_les_proportions() {
    let source = image_test(4000, 3000);
    let reduite = redimensionner(&source, 1024).expect("redimension");
    assert_eq!(reduite.largeur, 1024);
    assert_eq!(reduite.hauteur, 768);
    assert_eq!(reduite.octets.len(), 1024 * 768 * 3);
    assert_eq!(dimensions_reduites(4000, 3000, 1024), (1024, 768));
}

/// Une image plus petite que la cible ne doit pas être agrandie : un
/// dérivé plus petit vaut mieux qu'un dérivé flou.
#[test]
fn pas_d_agrandissement() {
    let source = image_test(800, 600);
    let reduite = redimensionner(&source, 2048).expect("redimension");
    assert_eq!(reduite.largeur, 800);
    assert_eq!(dimensions_reduites(800, 600, 2048).0, 800);
}

#[test]
fn orientation_appliquee() {
    let source = image_test(100, 50);
    // 6 : rotation de 90 degrés, les dimensions s'échangent.
    let droite = redresser(source.clone(), Some(6));
    assert_eq!((droite.largeur, droite.hauteur), (50, 100));
    // 1 : rien à faire.
    let inchangee = redresser(source, Some(1));
    assert_eq!((inchangee.largeur, inchangee.hauteur), (100, 50));
}

#[test]
fn apercu_inline_et_leger() {
    let source = image_test(4000, 3000);
    let apercu = apercu(&source).expect("aperçu");
    assert!(apercu.starts_with("data:image/jpeg;base64,"));
    assert!(apercu.len() < 2000, "un aperçu de 16 pixels ne doit pas peser {} octets", apercu.len());
}

#[test]
fn apercu_d_octets_connus() {
    let jpeg: Vec<u8> = (0u8..=255).cycle().take(600).collect();
    let apercu = lqip(&jpeg);
    assert!(apercu.starts_with("data:image/jpeg;base64,"));
    assert_eq!(apercu.len(), "data:image/jpeg;base64,".len() + 800);
}

/// Deux réglages différents ne doivent jamais produire la même empreinte.
#[test]
fn empreinte_distingue_les_reglages() {
    let a = Reglages::default();
    let b = Reglages { qualite: 90, ..Reglages::default() };
    let c = Reglages { format: Format::Jpeg, ..Reglages::default() };
    assert_ne!(a.empreinte(), b.empreinte());
    assert_ne!(a.empreinte(), c.empreinte());
}

#[test]
fn format_depuis_le_nom() {
    assert_eq!(Format::depuis_nom("AVIF"), Some(Format::Avif));
    assert_eq!(Format::depuis_nom("jpg"), Some(Format::Jpeg));
    assert_eq!(Format::depuis_nom("png"), None);
}

#[test]
fn empreinte_exacte() {
    assert_eq!(Reglages::default().empreinte(), "v2|avif|q72|s6|320x1024x2048|repli1024");
}

#[test]
fn reduction_arrondie() {
    // 2048 × 1365,33… s'arrondit à 1365.
    assert_eq!(dimensions_reduites(6000, 4000, 2048), (2048, 1365));
    // 320 × 213,33… s'arrondit à 213.
    assert_eq!(dimensions_reduites(3000, 2000, 320), (320, 213));
    // Jamais moins d'un pixel.
    assert_eq!(dimensions_reduites(10000, 1, 320), (320, 1));
}

#[test]
fn chemins_des_derives() {
    let d = chemins_derives("IMG_0001", Format::Avif);
    assert_eq!(d.vignette, "photos/IMG_0001-320.avif");
    assert_eq!(d.moyen, "photos/IMG_0001-1024.avif");
    assert_eq!(d.grand, "photos/IMG_0001-2048.avif");
    assert_eq!(d.repli, "photos/IMG_0001-1024.jpg");
}

fn entree(octets: u64) -> EntreeCache {
    EntreeCache {
        octets,
        mtime: 7,
        derives: chemins_derives("a", Format::Avif),
        lqip: "x".to_string(),
        largeur: 4000,
        hauteur: 3000,
    }
}

/// Ce qu'on écrit dans le cache se relit tant que la source ne bouge pas.
#[test]
fn le_cache_relit_ce_qu_il_a_ecrit() {
    let mut cache = CacheBuild::vide(&Reglages::default());
    cache.inserer("b", entree(10));
    cache.inserer("a", entree(20));
    assert_eq!(cache.valide("a", (20, 7)).map(|e| e.octets), Some(20));
    assert_eq!(cache.valide("b", (10, 7)).map(|e| e.octets), Some(10));
    // Une source modifiée invalide l'entrée.
    assert!(cache.valide("a", (21, 7)).is_none());
    assert!(cache.valide("a", (20, 8)).is_none());
    assert!(cache.valide("c", (20, 7)).is_none());
    // Remplacer n'ajoute pas.
    cache.inserer("a", entree(30));
    assert_eq!(cache.entrees.len(), 2);
    assert_eq!(cache.entrees[0].0, "a");
}

/// Un changement de réglage vide le cache.
#[test]
fn un_autre_reglage_vide_le_cache() {
    let mut cache = CacheBuild::vide(&Reglages::default());
    cache.inserer("a", entree(1));
    cache.accorder(&Reglages::default());
    assert_eq!(cache.entrees.len(), 1);
    cache.accorder(&Reglages { qualite: 80, ..Reglages::default() });
    assert!(cache.entrees.is_empty());
    assert_eq!(cache.empreinte, "v2|avif|q80|s6|320x1024x2048|repli1024");
}

fn photo(id: &str, publie: bool) -> Media {
    Media {
        id: id.to_string(),
        type_media: TypeMedia::Photo,
        fichier_source: format!("{id}.jpg"),
        prise_le: None,
        origine_date: OrigineDate::Absente,
        jour: None,
        position: None,
        fiabilite: Fiabilite::Absente,
        origine_position: None,
        lieu: None,
        publie,
        derives: None,
        lqip: None,
        anomalies: Vec::new(),
        largeur: None,
        hauteur: None,
        orientation: None,
        appareil: None,
        convention: Convention::Autre,
        octets: 1,
    }
}

#[test]
fn le_plan_reprend_le_cache_et_produit_le_reste() {
    let mut medias = vec![photo("a", true), photo("b", true), photo("c", false), photo("d", true)];
    medias[3].type_media = TypeMedia::Video;
    let signatures = vec![Some((1, 1)), Some((2, 2)), Some((3, 3)), Some((4, 4))];
    let reprises = vec![Some(entree(1)), None, None, None];
    let (a_produire, caches) = planifier(&mut medias, &signatures, &reprises, false);
    assert_eq!(caches, 1);
    assert_eq!(a_produire, vec![(1, (2, 2))]);
    assert_eq!(medias[0].largeur, Some(4000));
    assert!(medias[1].derives.is_none());

    // Forcer ignore le cache.
    let mut medias = vec![photo("a", true)];
    let (a_produire, caches) = planifier(&mut medias, &vec![Some((1, 1))], &vec![Some(entree(1))], true);
    assert_eq!((a_produire, caches), (vec![(0, (1, 1))], 0));
    // Sans signature, rien.
    let mut medias = vec![photo("a", true)];
    let (a_produire, caches) = planifier(&mut medias, &vec![None], &vec![None], false);
    assert_eq!((a_produire.len(), caches), (0, 0));
}

#[test]
fn les_productions_vont_aux_medias_et_au_cache() {
    let mut medias = vec![photo("a", true), photo("b", true)];
    let mut cache = CacheBuild::vide(&Reglages::default());
    let production = Production {
        derives: Derives {
            vignette: "v".to_string(),
            moyen: "m".to_string(),
            grand: "g".to_string(),
            repli: "r".to_string(),
        },
        lqip: "data:".to_string(),
        largeur: 30,
        hauteur: 20,
    };
    let resultats: Vec<Resultat> = vec![(0, (5, 6), Ok(production)), (1, (1, 1), Err("décodage impossible".to_string()))];
    let (produits, echecs) = integrer(&mut medias, &mut cache, resultats);
    assert_eq!(produits, 1);
    assert_eq!(echecs, vec!["b : décodage impossible".to_string()]);
    assert_eq!(medias[0].largeur, Some(30));
    assert_eq!(medias[0].derives.as_ref().map(|d| d.grand.clone()), Some("g".to_string()));
    assert!(medias[1].derives.is_none());
    assert_eq!(cache.valide("a", (5, 6)).map(|e| e.hauteur), Some(20));
}

/// Une entrée valide ne se reprend que si ses quatre dérivés sont sur le disque.
#[test]
fn reprise_demande_les_quatre_derives() {
    let mut cache = CacheBuild::vide(&Reglages::default());
    cache.inserer("a", entree(20));
    let tous = Presences { vignette: true, moyen: true, grand: true, repli: true };
    assert_eq!(cache.reprise("a", (20, 7), tous).map(|e| e.octets), Some(20));
    assert!(cache.reprise("a", (20, 7), Presences { repli: false, ..tous }).is_none());
    assert!(cache.reprise("a", (20, 7), Presences { vignette: false, ..tous }).is_none());
    assert!(cache.reprise("a", (21, 7), tous).is_none());
    assert!(cache.reprise("b", (20, 7), tous).is_none());
}
