//! Le plan des dérivés d'un build : ce qui se reprend du cache, ce qui se
//! produit, et ce que les productions changent aux médias et au cache.
//!
//! La signature des sources, la présence des dérivés sur le disque et la
//! production des pixels se font au bord ; ce module reçoit ce qu'elles ont
//! donné.

use vstd::prelude::*;
use vstd::string::StringExecFns;

use crate::derive::{entree_de, CacheBuild, Derives, EntreeCache, Production};
use crate::scan::{Media, TypeMedia};

verus! {

/// Taille et date de modification d'une source.
pub type Signature = (u64, i64);

/// Le média demande des dérivés : c'est une photo publiée, et sa source a
/// une signature. Les vidéos attendent leur propre sélection.
pub open spec fn demande_derives(m: Media, sig: Option<Signature>) -> bool {
    m.type_media == TypeMedia::Photo && m.publie && sig is Some
}

/// L'entrée de cache que ce média reprend, s'il en reprend une : il demande
/// des dérivés, on ne force pas, et le cache en a une entrée valide dont les
/// dérivés sont sur le disque.
pub open spec fn reprise(m: Media, sig: Option<Signature>, e: Option<EntreeCache>, force: bool) -> Option<EntreeCache> {
    if demande_derives(m, sig) && !force {
        e
    } else {
        None
    }
}

/// Le média qui reprend les dérivés, l'aperçu et les dimensions d'une entrée.
pub open spec fn avec_entree(m: Media, e: EntreeCache) -> Media {
    Media { derives: Some(e.derives), lqip: Some(e.lqip), largeur: Some(e.largeur), hauteur: Some(e.hauteur), ..m }
}

/// Un média qui a ses dérivés et son aperçu.
pub open spec fn a_ses_derives(m: Media) -> bool {
    m.derives is Some && m.lqip is Some
}

/// Le média qui reçoit une production.
pub open spec fn avec_production(m: Media, p: Production) -> Media {
    Media { derives: Some(p.derives), lqip: Some(p.lqip), largeur: Some(p.largeur), hauteur: Some(p.hauteur), ..m }
}

pub open spec fn plan_medias(
    s: Seq<Media>,
    sigs: Seq<Option<Signature>>,
    es: Seq<Option<EntreeCache>>,
    force: bool,
) -> Seq<Media> {
    Seq::new(
        s.len(),
        |k: int|
            match reprise(s[k], sigs[k], es[k], force) {
                Some(e) => avec_entree(s[k], e),
                None => s[k],
            },
    )
}

/// Les médias à produire parmi les `n` premiers, avec la signature de leur
/// source, dans l'ordre.
pub open spec fn a_produire(
    s: Seq<Media>,
    sigs: Seq<Option<Signature>>,
    es: Seq<Option<EntreeCache>>,
    force: bool,
    n: int,
) -> Seq<(usize, Signature)>
    decreases n,
{
    if n <= 0 {
        seq![]
    } else {
        let k = n - 1;
        let avant = a_produire(s, sigs, es, force, k);
        if demande_derives(s[k], sigs[k]) && reprise(s[k], sigs[k], es[k], force) is None {
            avant.push((k as usize, sigs[k].unwrap()))
        } else {
            avant
        }
    }
}

pub open spec fn nb_reprises(
    s: Seq<Media>,
    sigs: Seq<Option<Signature>>,
    es: Seq<Option<EntreeCache>>,
    force: bool,
    n: int,
) -> nat
    decreases n,
{
    if n <= 0 {
        0
    } else if reprise(s[n - 1], sigs[n - 1], es[n - 1], force) is Some {
        nb_reprises(s, sigs, es, force, n - 1) + 1
    } else {
        nb_reprises(s, sigs, es, force, n - 1)
    }
}

fn copie_derives(d: &Derives) -> (r: Derives)
    ensures
        r == *d,
{
    Derives { vignette: d.vignette.clone(), moyen: d.moyen.clone(), grand: d.grand.clone(), repli: d.repli.clone() }
}

fn copie_entree(e: &EntreeCache) -> (r: EntreeCache)
    ensures
        r == *e,
{
    EntreeCache {
        octets: e.octets,
        mtime: e.mtime,
        derives: copie_derives(&e.derives),
        lqip: e.lqip.clone(),
        largeur: e.largeur,
        hauteur: e.hauteur,
    }
}

/// Répartit les médias entre ce qui se reprend du cache et ce qui se
/// produit. `signatures[k]` est la signature de la source du média `k`, si
/// elle se lit ; `reprises[k]` l'entrée valide du cache pour ce média, quand
/// ses dérivés sont sur le disque. Les médias repris reçoivent leurs
/// dérivés ; la liste rendue est celle des médias à produire, et le nombre
/// celui des reprises.
pub fn planifier(
    medias: &mut Vec<Media>,
    signatures: &Vec<Option<Signature>>,
    reprises: &Vec<Option<EntreeCache>>,
    force: bool,
) -> (r: (Vec<(usize, Signature)>, usize))
    requires
        signatures@.len() == old(medias)@.len(),
        reprises@.len() == old(medias)@.len(),
    ensures
        final(medias)@ == plan_medias(old(medias)@, signatures@, reprises@, force),
        r.0@ == a_produire(old(medias)@, signatures@, reprises@, force, old(medias)@.len() as int),
        r.1 == nb_reprises(old(medias)@, signatures@, reprises@, force, old(medias)@.len() as int),
{
    let ghost s = medias@;
    let mut anciens: Vec<Media> = Vec::new();
    std::mem::swap(&mut anciens, medias);
    let n = anciens.len();
    let mut liste: Vec<(usize, Signature)> = Vec::new();
    let mut caches: usize = 0;
    let mut k: usize = 0;
    for m in it: anciens.into_iter()
        invariant
            it.seq() == s,
            s.len() == n,
            k == it.index(),
            k <= n,
            signatures@.len() == n,
            reprises@.len() == n,
            medias@ == plan_medias(s, signatures@, reprises@, force).take(k as int),
            liste@ == a_produire(s, signatures@, reprises@, force, k as int),
            caches == nb_reprises(s, signatures@, reprises@, force, k as int),
            caches <= k,
    {
        let mut m = m;
        let demande = m.type_media == TypeMedia::Photo && m.publie && signatures[k].is_some();
        if demande && !force && reprises[k].is_some() {
            let e = copie_entree(reprises[k].as_ref().unwrap());
            m.derives = Some(e.derives);
            m.lqip = Some(e.lqip);
            m.largeur = Some(e.largeur);
            m.hauteur = Some(e.hauteur);
            caches = caches + 1;
        } else if demande {
            liste.push((k, signatures[k].unwrap()));
        }
        medias.push(m);
        k += 1;
        assert(medias@ =~= plan_medias(s, signatures@, reprises@, force).take(k as int));
    }
    assert(plan_medias(s, signatures@, reprises@, force).take(n as int) =~= plan_medias(s, signatures@, reprises@, force));
    (liste, caches)
}

// ---------------------------------------------------------------------------
// Les productions
// ---------------------------------------------------------------------------

/// Le résultat de la production des dérivés d'un média : son indice, la
/// signature de sa source, et les dérivés ou le texte de l'erreur.
pub type Resultat = (usize, Signature, Result<Production, String>);

/// L'entrée de cache qu'une production fait naître.
pub open spec fn entree_produite(sig: Signature, p: Production) -> EntreeCache {
    EntreeCache { octets: sig.0, mtime: sig.1, derives: p.derives, lqip: p.lqip, largeur: p.largeur, hauteur: p.hauteur }
}

/// Les médias après les `n` premiers résultats.
pub open spec fn medias_apres(s: Seq<Media>, rs: Seq<Resultat>, n: int) -> Seq<Media>
    decreases n,
{
    if n <= 0 {
        s
    } else {
        let avant = medias_apres(s, rs, n - 1);
        let r = rs[n - 1];
        match r.2 {
            Ok(p) => avant.update(r.0 as int, avec_production(avant[r.0 as int], p)),
            Err(_) => avant,
        }
    }
}

/// L'entrée de l'identifiant `id` après les `n` premiers résultats : celle
/// de la dernière production réussie d'un média de cet identifiant, sinon
/// celle d'avant.
pub open spec fn entree_apres(s: Seq<Media>, rs: Seq<Resultat>, n: int, id: Seq<char>, avant: Option<EntreeCache>) -> Option<EntreeCache>
    decreases n,
{
    if n <= 0 {
        avant
    } else {
        let r = rs[n - 1];
        match r.2 {
            Ok(p) if s[r.0 as int].id@ == id => Some(entree_produite(r.1, p)),
            _ => entree_apres(s, rs, n - 1, id, avant),
        }
    }
}

/// Le message d'un échec : l'identifiant du média, puis l'erreur.
pub open spec fn message_echec(id: Seq<char>, erreur: Seq<char>) -> Seq<char> {
    id + " : "@ + erreur
}

pub open spec fn echecs(s: Seq<Media>, rs: Seq<Resultat>, n: int) -> Seq<Seq<char>>
    decreases n,
{
    if n <= 0 {
        seq![]
    } else {
        let avant = echecs(s, rs, n - 1);
        let r = rs[n - 1];
        match r.2 {
            Ok(_) => avant,
            Err(e) => avant.push(message_echec(s[r.0 as int].id@, e@)),
        }
    }
}

pub open spec fn nb_produits(rs: Seq<Resultat>, n: int) -> nat
    decreases n,
{
    if n <= 0 {
        0
    } else if rs[n - 1].2 is Ok {
        nb_produits(rs, n - 1) + 1
    } else {
        nb_produits(rs, n - 1)
    }
}

proof fn lemme_identifiants_intacts(s: Seq<Media>, rs: Seq<Resultat>, n: int)
    requires
        0 <= n <= rs.len(),
        forall|q: int| 0 <= q < rs.len() ==> (#[trigger] rs[q]).0 < s.len(),
    ensures
        medias_apres(s, rs, n).len() == s.len(),
        forall|k: int| 0 <= k < s.len() ==> (#[trigger] medias_apres(s, rs, n)[k]).id == s[k].id,
    decreases n,
{
    if n > 0 {
        lemme_identifiants_intacts(s, rs, n - 1);
    }
}

fn message_echec_exec(id: &str, erreur: &str) -> (r: String)
    ensures
        r@ == message_echec(id@, erreur@),
{
    let mut r = String::from_str(id);
    r.append(" : ");
    r.append(erreur);
    proof {
        reveal_strlit(" : ");
    }
    r
}

/// Range les productions : chaque réussite donne ses dérivés au média et
/// une entrée au cache, chaque échec un message. Rend le nombre de
/// réussites et les messages d'échec, dans l'ordre des résultats.
pub fn integrer(medias: &mut Vec<Media>, cache: &mut CacheBuild, resultats: Vec<Resultat>) -> (r: (usize, Vec<String>))
    requires
        old(cache).bien_forme(),
        forall|q: int| 0 <= q < resultats@.len() ==> (#[trigger] resultats@[q]).0 < old(medias)@.len(),
    ensures
        final(medias)@ == medias_apres(old(medias)@, resultats@, resultats@.len() as int),
        final(cache).bien_forme(),
        final(cache).empreinte == old(cache).empreinte,
        forall|id: Seq<char>|
            entree_de(#[trigger] final(cache).entrees@, id) == entree_apres(
                old(medias)@,
                resultats@,
                resultats@.len() as int,
                id,
                entree_de(old(cache).entrees@, id),
            ),
        r.0 == nb_produits(resultats@, resultats@.len() as int),
        r.1@.map_values(|m: String| m@) == echecs(old(medias)@, resultats@, resultats@.len() as int),
{
    let ghost s = medias@;
    let ghost rs = resultats@;
    let ghost c0 = cache.entrees@;
    let mut produits: usize = 0;
    let mut messages: Vec<String> = Vec::new();
    let n = resultats.len();
    let mut k: usize = 0;
    for r in it: resultats.into_iter()
        invariant
            it.seq() == rs,
            rs.len() == n,
            k == it.index(),
            k <= n,
            forall|q: int| 0 <= q < rs.len() ==> (#[trigger] rs[q]).0 < s.len(),
            medias@ == medias_apres(s, rs, k as int),
            cache.bien_forme(),
            cache.empreinte == old(cache).empreinte,
            forall|id: Seq<char>|
                entree_de(#[trigger] cache.entrees@, id) == entree_apres(s, rs, k as int, id, entree_de(c0, id)),
            produits == nb_produits(rs, k as int),
            produits <= k,
            messages@.map_values(|m: String| m@) == echecs(s, rs, k as int),
    {
        proof {
            lemme_identifiants_intacts(s, rs, k as int);
        }
        let (indice, signature, resultat) = r;
        match resultat {
            Ok(production) => {
                let entree = EntreeCache {
                    octets: signature.0,
                    mtime: signature.1,
                    derives: copie_derives(&production.derives),
                    lqip: production.lqip.clone(),
                    largeur: production.largeur,
                    hauteur: production.hauteur,
                };
                let ghost ancien = cache.entrees@;
                cache.inserer(medias[indice].id.as_str(), entree);
                let mut m = medias.remove(indice);
                m.derives = Some(production.derives);
                m.lqip = Some(production.lqip);
                m.largeur = Some(production.largeur);
                m.hauteur = Some(production.hauteur);
                medias.insert(indice, m);
                produits = produits + 1;
                assert(medias@ =~= medias_apres(s, rs, k + 1));
                assert forall|id: Seq<char>|
                    entree_de(#[trigger] cache.entrees@, id) == entree_apres(s, rs, k + 1, id, entree_de(c0, id)) by {
                    if id != s[indice as int].id@ {
                        assert(entree_de(cache.entrees@, id) == entree_de(ancien, id));
                    }
                }
            },
            Err(erreur) => {
                let message = message_echec_exec(medias[indice].id.as_str(), erreur.as_str());
                let ghost avant = messages@;
                messages.push(message);
                assert(messages@.map_values(|m: String| m@) =~= avant.map_values(|m: String| m@).push(message@));
            },
        }
        k += 1;
    }
    (produits, messages)
}

// ---------------------------------------------------------------------------
// Le compte d'un build
// ---------------------------------------------------------------------------

/// Nombre des `n` premiers médias qui demandent des dérivés.
pub open spec fn nb_demandes(s: Seq<Media>, sigs: Seq<Option<Signature>>, n: int) -> nat
    decreases n,
{
    if n <= 0 {
        0
    } else if demande_derives(s[n - 1], sigs[n - 1]) {
        nb_demandes(s, sigs, n - 1) + 1
    } else {
        nb_demandes(s, sigs, n - 1)
    }
}

proof fn lemme_plan(s: Seq<Media>, sigs: Seq<Option<Signature>>, es: Seq<Option<EntreeCache>>, force: bool, n: int)
    requires
        0 <= n <= s.len(),
        s.len() <= usize::MAX,
    ensures
        a_produire(s, sigs, es, force, n).len() + nb_reprises(s, sigs, es, force, n) == nb_demandes(s, sigs, n),
        force ==> nb_reprises(s, sigs, es, force, n) == 0,
        forall|q: int|
            0 <= q < a_produire(s, sigs, es, force, n).len() ==> {
                let i = (#[trigger] a_produire(s, sigs, es, force, n)[q]).0 as int;
                0 <= i < n && demande_derives(s[i], sigs[i])
            },
    decreases n,
{
    if n > 0 {
        lemme_plan(s, sigs, es, force, n - 1);
        let avant = a_produire(s, sigs, es, force, n - 1);
        let apres = a_produire(s, sigs, es, force, n);
        assert forall|q: int| 0 <= q < apres.len() implies {
            let i = (#[trigger] apres[q]).0 as int;
            0 <= i < n && demande_derives(s[i], sigs[i])
        } by {
            if q < avant.len() {
                assert(apres[q] == avant[q]);
            }
        }
    }
}

proof fn lemme_resultats(s: Seq<Media>, rs: Seq<Resultat>, m: int)
    requires
        0 <= m,
    ensures
        nb_produits(rs, m) + echecs(s, rs, m).len() == m,
    decreases m,
{
    if m > 0 {
        lemme_resultats(s, rs, m - 1);
    }
}

proof fn lemme_productions(t: Seq<Media>, rs: Seq<Resultat>, m: int)
    requires
        0 <= m <= rs.len(),
        forall|q: int| 0 <= q < rs.len() ==> (#[trigger] rs[q]).0 < t.len(),
    ensures
        medias_apres(t, rs, m).len() == t.len(),
        forall|k: int|
            0 <= k < t.len() && (forall|q: int| 0 <= q < m ==> (#[trigger] rs[q]).0 as int != k) ==> #[trigger] medias_apres(
                t,
                rs,
                m,
            )[k] == t[k],
        forall|k: int| 0 <= k < t.len() && a_ses_derives(t[k]) ==> a_ses_derives(#[trigger] medias_apres(t, rs, m)[k]),
        forall|q: int|
            0 <= q < m && (#[trigger] rs[q]).2 is Ok ==> a_ses_derives(medias_apres(t, rs, m)[rs[q].0 as int]),
    decreases m,
{
    if m > 0 {
        lemme_productions(t, rs, m - 1);
        let avant = medias_apres(t, rs, m - 1);
        let apres = medias_apres(t, rs, m);
        assert forall|k: int|
            0 <= k < t.len() && (forall|q: int| 0 <= q < m ==> (#[trigger] rs[q]).0 as int != k) implies #[trigger] apres[k]
            == t[k] by {
            assert(forall|q: int| 0 <= q < m - 1 ==> (#[trigger] rs[q]).0 as int != k);
            assert(rs[m - 1].0 as int != k);
        }
        assert forall|q: int| 0 <= q < m && (#[trigger] rs[q]).2 is Ok implies a_ses_derives(apres[rs[q].0 as int]) by {
            if q < m - 1 {
                assert(a_ses_derives(avant[rs[q].0 as int]));
            }
        }
    }
}

/// Un build compte chaque photo qui demande des dérivés une fois, et une
/// seule : reprise du cache, produite ou en échec ; `--force` ne reprend
/// rien. Un média qui n'en demande pas n'est touché ni par le plan ni par
/// les productions ; une photo reprise ou produite a ses dérivés et son
/// aperçu.
/// `resultats` porte une production par média à produire, dans l'ordre du
/// plan.
pub proof fn loi_derivation_comptee(
    s: Seq<Media>,
    sigs: Seq<Option<Signature>>,
    es: Seq<Option<EntreeCache>>,
    force: bool,
    resultats: Seq<Resultat>,
)
    requires
        s.len() <= usize::MAX,
        sigs.len() == s.len(),
        es.len() == s.len(),
        resultats.len() == a_produire(s, sigs, es, force, s.len() as int).len(),
        forall|q: int|
            0 <= q < resultats.len() ==> (#[trigger] resultats[q]).0 == a_produire(s, sigs, es, force, s.len() as int)[q].0,
    ensures
        ({
            let plan = plan_medias(s, sigs, es, force);
            nb_produits(resultats, resultats.len() as int) + echecs(plan, resultats, resultats.len() as int).len()
                + nb_reprises(s, sigs, es, force, s.len() as int) == nb_demandes(s, sigs, s.len() as int)
        }),
        force ==> nb_reprises(s, sigs, es, force, s.len() as int) == 0,
        forall|k: int|
            0 <= k < s.len() && !demande_derives(s[k], sigs[k]) ==> #[trigger] medias_apres(
                plan_medias(s, sigs, es, force),
                resultats,
                resultats.len() as int,
            )[k] == s[k],
        forall|k: int|
            0 <= k < s.len() && reprise(s[k], sigs[k], es[k], force) is Some ==> a_ses_derives(
                #[trigger] medias_apres(plan_medias(s, sigs, es, force), resultats, resultats.len() as int)[k],
            ),
        forall|q: int|
            0 <= q < resultats.len() && (#[trigger] resultats[q]).2 is Ok ==> a_ses_derives(
                medias_apres(plan_medias(s, sigs, es, force), resultats, resultats.len() as int)[resultats[q].0 as int],
            ),
{
    let n = s.len() as int;
    let plan = plan_medias(s, sigs, es, force);
    let liste = a_produire(s, sigs, es, force, n);
    lemme_plan(s, sigs, es, force, n);
    lemme_resultats(plan, resultats, resultats.len() as int);
    assert forall|q: int| 0 <= q < resultats.len() implies (#[trigger] resultats[q]).0 < plan.len() by {
        assert(resultats[q].0 == liste[q].0);
    }
    lemme_productions(plan, resultats, resultats.len() as int);
    assert forall|k: int| 0 <= k < s.len() && !demande_derives(s[k], sigs[k]) implies #[trigger] medias_apres(
        plan,
        resultats,
        resultats.len() as int,
    )[k] == s[k] by {
        assert forall|q: int| 0 <= q < resultats.len() implies (#[trigger] resultats[q]).0 as int != k by {
            assert(resultats[q].0 == liste[q].0);
        }
    }
}

} // verus!
