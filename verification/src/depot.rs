//! La racine du dépôt, et les incohérences que le contrôle refuse.
//!
//! Le parcours des dossiers se fait au bord : ici arrivent, du dossier de
//! départ en remontant, les dossiers et ce que le disque en dit.

use vstd::prelude::*;
use vstd::string::StringExecFns;

use crate::jours::Journee;
use crate::lieux::{lieu_par_id, lieu_par_id_exec};
use crate::voyage::{Lieu, Voyage};

verus! {

/// Le message d'un dépôt introuvable : il nomme le départ et dit quoi faire.
pub open spec fn message_introuvable(depart: Seq<char>) -> Seq<char> {
    "racine du dépôt introuvable depuis "@ + depart
        + " : aucun dossier parent ne contient content/voyages. Préciser --depot."@
}

/// Le premier des dossiers, à partir de l'indice `k`, qui contient
/// `content/voyages` ; -1 s'il n'y en a pas.
pub open spec fn premier_depot(v: Seq<(String, bool)>, k: int) -> int
    decreases v.len() - k,
{
    if k < 0 || k >= v.len() {
        -1
    } else if v[k].1 {
        k
    } else {
        premier_depot(v, k + 1)
    }
}

/// Remonte depuis `depart` jusqu'à trouver la racine du dépôt.
/// `remontee` donne les dossiers de `depart` à la racine du système, chacun
/// avec la présence de `content/voyages` sous lui. La racine est le premier
/// qui le contient ; à défaut, une erreur qui nomme le départ.
pub fn trouver_depot(depart: &str, remontee: &Vec<(String, bool)>) -> (r: Result<String, String>)
    ensures
        match r {
            Ok(d) => premier_depot(remontee@, 0) >= 0 && d@ == remontee@[premier_depot(remontee@, 0)].0@,
            Err(m) => premier_depot(remontee@, 0) == -1 && m@ == message_introuvable(depart@),
        },
{
    let mut k: usize = 0;
    while k < remontee.len()
        invariant
            k <= remontee@.len(),
            premier_depot(remontee@, 0) == premier_depot(remontee@, k as int),
        decreases remontee@.len() - k,
    {
        if remontee[k].1 {
            return Ok(remontee[k].0.clone());
        }
        k += 1;
    }
    let mut m = String::from_str("racine du dépôt introuvable depuis ");
    m.append(depart);
    m.append(" : aucun dossier parent ne contient content/voyages. Préciser --depot.");
    Err(m)
}

// ---------------------------------------------------------------------------
// Le contrôle
// ---------------------------------------------------------------------------

/// Le champ d'une journée qui référence un lieu.
#[derive(Debug, Clone, Copy, PartialEq, Eq, Structural)]
pub enum Champ {
    Lieu,
    Camp,
}

impl Champ {
    pub fn nom(self) -> (r: &'static str)
        ensures
            r@ == (match self {
                Champ::Lieu => "lieu"@,
                Champ::Camp => "camp"@,
            }),
    {
        match self {
            Champ::Lieu => "lieu",
            Champ::Camp => "camp",
        }
    }
}

/// Ce que le contrôle refuse : aucun arbitrage silencieux.
#[derive(Debug, Clone)]
pub enum Faute {
    /// Une surcharge ou une sélection qui ne vise rien, avec son message.
    Inutilisee(String),
    /// Une journée référence un lieu absent du voyage.
    ReferenceInconnue { jour: i64, champ: Champ, id: String },
    /// Une répartition demandée un jour sans segment manuel.
    RepartitionSansSegment(i64),
}

/// Une faute vue de l'extérieur : 0 pour une surcharge inutilisée et son
/// message, 1 pour une référence inconnue, 2 pour une répartition sans
/// segment.
pub type VueFaute = (int, Seq<char>, i64, Champ);

pub open spec fn vue_faute(f: Faute) -> VueFaute {
    match f {
        Faute::Inutilisee(m) => (0, m@, 0, Champ::Lieu),
        Faute::ReferenceInconnue { jour, champ, id } => (1, id@, jour, champ),
        Faute::RepartitionSansSegment(jour) => (2, seq![], jour, Champ::Lieu),
    }
}

pub open spec fn vues_fautes(v: Seq<Faute>) -> Seq<VueFaute> {
    v.map_values(|f: Faute| vue_faute(f))
}

/// La référence `valeur` de la journée, si elle est donnée et inconnue du
/// voyage.
pub open spec fn reference_inconnue(ls: Seq<Lieu>, jour: i64, champ: Champ, valeur: Option<String>) -> Seq<VueFaute> {
    match valeur {
        Some(id) => if lieu_par_id(ls, id@) < 0 {
            seq![(1, id@, jour, champ)]
        } else {
            seq![]
        },
        None => seq![],
    }
}

/// Les références inconnues des `n` premières journées, le lieu avant le
/// camp pour chacune.
pub open spec fn references_inconnues(ls: Seq<Lieu>, js: Seq<Journee>, n: int) -> Seq<VueFaute>
    decreases n,
{
    if n <= 0 {
        seq![]
    } else {
        let j = js[n - 1];
        references_inconnues(ls, js, n - 1) + reference_inconnue(ls, j.date, Champ::Lieu, j.lieu)
            + reference_inconnue(ls, j.date, Champ::Camp, j.camp)
    }
}

/// Les fautes du contrôle : les surcharges inutilisées, puis les références
/// inconnues des journées, puis les répartitions sans segment.
pub open spec fn fautes_spec(inutilisees: Seq<String>, ls: Seq<Lieu>, js: Seq<Journee>, repartitions: Seq<i64>) -> Seq<VueFaute> {
    inutilisees.map_values(|m: String| (0int, m@, 0i64, Champ::Lieu)) + references_inconnues(ls, js, js.len() as int)
        + repartitions.map_values(|j: i64| (2int, Seq::<char>::empty(), j, Champ::Lieu))
}

fn verifier_reference(ls: &Vec<Lieu>, jour: i64, champ: Champ, valeur: &Option<String>, r: &mut Vec<Faute>)
    ensures
        vues_fautes(final(r)@) == vues_fautes(old(r)@) + reference_inconnue(ls@, jour, champ, *valeur),
{
    let ghost avant = r@;
    match valeur {
        Some(id) => {
            if lieu_par_id_exec(ls, id).is_none() {
                r.push(Faute::ReferenceInconnue { jour, champ, id: id.clone() });
                assert(vues_fautes(r@) =~= vues_fautes(avant) + reference_inconnue(ls@, jour, champ, *valeur));
            } else {
                assert(vues_fautes(r@) =~= vues_fautes(avant) + reference_inconnue(ls@, jour, champ, *valeur));
            }
        },
        None => {
            assert(vues_fautes(r@) =~= vues_fautes(avant) + reference_inconnue(ls@, jour, champ, *valeur));
        },
    }
}

/// Ce que `check` refuse : une surcharge qui ne vise rien, une référence de
/// lieu inconnue, une répartition sans segment. Une seule suffit à faire
/// échouer la commande.
pub fn fautes(inutilisees: &Vec<String>, voyage: &Voyage, journees: &Vec<Journee>, repartitions: &Vec<i64>) -> (r: Vec<Faute>)
    ensures
        vues_fautes(r@) == fautes_spec(inutilisees@, voyage.lieux@, journees@, repartitions@),
{
    let mut r: Vec<Faute> = Vec::new();
    let mut i: usize = 0;
    while i < inutilisees.len()
        invariant
            i <= inutilisees@.len(),
            vues_fautes(r@) == inutilisees@.take(i as int).map_values(|m: String| (0int, m@, 0i64, Champ::Lieu)),
        decreases inutilisees@.len() - i,
    {
        let ghost avant = r@;
        let m = inutilisees[i].clone();
        r.push(Faute::Inutilisee(m));
        assert(vues_fautes(r@) =~= vues_fautes(avant).push((0int, inutilisees@[i as int]@, 0i64, Champ::Lieu)));
        assert(inutilisees@.take(i + 1) =~= inutilisees@.take(i as int).push(inutilisees@[i as int]));
        i += 1;
        assert(vues_fautes(r@) =~= inutilisees@.take(i as int).map_values(|m: String| (0int, m@, 0i64, Champ::Lieu)));
    }
    assert(inutilisees@.take(i as int) =~= inutilisees@);
    let ghost base = vues_fautes(r@);
    let mut j: usize = 0;
    while j < journees.len()
        invariant
            j <= journees@.len(),
            base == inutilisees@.map_values(|m: String| (0int, m@, 0i64, Champ::Lieu)),
            vues_fautes(r@) == base + references_inconnues(voyage.lieux@, journees@, j as int),
        decreases journees@.len() - j,
    {
        let journee = &journees[j];
        verifier_reference(&voyage.lieux, journee.date, Champ::Lieu, &journee.lieu, &mut r);
        verifier_reference(&voyage.lieux, journee.date, Champ::Camp, &journee.camp, &mut r);
        j += 1;
        assert(vues_fautes(r@) =~= base + references_inconnues(voyage.lieux@, journees@, j as int));
    }
    let ghost milieu = vues_fautes(r@);
    let mut q: usize = 0;
    while q < repartitions.len()
        invariant
            q <= repartitions@.len(),
            vues_fautes(r@) == milieu + repartitions@.take(q as int).map_values(|x: i64| (2int, Seq::<char>::empty(), x, Champ::Lieu)),
        decreases repartitions@.len() - q,
    {
        let ghost avant = r@;
        r.push(Faute::RepartitionSansSegment(repartitions[q]));
        assert(vues_fautes(r@) =~= vues_fautes(avant).push((2int, Seq::<char>::empty(), repartitions@[q as int], Champ::Lieu)));
        assert(repartitions@.take(q + 1) =~= repartitions@.take(q as int).push(repartitions@[q as int]));
        q += 1;
        assert(vues_fautes(r@) =~= milieu + repartitions@.take(q as int).map_values(|x: i64| (2int, Seq::<char>::empty(), x, Champ::Lieu)));
    }
    assert(repartitions@.take(q as int) =~= repartitions@);
    r
}

} // verus!
