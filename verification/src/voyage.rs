//! Le voyage : ses bornes, son fuseau, ses lieux.
//!
//! La lecture de `voyage.yaml` se fait au bord ; ici arrive le voyage lu.
//! Les jours sont comptés depuis le 1er janvier 1970, les positions en
//! dix-millionièmes de degré.

use vstd::prelude::*;
use vstd::string::StringExecFns;

use crate::noms::vues;
use crate::scan::Position;

verus! {

#[derive(Debug, Clone, Copy, PartialEq, Eq, Structural)]
pub enum TypeLieu {
    /// On y dort. Marqueur distinct sur la carte.
    Camp,
    Etape,
}

impl TypeLieu {
    /// Le type d'un lieu qui n'en déclare pas.
    pub fn etape() -> (r: TypeLieu)
        ensures
            r == TypeLieu::Etape,
    {
        TypeLieu::Etape
    }
}

/// Un lieu géolocalisé du voyage.
#[derive(Debug, Clone)]
pub struct Lieu {
    pub id: String,
    pub nom: String,
    pub type_lieu: TypeLieu,
    pub position: Position,
    /// Premier jour du séjour, pour un camp.
    pub du: Option<i64>,
    /// Jour du départ, pour un camp.
    pub au: Option<i64>,
}

#[derive(Debug, Clone)]
pub struct Voyage {
    pub id: String,
    pub titre: String,
    pub sous_titre: Option<String>,
    pub date_debut: i64,
    pub date_fin: i64,
    pub pays: Vec<String>,
    pub distance_km: Option<u32>,
    pub nuits: Option<u32>,
    pub mode: Option<String>,
    /// Nom IANA du fuseau de référence du voyage.
    pub fuseau: String,
    /// Dossier source, en lecture seule.
    pub source_photos: String,
    /// Sous-dossiers à ne pas parcourir.
    pub dossiers_ignores: Vec<String>,
    pub notion: Option<String>,
    pub lieux: Vec<Lieu>,
}

/// Ce qui rend un voyage lu inutilisable.
#[derive(Debug, Clone)]
pub enum ErreurVoyage {
    /// L'identifiant déclaré ne correspond pas au dossier.
    IdentifiantIncoherent { declare: String, dossier: String },
}

impl Voyage {
    /// Vrai si ce nom de dossier doit être sauté au parcours.
    pub fn dossier_ignore(&self, nom: &str) -> (r: bool)
        ensures
            r == vues(self.dossiers_ignores@).contains(nom@),
    {
        let mut i: usize = 0;
        while i < self.dossiers_ignores.len()
            invariant
                i <= self.dossiers_ignores.len(),
                forall|k: int| 0 <= k < i ==> vues(self.dossiers_ignores@)[k] != nom@,
            decreases self.dossiers_ignores.len() - i,
        {
            if crate::texte::egales(self.dossiers_ignores[i].as_str(), nom) {
                assert(vues(self.dossiers_ignores@)[i as int] == nom@);
                return true;
            }
            i += 1;
        }
        false
    }

    /// L'identifiant déclaré doit être celui du dossier qui porte le voyage.
    pub fn verifier_identifiant(self, dossier: &str) -> (r: Result<Voyage, ErreurVoyage>)
        ensures
            r is Ok <==> self.id@ == dossier@,
            r matches Ok(v) ==> v == self,
            r matches Err(ErreurVoyage::IdentifiantIncoherent { declare, dossier: d }) ==> declare@ == self.id@
                && d@ == dossier@,
    {
        if crate::texte::egales(self.id.as_str(), dossier) {
            Ok(self)
        } else {
            let declare = self.id;
            Err(ErreurVoyage::IdentifiantIncoherent { declare, dossier: String::from_str(dossier) })
        }
    }
}

} // verus!
