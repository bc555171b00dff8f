//! Pipeline médias du site des voyages : la logique vérifiée.
//!
//! Les entrées et sorties (dossiers, EXIF, images, réseau, JSON) vivent dans
//! `app/` ; ce qui décide et ce qui calcule vit ici, avec son contrat.

pub mod texte;
pub mod calendrier;
pub mod construction;
pub mod derive;
pub mod derivation;
pub mod depot;
pub mod emit;
pub mod fuseau;
pub mod itineraire;
pub mod jours;
pub mod lieux;
pub mod mesure;
pub mod motif;
pub mod noms;
pub mod ordre;
pub mod overrides;
pub mod pixels;
pub mod pose;
pub mod quality;
pub mod recit;
pub mod scan;
pub mod selection;
pub mod track;
pub mod tri;
pub mod voyage;
