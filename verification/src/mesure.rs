//! Distances entre positions.
//!
//! La distance sur la sphère se calcule en virgule flottante, au bord. Les
//! fonctions de ce crate qui en ont besoin la reçoivent comme une mesure :
//! une fonction de deux positions vers des millimètres, sans autre effet,
//! qui rend toujours la même valeur pour les mêmes positions. Leurs contrats
//! parlent de ce que cette mesure rend, quelle qu'elle soit.

use vstd::prelude::*;

use crate::scan::Position;

verus! {

/// Aucune distance sur la Terre n'atteint un million de kilomètres : une
/// mesure rend toujours moins que cette borne, en millimètres.
pub const MESURE_MAXIMALE: u64 = 1_000_000_000_000;

/// La mesure s'applique à toute paire de positions, rend toujours la même
/// valeur pour la même paire, et une valeur terrestre.
pub open spec fn mesure_valide<F: Fn(Position, Position) -> u64>(f: F) -> bool {
    &&& forall|a: Position, b: Position| f.requires((a, b))
    &&& forall|a: Position, b: Position, d1: u64, d2: u64| f.ensures((a, b), d1) && f.ensures((a, b), d2) ==> d1 == d2
    &&& forall|a: Position, b: Position, d: u64| f.ensures((a, b), d) ==> d <= MESURE_MAXIMALE
}

/// La distance, en millimètres, que la mesure rend pour cette paire.
pub open spec fn distance<F: Fn(Position, Position) -> u64>(f: F, a: Position, b: Position) -> u64 {
    choose|d: u64| f.ensures((a, b), d)
}

/// Mesure la distance entre deux positions.
pub fn mesurer<F: Fn(Position, Position) -> u64>(f: &F, a: Position, b: Position) -> (d: u64)
    requires
        mesure_valide(*f),
    ensures
        d == distance(*f, a, b),
        d <= MESURE_MAXIMALE,
{
    let d = f(a, b);
    assert(f.ensures((a, b), d));
    d
}

} // verus!
