//! La construction des traces d'un voyage, en deux temps autour du moteur
//! d'itinéraire : d'abord toutes les demandes, dans l'ordre où la
//! construction les consomme ; puis, les réponses venues, les tronçons et le
//! bilan.

use vstd::prelude::*;

use crate::jours::Journee;
use crate::lieux::jours_croissants;
use crate::mesure::mesure_valide;
use crate::overrides::{ForcageItineraire, Overrides, Segment};
use crate::quality::instants_valides;
use crate::scan::{Media, Position};
use crate::voyage::Voyage;
use crate::track::{
    apres_transits, appliquer_transits, calculable_spec, clore, demande_segment, demande_segment_spec, demandes_sorties,
    demandes_sorties_spec, demandes_transits, demandes_transits_spec, heritage_lieux, heriter_des_lieux, jours_fiables,
    jours_fiables_spec, jours_sans_trace, jours_sans_trace_spec, nb_reponses, nombre_de_jours, paires_du_jour,
    paires_du_jour_spec, passages, passages_du_jour, points_medias, points_medias_spec, repartitions_sans_segment,
    repartitions_sans_segment_spec, tracer, tracer_journee, troncon_de_segment, troncons_de_reponses,
    troncons_des_sorties, vue_demande, vue_route, vue_troncon, vues_demandes, vues_points, vues_troncons, BilanTraces,
    DemandeItineraire, Paire, Point, SourceTrace, Traces, Troncon, VueDemande, VueTroncon,
};

verus! {

/// Une journée à tracer : ses paires de positions fiables, et pour chacune
/// la demande d'itinéraire qu'elle appelle, s'il y en a une.
#[derive(Debug, Clone)]
pub struct JourATracer {
    pub jour: i64,
    pub paires: Vec<Paire>,
    pub demandes: Vec<Option<DemandeItineraire>>,
}

/// Les demandes d'itinéraire d'un voyage, rangées par étape de la
/// construction : journées, segments manuels, sorties de camp, transits.
#[derive(Debug, Clone)]
pub struct Demandes {
    pub jours: Vec<JourATracer>,
    pub segments: Vec<Option<DemandeItineraire>>,
    pub sorties: Vec<DemandeItineraire>,
    pub transits: Vec<DemandeItineraire>,
}

/// Les itinéraires obtenus, dans la forme des demandes : `None` là où rien
/// n'est venu, ou là où rien n'était demandé.
#[derive(Debug, Clone)]
pub struct Reponses {
    pub jours: Vec<Vec<Option<Vec<Point>>>>,
    pub segments: Vec<Option<Vec<Point>>>,
    pub sorties: Vec<Option<Vec<Point>>>,
    pub transits: Vec<Option<Vec<Point>>>,
}

pub open spec fn vue_option(d: Option<DemandeItineraire>) -> Option<VueDemande> {
    match d {
        Some(x) => Some(vue_demande(x)),
        None => None,
    }
}

/// Une paire d'un mode calculable part au moteur, avec les points de passage
/// imposés à ce mode ce jour-là ; une autre ne demande rien.
pub open spec fn demande_de_paire_spec(jour: i64, p: Paire, fs: Seq<ForcageItineraire>) -> Option<VueDemande> {
    match p.mode {
        Some(m) => if calculable_spec(m) {
            Some((jour, m, p.depart, p.arrivee, passages_du_jour(fs, jour, Some(m))))
        } else {
            None
        },
        None => None,
    }
}

pub open spec fn jours_de(js: Seq<JourATracer>) -> Seq<i64> {
    js.map_values(|j: JourATracer| j.jour)
}

/// Ce que `preparer` rend pour ces médias, ce voyage et ces surcharges.
pub open spec fn demandes_du_voyage<F: Fn(Position, Position) -> u64>(
    d: Demandes,
    medias: Seq<Media>,
    voyage: Voyage,
    overrides: Overrides,
    f: F,
) -> bool {
    &&& jours_croissants(jours_de(d.jours@))
    &&& jours_de(d.jours@).to_set() == jours_fiables_spec(medias)
    &&& forall|i: int|
        0 <= i < d.jours@.len() ==> (#[trigger] d.jours@[i]).paires@ == paires_du_jour_spec(
            medias,
            d.jours@[i].jour,
            overrides.modes@,
            voyage.fuseau@,
            f,
        ) && d.jours@[i].demandes@.len() == d.jours@[i].paires@.len()
    &&& forall|i: int, k: int|
        0 <= i < d.jours@.len() && 0 <= k < d.jours@[i].paires@.len() ==> vue_option(
            #[trigger] d.jours@[i].demandes@[k],
        ) == demande_de_paire_spec(d.jours@[i].jour, d.jours@[i].paires@[k], overrides.itineraires@)
    &&& d.segments@.len() == overrides.segments@.len()
    &&& forall|k: int|
        0 <= k < d.segments@.len() ==> vue_option(#[trigger] d.segments@[k]) == demande_segment_spec(
            overrides.segments@[k],
        )
    &&& vues_demandes(d.sorties@) == demandes_sorties_spec(medias, voyage, f, nombre_de_jours(voyage))
    &&& vues_demandes(d.transits@) == demandes_transits_spec(medias, voyage, overrides, f, nombre_de_jours(voyage))
}

fn demande_de_paire(jour: i64, p: &Paire, overrides: &Overrides) -> (r: Option<DemandeItineraire>)
    ensures
        vue_option(r) == demande_de_paire_spec(jour, *p, overrides.itineraires@),
{
    match p.mode {
        Some(m) => if m.calculable() {
            Some(DemandeItineraire { jour, mode: m, depart: p.depart, arrivee: p.arrivee, passages: passages(overrides, jour, Some(m)) })
        } else {
            None
        },
        None => None,
    }
}

/// Toutes les demandes d'itinéraire du voyage : pour chaque journée aux
/// positions fiables, ses paires et celles qui partent au moteur ; puis les
/// segments à calculer, les sorties de camp et les transits.
pub fn preparer<F: Fn(Position, Position) -> u64>(
    medias: &Vec<Media>,
    voyage: &Voyage,
    overrides: &Overrides,
    distance: &F,
) -> (d: Demandes)
    requires
        mesure_valide(*distance),
        instants_valides(medias@),
    ensures
        demandes_du_voyage(d, medias@, *voyage, *overrides, *distance),
{
    let jours = jours_fiables(medias);
    let mut js: Vec<JourATracer> = Vec::new();
    let mut i: usize = 0;
    while i < jours.len()
        invariant
            i <= jours@.len(),
            mesure_valide(*distance),
            instants_valides(medias@),
            jours_de(js@) == jours@.take(i as int),
            forall|q: int|
                0 <= q < js@.len() ==> (#[trigger] js@[q]).paires@ == paires_du_jour_spec(
                    medias@,
                    js@[q].jour,
                    overrides.modes@,
                    voyage.fuseau@,
                    *distance,
                ) && js@[q].demandes@.len() == js@[q].paires@.len(),
            forall|q: int, k: int|
                0 <= q < js@.len() && 0 <= k < js@[q].paires@.len() ==> vue_option(
                    #[trigger] js@[q].demandes@[k],
                ) == demande_de_paire_spec(js@[q].jour, js@[q].paires@[k], overrides.itineraires@),
        decreases jours@.len() - i,
    {
        let jour = jours[i];
        let paires = paires_du_jour(medias, jour, overrides, &voyage.fuseau, distance);
        let mut demandes: Vec<Option<DemandeItineraire>> = Vec::new();
        let mut k: usize = 0;
        while k < paires.len()
            invariant
                k <= paires@.len(),
                demandes@.len() == k,
                forall|q: int|
                    0 <= q < k ==> vue_option(#[trigger] demandes@[q]) == demande_de_paire_spec(
                        jour,
                        paires@[q],
                        overrides.itineraires@,
                    ),
            decreases paires@.len() - k,
        {
            demandes.push(demande_de_paire(jour, &paires[k], overrides));
            k += 1;
        }
        let ghost avant = js@;
        js.push(JourATracer { jour, paires, demandes });
        assert(jours_de(js@) =~= jours_de(avant).push(jour));
        assert(jours@.take(i + 1) =~= jours@.take(i as int).push(jour));
        i += 1;
    }
    assert(jours@.take(jours@.len() as int) =~= jours@);
    let mut segments: Vec<Option<DemandeItineraire>> = Vec::new();
    let mut k: usize = 0;
    while k < overrides.segments.len()
        invariant
            k <= overrides.segments@.len(),
            segments@.len() == k,
            forall|q: int|
                0 <= q < k ==> vue_option(#[trigger] segments@[q]) == demande_segment_spec(overrides.segments@[q]),
        decreases overrides.segments@.len() - k,
    {
        let d = demande_segment(&overrides.segments[k]);
        segments.push(d);
        k += 1;
    }
    let sorties = demandes_sorties(medias, voyage, distance);
    let transits = demandes_transits(medias, voyage, overrides, distance);
    Demandes { jours: js, segments, sorties, transits }
}

// ---------------------------------------------------------------------------
// Les tronçons, une fois les réponses venues
// ---------------------------------------------------------------------------

/// Les réponses ont la forme des demandes : une par paire de chaque journée,
/// une par segment, par sortie et par transit.
pub open spec fn reponses_accordees(d: Demandes, r: Reponses, o: Overrides) -> bool {
    &&& r.jours@.len() == d.jours@.len()
    &&& forall|i: int| 0 <= i < d.jours@.len() ==> (#[trigger] r.jours@[i])@.len() == d.jours@[i].paires@.len()
    &&& d.segments@.len() == o.segments@.len()
    &&& r.segments@.len() == d.segments@.len()
    &&& r.sorties@.len() == d.sorties@.len()
    &&& r.transits@.len() == d.transits@.len()
}

/// Un compteur s'arrête au plus grand `usize` plutôt que de déborder.
pub open spec fn plafond(n: nat) -> nat {
    if n > usize::MAX { usize::MAX as nat } else { n }
}

/// Les `n` premières journées tracées : leurs tronçons bout à bout, les
/// tronçons calculés, les tronçons routiers restés droits, et les journées
/// qui ont donné au moins un tronçon.
pub open spec fn par_jours(js: Seq<JourATracer>, rs: Seq<Vec<Option<Vec<Point>>>>, n: int) -> (Seq<VueTroncon>, nat, nat, nat)
    decreases n,
{
    if n <= 0 {
        (seq![], 0, 0, 0)
    } else {
        let avant = par_jours(js, rs, n - 1);
        let j = js[n - 1];
        let e = tracer(j.jour, j.paires@, rs[n - 1]@, j.paires@.len() as int);
        let du_jour = clore(e);
        (avant.0 + du_jour, avant.1 + e.2, avant.2 + e.3, avant.3 + if du_jour.len() > 0 { 1nat } else { 0nat })
    }
}

/// La réponse retenue pour un segment : seulement s'il demandait un calcul.
pub open spec fn reponse_de_segment(d: Option<DemandeItineraire>, r: Option<Vec<Point>>) -> Option<Seq<Point>> {
    match d {
        Some(_) => vue_route(r),
        None => None,
    }
}

/// Les tronçons des `n` premiers segments, et combien ont été calculés.
pub open spec fn par_segments(
    ss: Seq<Segment>,
    ds: Seq<Option<DemandeItineraire>>,
    rs: Seq<Option<Vec<Point>>>,
    n: int,
) -> (Seq<VueTroncon>, nat)
    decreases n,
{
    if n <= 0 {
        (seq![], 0)
    } else {
        let e = par_segments(ss, ds, rs, n - 1);
        let s = ss[n - 1];
        match reponse_de_segment(ds[n - 1], rs[n - 1]) {
            Some(pts) => (e.0.push((s.jour, s.mode, SourceTrace::Calculee, pts)), e.1 + 1),
            None => (e.0.push((s.jour, s.mode, SourceTrace::Manuelle, s.points@)), e.1),
        }
    }
}

/// Journées, segments et sorties de camp, avant les transits.
pub open spec fn avant_transits(d: Demandes, r: Reponses, o: Overrides) -> Seq<VueTroncon> {
    par_jours(d.jours@, r.jours@, d.jours@.len() as int).0 + par_segments(
        o.segments@,
        d.segments@,
        r.segments@,
        d.segments@.len() as int,
    ).0 + troncons_de_reponses(d.sorties@, r.sorties@, d.sorties@.len() as int)
}

/// Les tronçons après les transits, leur nombre et les journées manquées.
pub open spec fn transits_du_voyage(d: Demandes, r: Reponses, o: Overrides) -> (Seq<VueTroncon>, nat, Seq<i64>) {
    apres_transits(avant_transits(d, r, o), d.transits@, r.transits@, d.transits@.len() as int)
}

/// Tous les tronçons du voyage : ceux des transits, puis la trace de repli
/// des lieux pour les journées qu'aucun ne trace.
pub open spec fn troncons_du_voyage(d: Demandes, r: Reponses, o: Overrides, v: Voyage, js: Seq<Journee>) -> Seq<VueTroncon> {
    let t = transits_du_voyage(d, r, o).0;
    t + heritage_lieux(v.lieux@, js, t, js.len() as int).0
}

proof fn lemme_vues_concat(a: Seq<Troncon>, b: Seq<Troncon>)
    ensures
        vues_troncons(a + b) == vues_troncons(a) + vues_troncons(b),
{
    assert(vues_troncons(a + b) =~= vues_troncons(a) + vues_troncons(b));
}

fn ajouter_troncons(v: &mut Vec<Troncon>, mut w: Vec<Troncon>)
    ensures
        vues_troncons(final(v)@) == vues_troncons(old(v)@) + vues_troncons(w@),
{
    let ghost a = v@;
    let ghost b = w@;
    v.append(&mut w);
    proof {
        lemme_vues_concat(a, b);
    }
}

/// Les traces du voyage, les itinéraires demandés par `preparer` étant
/// venus dans `reponses`. Les journées d'abord, chacune découpée par
/// `tracer_journee` ; puis les segments manuels, calculés quand ils le
/// demandent ; les sorties de camp ; les transits, qui remplacent les
/// tronçons routiers de leur journée ; enfin la trace de repli des lieux.
/// Les compteurs de tronçons calculés et restés droits s'arrêtent au plus
/// grand `usize`.
pub fn construire(
    medias: &Vec<Media>,
    voyage: &Voyage,
    journees: &Vec<Journee>,
    overrides: &Overrides,
    demandes: &Demandes,
    reponses: Reponses,
) -> (t: Traces)
    requires
        reponses_accordees(*demandes, reponses, *overrides),
    ensures
        vues_points(t.points@) == points_medias_spec(medias@),
        vues_troncons(t.troncons@) == troncons_du_voyage(*demandes, reponses, *overrides, *voyage, journees@),
        t.bilan.jours_traces == par_jours(demandes.jours@, reponses.jours@, demandes.jours@.len() as int).3,
        t.bilan.troncons_calcules == plafond(
            par_jours(demandes.jours@, reponses.jours@, demandes.jours@.len() as int).1 + par_segments(
                overrides.segments@,
                demandes.segments@,
                reponses.segments@,
                demandes.segments@.len() as int,
            ).1,
        ),
        t.bilan.troncons_droits == plafond(par_jours(demandes.jours@, reponses.jours@, demandes.jours@.len() as int).2),
        t.bilan.repartitions_sans_segment@ == repartitions_sans_segment_spec(overrides.lots@, overrides.segments@),
        t.bilan.sorties_de_camp == nb_reponses(reponses.sorties@, demandes.sorties@.len() as int),
        t.bilan.transits == transits_du_voyage(*demandes, reponses, *overrides).1,
        t.bilan.transits_manques@ == transits_du_voyage(*demandes, reponses, *overrides).2,
        jours_croissants(t.bilan.jours_sans_trace@),
        t.bilan.jours_sans_trace@.to_set() == jours_sans_trace_spec(medias@, vues_troncons(t.troncons@)),
{
    let ghost rep = reponses;
    let points = points_medias(medias);
    let Reponses { jours: r_jours, segments: r_segments, sorties: r_sorties, transits: r_transits } = reponses;
    let mut troncons: Vec<Troncon> = Vec::new();
    let mut jours_traces: usize = 0;
    let mut calcules: usize = 0;
    let mut droits: usize = 0;
    let n = demandes.jours.len();
    let mut i: usize = 0;
    for routes in it: r_jours.into_iter()
        invariant
            it.seq() == rep.jours@,
            rep.jours@.len() == n,
            n == demandes.jours@.len(),
            reponses_accordees(*demandes, rep, *overrides),
            i == it.index(),
            i <= n,
            jours_traces <= i,
            vues_troncons(troncons@) == par_jours(demandes.jours@, rep.jours@, i as int).0,
            jours_traces == par_jours(demandes.jours@, rep.jours@, i as int).3,
            calcules == plafond(par_jours(demandes.jours@, rep.jours@, i as int).1),
            droits == plafond(par_jours(demandes.jours@, rep.jours@, i as int).2),
    {
        assert(routes == rep.jours@[i as int]);
        let j = &demandes.jours[i];
        let (du_jour, c, d) = tracer_journee(j.jour, &j.paires, routes);
        calcules = calcules.saturating_add(c);
        droits = droits.saturating_add(d);
        if du_jour.len() > 0 {
            jours_traces = jours_traces + 1;
        }
        ajouter_troncons(&mut troncons, du_jour);
        i += 1;
    }
    let ghost calcules_jours = par_jours(demandes.jours@, rep.jours@, n as int).1;
    let ghost segs = overrides.segments@;
    let m = demandes.segments.len();
    let mut k: usize = 0;
    for reponse in it: r_segments.into_iter()
        invariant
            it.seq() == rep.segments@,
            rep.segments@.len() == m,
            m == demandes.segments@.len(),
            m == segs.len(),
            segs == overrides.segments@,
            k == it.index(),
            k <= m,
            vues_troncons(troncons@) == par_jours(demandes.jours@, rep.jours@, n as int).0 + par_segments(
                segs,
                demandes.segments@,
                rep.segments@,
                k as int,
            ).0,
            calcules == plafond(calcules_jours + par_segments(segs, demandes.segments@, rep.segments@, k as int).1),
    {
        assert(reponse == rep.segments@[k as int]);
        let retenue = if demandes.segments[k].is_some() {
            reponse
        } else {
            None
        };
        if retenue.is_some() {
            calcules = calcules.saturating_add(1);
        }
        let ghost avant = troncons@;
        troncons.push(troncon_de_segment(&overrides.segments[k], retenue));
        assert(vues_troncons(troncons@) =~= vues_troncons(avant).push(vue_troncon(troncons@.last())));
        k += 1;
    }
    let (sorties, nombre_sorties) = troncons_des_sorties(&demandes.sorties, r_sorties);
    ajouter_troncons(&mut troncons, sorties);
    assert(vues_troncons(troncons@) =~= avant_transits(*demandes, rep, *overrides));
    let (transits, manques) = appliquer_transits(&mut troncons, &demandes.transits, r_transits);
    let herites = heriter_des_lieux(voyage, journees, &troncons);
    ajouter_troncons(&mut troncons, herites);
    let repartitions = repartitions_sans_segment(overrides);
    let sans_trace = jours_sans_trace(medias, &troncons);
    Traces {
        troncons,
        points,
        bilan: BilanTraces {
            jours_traces,
            jours_sans_trace: sans_trace,
            troncons_calcules: calcules,
            troncons_droits: droits,
            repartitions_sans_segment: repartitions,
            transits,
            transits_manques: manques,
            sorties_de_camp: nombre_sorties,
        },
    }
}

} // verus!
