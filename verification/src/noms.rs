//! Normalisation des noms de fichiers, identifiants de médias, collisions.
//!
//! Les six conventions de nommage rencontrées sont des motifs de position
//! fixe : l'analyse se fait caractère par caractère, sur le nom mis en
//! majuscules ASCII.

use vstd::prelude::*;

use crate::calendrier::{date_heure, date_heure_exec, DateHeure};
use crate::texte::{en_caracteres, en_chaine, est_alphanumerique, est_alphanumerique_exec, est_chiffre, majuscule, majuscule_exec, minuscule, minuscule_exec, que_des_chiffres, que_des_chiffres_exec, valeur_decimale, valeur_exec};

verus! {

/// Conventions de nommage rencontrées dans les dossiers sources.
#[derive(Debug, Clone, Copy, PartialEq, Eq, Structural)]
pub enum Convention {
    /// `IMG20260814151616` ou `VID20260725164207`, le téléphone.
    Telephone,
    /// `IMG_20260730_071148`, fichier repartagé : le nom porte la date du partage.
    Repartage,
    /// `IMG-20250722-WA0000`, reçu par messagerie, sans EXIF.
    Messagerie,
    /// `GOPR2699`, GoPro à l'horloge perdue.
    GoPro,
    /// `P1000123`, appareil compact.
    Compact,
    /// `DSC_1234`, `DSCN0001`, autres appareils photo.
    AppareilPhoto,
    Autre,
}

impl Convention {
    pub open spec fn porte_une_date_spec(self) -> bool {
        self is Telephone || self is Repartage || self is Messagerie
    }

    /// Vrai si le nom porte une date que l'on peut lire.
    ///
    /// Porter une date ne veut pas dire qu'elle est juste : un nom repartagé
    /// porte la date du partage. Elle ne sert qu'en dernier recours, quand
    /// aucun EXIF n'est lisible.
    pub fn porte_une_date(self) -> (r: bool)
        ensures
            r == self.porte_une_date_spec(),
    {
        match self {
            Convention::Telephone | Convention::Repartage | Convention::Messagerie => true,
            _ => false,
        }
    }
}

/// Résultat de l'analyse d'un nom de fichier.
#[derive(Debug, Clone)]
pub struct NomAnalyse {
    /// Identifiant du média : nom sans extension, normalisé.
    pub identifiant: String,
    pub convention: Convention,
    /// Suffixe de variante conservé, `2` pour `~2`, `01` pour `_01`.
    pub variante: Option<String>,
    /// Horodatage lisible dans le nom, quand il y en a un.
    pub horodatage: Option<DateHeure>,
    /// Vrai si l'identifiant diffère du nom d'origine.
    pub normalise: bool,
}

// ---------------------------------------------------------------------------
// Extensions
// ---------------------------------------------------------------------------

/// Position du dernier caractère `c` de `s`, ou -1.
pub open spec fn dernier(s: Seq<char>, c: char) -> int
    decreases s.len(),
{
    if s.len() == 0 {
        -1
    } else if s.last() == c {
        s.len() - 1
    } else {
        dernier(s.drop_last(), c)
    }
}

pub proof fn lemme_dernier(s: Seq<char>, c: char)
    ensures
        -1 <= dernier(s, c) < s.len(),
        dernier(s, c) >= 0 ==> s[dernier(s, c)] == c,
        forall|i: int| dernier(s, c) < i < s.len() ==> s[i] != c,
    decreases s.len(),
{
    if s.len() > 0 && s.last() != c {
        lemme_dernier(s.drop_last(), c);
        assert forall|i: int| dernier(s, c) < i < s.len() implies s[i] != c by {
            if i < s.len() - 1 {
                assert(s[i] == s.drop_last()[i]);
            }
        }
    }
}

pub fn dernier_exec(s: &[char], c: char) -> (r: Option<usize>)
    ensures
        match r {
            Some(p) => p == dernier(s@, c) && p < s.len(),
            None => dernier(s@, c) == -1,
        },
{
    let mut i: usize = s.len();
    proof {
        assert(s@.subrange(0, i as int) =~= s@);
    }
    while i > 0
        invariant
            i <= s.len(),
            dernier(s@, c) == dernier(s@.subrange(0, i as int), c),
        decreases i,
    {
        if s[i - 1] == c {
            return Some(i - 1);
        }
        assert(s@.subrange(0, i as int).drop_last() =~= s@.subrange(0, i - 1));
        i -= 1;
    }
    None
}

/// Le chemin sans ses `/` finaux ni ses composantes `.` finales, que
/// `Path` ne compte pas parmi les composantes.
pub open spec fn sans_fin_vide(c: Seq<char>) -> Seq<char>
    decreases c.len(),
{
    if c.len() > 0 && c.last() == '/' {
        sans_fin_vide(c.drop_last())
    } else if c.len() >= 2 && c.last() == '.' && c[c.len() - 2] == '/' {
        sans_fin_vide(c.drop_last())
    } else {
        c
    }
}

/// Nom de fichier d'un chemin, comme `Path::file_name` : sa dernière
/// composante, `/` et `.` finaux ôtés ; rien quand c'est `..`.
pub open spec fn nom_du_chemin(chemin: Seq<char>) -> Seq<char> {
    let d = sans_fin_vide(chemin);
    let n = d.skip(dernier(d, '/') + 1);
    if n == seq!['.', '.'] {
        Seq::empty()
    } else {
        n
    }
}

/// Longueur du chemin une fois ôtés ses `/` et `.` finaux.
fn fin_utile(c: &[char]) -> (r: usize)
    ensures
        r <= c.len(),
        c@.take(r as int) == sans_fin_vide(c@),
{
    let mut fin: usize = c.len();
    assert(c@.take(fin as int) =~= c@);
    while fin > 0 && (c[fin - 1] == '/' || (fin >= 2 && c[fin - 1] == '.' && c[fin - 2] == '/'))
        invariant
            fin <= c.len(),
            sans_fin_vide(c@.take(fin as int)) == sans_fin_vide(c@),
        decreases fin,
    {
        assert(c@.take(fin as int).drop_last() =~= c@.take(fin - 1));
        fin -= 1;
    }
    fin
}

/// Extension d'un nom de fichier, comme `Path::extension` : ce qui suit le
/// dernier point, pourvu que ce point ne soit pas le premier caractère.
pub open spec fn extension(nom: Seq<char>) -> Option<Seq<char>> {
    if dernier(nom, '.') > 0 {
        Some(nom.skip(dernier(nom, '.') + 1))
    } else {
        None
    }
}

/// Égalité sans distinction de casse ASCII avec un mot écrit en minuscules.
pub open spec fn egal_minuscules(s: Seq<char>, mot: Seq<char>) -> bool {
    s.len() == mot.len() && forall|i: int| 0 <= i < s.len() ==> #[trigger] minuscule(s[i]) == mot[i]
}

pub open spec fn extension_parmi(chemin: Seq<char>, mots: Seq<Seq<char>>) -> bool {
    match extension(nom_du_chemin(chemin)) {
        Some(e) => exists|k: int| 0 <= k < mots.len() && egal_minuscules(e, #[trigger] mots[k]),
        None => false,
    }
}

pub open spec fn extensions_media() -> Seq<Seq<char>> {
    seq![
        seq!['j', 'p', 'g'],
        seq!['j', 'p', 'e', 'g'],
        seq!['p', 'n', 'g'],
        seq!['h', 'e', 'i', 'c'],
        seq!['h', 'e', 'i', 'f'],
        seq!['m', 'p', '4'],
        seq!['m', 'o', 'v'],
        seq!['3', 'g', 'p'],
    ]
}

pub open spec fn extensions_video() -> Seq<Seq<char>> {
    seq![seq!['m', 'p', '4'], seq!['m', 'o', 'v'], seq!['3', 'g', 'p']]
}

fn egal_minuscules_exec(s: &[char], debut: usize, mot: &[char]) -> (r: bool)
    requires
        debut <= s.len(),
    ensures
        r == egal_minuscules(s@.skip(debut as int), mot@),
{
    if s.len() - debut != mot.len() {
        return false;
    }
    let mut i: usize = 0;
    while i < mot.len()
        invariant
            s.len() - debut == mot.len(),
            debut <= s.len(),
            i <= mot.len(),
            forall|k: int| 0 <= k < i ==> #[trigger] minuscule(s@[debut + k]) == mot@[k],
        decreases mot.len() - i,
    {
        if minuscule_exec(s[debut + i]) != mot[i] {
            assert(s@.skip(debut as int)[i as int] == s@[debut + i]);
            return false;
        }
        i += 1;
    }
    assert forall|k: int| 0 <= k < s@.skip(debut as int).len() implies #[trigger] minuscule(
        s@.skip(debut as int)[k],
    ) == mot@[k] by {
        assert(s@.skip(debut as int)[k] == s@[debut + k]);
    }
    true
}

/// L'extension d'un chemin, si elle existe : elle va de `debut` à `fin`.
fn debut_extension(c: &[char]) -> (r: Option<(usize, usize)>)
    ensures
        match extension(nom_du_chemin(c@)) {
            Some(e) => r matches Some((d, f)) && d <= f <= c.len() && c@.subrange(d as int, f as int) == e,
            None => r is None,
        },
{
    let fin = fin_utile(c);
    let (t, _) = c.split_at(fin);
    assert(t@ =~= c@.take(fin as int));
    let barre = dernier_exec(t, '/');
    proof {
        lemme_dernier(t@, '/');
    }
    let debut_nom: usize = match barre {
        Some(p) => p + 1,
        None => 0,
    };
    let (_, nom_v) = t.split_at(debut_nom);
    assert(nom_v@ =~= t@.skip(debut_nom as int));
    if nom_v.len() == 2 && nom_v[0] == '.' && nom_v[1] == '.' {
        assert(nom_v@ =~= seq!['.', '.']);
        assert(nom_du_chemin(c@) =~= Seq::<char>::empty());
        return None;
    }
    assert(nom_v@ != seq!['.', '.']) by {
        if nom_v@ == seq!['.', '.'] {
            assert(nom_v@.len() == 2 && nom_v@[0] == '.' && nom_v@[1] == '.');
        }
    }
    let ghost nom = nom_du_chemin(c@);
    assert(nom_v@ == nom);
    let point = dernier_exec(nom_v, '.');
    match point {
        Some(p) if p > 0 => {
            proof {
                lemme_dernier(nom, '.');
                assert(c@.subrange(debut_nom + p + 1, fin as int) =~= nom.skip(p + 1));
            }
            Some((debut_nom + p + 1, fin))
        },
        _ => None,
    }
}

fn extension_parmi_exec(chemin: &str, mots: &[&[char]], ghost_mots: Ghost<Seq<Seq<char>>>) -> (r: bool)
    requires
        mots@.len() == ghost_mots@.len(),
        forall|k: int| 0 <= k < mots@.len() ==> (#[trigger] mots@[k])@ == ghost_mots@[k],
    ensures
        r == extension_parmi(chemin@, ghost_mots@),
{
    let c = en_caracteres(chemin);
    let bornes = debut_extension(&c);
    match bornes {
        None => false,
        Some((d, f)) => {
            let (t, _) = c.split_at(f);
            assert(t@.skip(d as int) =~= c@.subrange(d as int, f as int));
            let mut k: usize = 0;
            while k < mots.len()
                invariant
                    mots@.len() == ghost_mots@.len(),
                    forall|j: int| 0 <= j < mots@.len() ==> (#[trigger] mots@[j])@ == ghost_mots@[j],
                    k <= mots.len(),
                    d <= t.len(),
                    c@ == chemin@,
                    extension(nom_du_chemin(c@)) == Some(t@.skip(d as int)),
                    forall|j: int| 0 <= j < k ==> !egal_minuscules(t@.skip(d as int), #[trigger] ghost_mots@[j]),
                decreases mots.len() - k,
            {
                if egal_minuscules_exec(t, d, mots[k]) {
                    assert(mots@[k as int]@ == ghost_mots@[k as int]);
                    assert(egal_minuscules(t@.skip(d as int), ghost_mots@[k as int]));
                    return true;
                }
                k += 1;
            }
            false
        },
    }
}

/// Vrai si l'extension du chemin désigne un média : photo ou vidéo.
pub fn est_media(chemin: &str) -> (r: bool)
    ensures
        r == extension_parmi(chemin@, extensions_media()),
{
    let mots: [&[char]; 8] = [
        &['j', 'p', 'g'],
        &['j', 'p', 'e', 'g'],
        &['p', 'n', 'g'],
        &['h', 'e', 'i', 'c'],
        &['h', 'e', 'i', 'f'],
        &['m', 'p', '4'],
        &['m', 'o', 'v'],
        &['3', 'g', 'p'],
    ];
    extension_parmi_exec(chemin, &mots, Ghost(extensions_media()))
}

/// Vrai si l'extension du chemin désigne une vidéo.
pub fn est_video(chemin: &str) -> (r: bool)
    ensures
        r == extension_parmi(chemin@, extensions_video()),
{
    let mots: [&[char]; 3] = [&['m', 'p', '4'], &['m', 'o', 'v'], &['3', 'g', 'p']];
    extension_parmi_exec(chemin, &mots, Ghost(extensions_video()))
}


// ---------------------------------------------------------------------------
// Analyse d'un nom
// ---------------------------------------------------------------------------

/// Nom sans son extension : ce qui précède le dernier point, si ce n'est pas
/// vide.
pub open spec fn base_du_nom(nom: Seq<char>) -> Seq<char> {
    if dernier(nom, '.') > 0 {
        nom.take(dernier(nom, '.'))
    } else {
        nom
    }
}

/// Tout caractère hors `[A-Za-z0-9_-]` devient un tiret.
pub open spec fn caractere_normalise(c: char) -> char {
    if est_alphanumerique(c) || c == '_' || c == '-' {
        c
    } else {
        '-'
    }
}

pub open spec fn normaliser(s: Seq<char>) -> Seq<char> {
    s.map_values(|c: char| caractere_normalise(c))
}

pub open spec fn majuscules(s: Seq<char>) -> Seq<char> {
    s.map_values(|c: char| majuscule(c))
}

pub open spec fn present(u: Seq<char>, d: int, motif: Seq<char>) -> bool {
    0 <= d && d + motif.len() <= u.len() && u.subrange(d, d + motif.len()) == motif
}

/// Valeur des chiffres `u[d..f]`.
pub open spec fn nombre(u: Seq<char>, d: int, f: int) -> int {
    valeur_decimale(u.subrange(d, f))
}

/// Suffixe de variante à partir de `d` : `~2`, `-2` ou `_01`.
pub open spec fn variante(u: Seq<char>, d: int) -> Option<Seq<char>> {
    if 0 <= d < u.len() && (u[d] == '~' || u[d] == '_' || u[d] == '-') && que_des_chiffres(
        u.skip(d + 1),
    ) {
        Some(u.skip(d + 1))
    } else {
        None
    }
}

/// `AAAAMMJJHHMMSS` à partir de `d`, puis une éventuelle variante.
pub open spec fn lecture_compacte(u: Seq<char>, d: int) -> Option<
    (Option<DateHeure>, Option<Seq<char>>),
> {
    if 0 <= d && d + 14 <= u.len() && que_des_chiffres(u.subrange(d, d + 14)) {
        Some(
            (
                date_heure(
                    nombre(u, d, d + 4),
                    nombre(u, d + 4, d + 6),
                    nombre(u, d + 6, d + 8),
                    nombre(u, d + 8, d + 10),
                    nombre(u, d + 10, d + 12),
                    nombre(u, d + 12, d + 14),
                ),
                variante(u, d + 14),
            ),
        )
    } else {
        None
    }
}

/// `AAAAMMJJ_HHMMSS` à partir de `d`, puis une éventuelle variante.
pub open spec fn lecture_soulignee(u: Seq<char>, d: int) -> Option<
    (Option<DateHeure>, Option<Seq<char>>),
> {
    if 0 <= d && d + 15 <= u.len() && que_des_chiffres(u.subrange(d, d + 8)) && u[d + 8] == '_'
        && que_des_chiffres(u.subrange(d + 9, d + 15)) {
        Some(
            (
                date_heure(
                    nombre(u, d, d + 4),
                    nombre(u, d + 4, d + 6),
                    nombre(u, d + 6, d + 8),
                    nombre(u, d + 9, d + 11),
                    nombre(u, d + 11, d + 13),
                    nombre(u, d + 13, d + 15),
                ),
                variante(u, d + 15),
            ),
        )
    } else {
        None
    }
}

/// `IMG-AAAAMMJJ` : la journée de réception d'un fichier de messagerie, à
/// minuit faute d'heure.
pub open spec fn lecture_messagerie(u: Seq<char>) -> Option<DateHeure> {
    if present(u, 0, seq!['I', 'M', 'G', '-']) && 12 <= u.len() && que_des_chiffres(
        u.subrange(4, 12),
    ) {
        date_heure(nombre(u, 4, 8), nombre(u, 8, 10), nombre(u, 10, 12), 0, 0, 0)
    } else {
        None
    }
}

pub open spec fn prefixe_puis_chiffres(u: Seq<char>, p: Seq<char>) -> bool {
    present(u, 0, p) && que_des_chiffres(u.skip(p.len() as int))
}

pub open spec fn appareil_photo(u: Seq<char>) -> bool {
    ||| prefixe_puis_chiffres(u, seq!['D', 'S', 'C', 'N'])
    ||| prefixe_puis_chiffres(u, seq!['D', 'S', 'C', 'F'])
    ||| prefixe_puis_chiffres(u, seq!['_', 'D', 'S', 'C'])
    ||| prefixe_puis_chiffres(u, seq!['D', 'S', 'C', '_'])
    ||| prefixe_puis_chiffres(u, seq!['D', 'S', 'C'])
    ||| prefixe_puis_chiffres(u, seq!['P', 'I', 'C', 'T'])
}

pub open spec fn prefixe_telephone(u: Seq<char>) -> bool {
    present(u, 0, seq!['I', 'M', 'G']) || present(u, 0, seq!['V', 'I', 'D'])
}

/// Convention, horodatage et variante d'un nom de fichier : la première
/// convention reconnue, dans l'ordre où elles sont essayées.
pub open spec fn analyse(nom: Seq<char>) -> (Convention, Option<DateHeure>, Option<Seq<char>>) {
    let u = majuscules(base_du_nom(nom));
    if lecture_messagerie(u) is Some {
        (Convention::Messagerie, lecture_messagerie(u), None)
    } else if prefixe_telephone(u) && lecture_compacte(u, 3) is Some {
        (Convention::Telephone, lecture_compacte(u, 3).unwrap().0, lecture_compacte(u, 3).unwrap().1)
    } else if prefixe_telephone(u) && 3 < u.len() && u[3] == '_' && lecture_soulignee(u, 4) is Some {
        (Convention::Repartage, lecture_soulignee(u, 4).unwrap().0, lecture_soulignee(u, 4).unwrap().1)
    } else if present(u, 0, seq!['P', 'X', 'L', '_']) && lecture_soulignee(u, 4) is Some {
        (Convention::Repartage, lecture_soulignee(u, 4).unwrap().0, lecture_soulignee(u, 4).unwrap().1)
    } else if prefixe_puis_chiffres(u, seq!['G', 'O', 'P', 'R']) {
        (Convention::GoPro, None, None)
    } else if u.len() > 2 && u[0] == 'G' && 'A' <= u[1] <= 'Z' && que_des_chiffres(u.skip(2)) {
        (Convention::GoPro, None, None)
    } else if u.len() >= 7 && prefixe_puis_chiffres(u, seq!['P']) {
        (Convention::Compact, None, None)
    } else if appareil_photo(u) {
        (Convention::AppareilPhoto, None, None)
    } else {
        (Convention::Autre, None, None)
    }
}

pub open spec fn vue_option(o: Option<Vec<char>>) -> Option<Seq<char>> {
    match o {
        Some(v) => Some(v@),
        None => None,
    }
}

pub open spec fn vue_option_chaine(o: Option<String>) -> Option<Seq<char>> {
    match o {
        Some(v) => Some(v@),
        None => None,
    }
}

proof fn lemme_chiffres(u: Seq<char>, d: int, f: int)
    requires
        0 <= d <= f <= u.len(),
        que_des_chiffres(u.subrange(d, f)),
    ensures
        forall|k: int| d <= k < f ==> est_chiffre(#[trigger] u[k]),
{
    assert forall|k: int| d <= k < f implies est_chiffre(#[trigger] u[k]) by {
        assert(u.subrange(d, f)[k - d] == u[k]);
    }
}

fn present_exec(u: &[char], d: usize, motif: &[char]) -> (r: bool)
    ensures
        r == present(u@, d as int, motif@),
{
    if d > u.len() || motif.len() > u.len() - d {
        return false;
    }
    let mut i: usize = 0;
    while i < motif.len()
        invariant
            d + motif.len() <= u.len(),
            i <= motif.len(),
            forall|k: int| 0 <= k < i ==> u@[d + k] == motif@[k],
        decreases motif.len() - i,
    {
        if u[d + i] != motif[i] {
            assert(u@.subrange(d as int, d + motif.len())[i as int] == u@[d + i]);
            return false;
        }
        i += 1;
    }
    assert(u@.subrange(d as int, d + motif.len()) =~= motif@);
    true
}

fn suite(u: &[char], d: usize) -> (r: Vec<char>)
    requires
        d <= u.len(),
    ensures
        r@ == u@.skip(d as int),
{
    let mut r: Vec<char> = Vec::new();
    let mut i = d;
    while i < u.len()
        invariant
            d <= i <= u.len(),
            r@ == u@.subrange(d as int, i as int),
        decreases u.len() - i,
    {
        r.push(u[i]);
        i += 1;
    }
    assert(r@ =~= u@.skip(d as int));
    r
}

fn lire_variante(u: &[char], d: usize) -> (r: Option<Vec<char>>)
    ensures
        vue_option(r) == variante(u@, d as int),
{
    if d < u.len() && (u[d] == '~' || u[d] == '_' || u[d] == '-') {
        let reste = suite(u, d + 1);
        if que_des_chiffres_exec(&reste, 0, reste.len()) {
            assert(reste@.subrange(0, reste@.len() as int) =~= reste@);
            Some(reste)
        } else {
            assert(reste@.subrange(0, reste@.len() as int) =~= reste@);
            None
        }
    } else {
        None
    }
}

fn lire_compact(u: &[char], d: usize) -> (r: Option<(Option<DateHeure>, Option<Vec<char>>)>)
    ensures
        match lecture_compacte(u@, d as int) {
            Some((h, v)) => r matches Some((hr, vr)) && hr == h && vue_option(vr) == v,
            None => r is None,
        },
{
    if d > u.len() || 14 > u.len() - d || !que_des_chiffres_exec(u, d, d + 14) {
        return None;
    }
    proof {
        lemme_chiffres(u@, d as int, d + 14);
    }
    let h = date_heure_exec(
        valeur_exec(u, d, d + 4),
        valeur_exec(u, d + 4, d + 6),
        valeur_exec(u, d + 6, d + 8),
        valeur_exec(u, d + 8, d + 10),
        valeur_exec(u, d + 10, d + 12),
        valeur_exec(u, d + 12, d + 14),
    );
    Some((h, lire_variante(u, d + 14)))
}

fn lire_souligne(u: &[char], d: usize) -> (r: Option<(Option<DateHeure>, Option<Vec<char>>)>)
    ensures
        match lecture_soulignee(u@, d as int) {
            Some((h, v)) => r matches Some((hr, vr)) && hr == h && vue_option(vr) == v,
            None => r is None,
        },
{
    if d > u.len() || 15 > u.len() - d || !que_des_chiffres_exec(u, d, d + 8) || u[d + 8] != '_'
        || !que_des_chiffres_exec(u, d + 9, d + 15) {
        return None;
    }
    proof {
        lemme_chiffres(u@, d as int, d + 8);
        lemme_chiffres(u@, d + 9, d + 15);
    }
    let h = date_heure_exec(
        valeur_exec(u, d, d + 4),
        valeur_exec(u, d + 4, d + 6),
        valeur_exec(u, d + 6, d + 8),
        valeur_exec(u, d + 9, d + 11),
        valeur_exec(u, d + 11, d + 13),
        valeur_exec(u, d + 13, d + 15),
    );
    Some((h, lire_variante(u, d + 15)))
}

fn lire_messagerie(u: &[char]) -> (r: Option<DateHeure>)
    ensures
        r == lecture_messagerie(u@),
{
    if !present_exec(u, 0, &['I', 'M', 'G', '-']) || u.len() < 12 || !que_des_chiffres_exec(
        u,
        4,
        12,
    ) {
        return None;
    }
    proof {
        lemme_chiffres(u@, 4, 12);
    }
    date_heure_exec(valeur_exec(u, 4, 8), valeur_exec(u, 8, 10), valeur_exec(u, 10, 12), 0, 0, 0)
}

fn prefixe_puis_chiffres_exec(u: &[char], p: &[char]) -> (r: bool)
    ensures
        r == prefixe_puis_chiffres(u@, p@),
{
    if !present_exec(u, 0, p) {
        return false;
    }
    let r = que_des_chiffres_exec(u, p.len(), u.len());
    assert(u@.subrange(p.len() as int, u.len() as int) =~= u@.skip(p.len() as int));
    r
}

/// `GX010123`, `GH010123` : GoPro chapitrée, deux lettres puis des chiffres.
fn gopro_chapitre(u: &[char]) -> (r: bool)
    ensures
        r == (u@.len() > 2 && u@[0] == 'G' && 'A' <= u@[1] <= 'Z' && que_des_chiffres(u@.skip(2))),
{
    if u.len() > 2 && u[0] == 'G' && 'A' <= u[1] && u[1] <= 'Z' {
        let r = que_des_chiffres_exec(u, 2, u.len());
        assert(u@.subrange(2, u@.len() as int) =~= u@.skip(2));
        r
    } else {
        false
    }
}

/// Analyse le nom d'un fichier média.
pub fn analyser(nom_fichier: &str) -> (r: NomAnalyse)
    ensures
        r.identifiant@ == normaliser(base_du_nom(nom_fichier@)),
        r.normalise == (r.identifiant@ != base_du_nom(nom_fichier@)),
        r.convention == analyse(nom_fichier@).0,
        r.horodatage == analyse(nom_fichier@).1,
        vue_option_chaine(r.variante) == analyse(nom_fichier@).2,
        r.horodatage matches Some(h) ==> h.valide(),
{
    let n = en_caracteres(nom_fichier);
    let ghost nom = nom_fichier@;
    let fin: usize = match dernier_exec(&n, '.') {
        Some(p) if p > 0 => p,
        _ => n.len(),
    };
    proof {
        lemme_dernier(nom, '.');
    }
    let ghost base = base_du_nom(nom);
    assert(base =~= n@.subrange(0, fin as int));

    // Identifiant et majuscules, en une passe.
    let mut ident: Vec<char> = Vec::new();
    let mut u: Vec<char> = Vec::new();
    let mut change = false;
    let mut i: usize = 0;
    while i < fin
        invariant
            fin <= n.len(),
            n@ == nom,
            base == n@.subrange(0, fin as int),
            i <= fin,
            ident@ == normaliser(base).subrange(0, i as int),
            u@ == majuscules(base).subrange(0, i as int),
            change == exists|k: int| 0 <= k < i && caractere_normalise(#[trigger] base[k]) != base[k],
        decreases fin - i,
    {
        let c = n[i];
        assert(base[i as int] == c);
        let ghost i0 = i as int;
        let nc = if est_alphanumerique_exec(c) || c == '_' || c == '-' {
            c
        } else {
            '-'
        };
        if nc != c {
            change = true;
            assert(caractere_normalise(base[i0]) != base[i0]);
        }
        ident.push(nc);
        u.push(majuscule_exec(c));
        i += 1;
        assert(ident@ =~= normaliser(base).subrange(0, i as int));
        assert(u@ =~= majuscules(base).subrange(0, i as int));
    }
    assert(ident@ =~= normaliser(base));
    assert(u@ =~= majuscules(base));
    proof {
        if change {
            let k = choose|k: int| 0 <= k < fin && caractere_normalise(#[trigger] base[k]) != base[k];
            assert(ident@[k] != base[k]);
        } else {
            assert(ident@ =~= base);
        }
    }
    let identifiant = en_chaine(&ident);

    let p_img: [char; 3] = ['I', 'M', 'G'];
    assert(p_img@ =~= seq!['I', 'M', 'G']);
    let p_vid: [char; 3] = ['V', 'I', 'D'];
    assert(p_vid@ =~= seq!['V', 'I', 'D']);
    let p_pxl: [char; 4] = ['P', 'X', 'L', '_'];
    assert(p_pxl@ =~= seq!['P', 'X', 'L', '_']);
    let p_gopr: [char; 4] = ['G', 'O', 'P', 'R'];
    assert(p_gopr@ =~= seq!['G', 'O', 'P', 'R']);
    let p_p: [char; 1] = ['P'];
    assert(p_p@ =~= seq!['P']);
    let p_dscn: [char; 4] = ['D', 'S', 'C', 'N'];
    assert(p_dscn@ =~= seq!['D', 'S', 'C', 'N']);
    let p_dscf: [char; 4] = ['D', 'S', 'C', 'F'];
    assert(p_dscf@ =~= seq!['D', 'S', 'C', 'F']);
    let p_sdsc: [char; 4] = ['_', 'D', 'S', 'C'];
    assert(p_sdsc@ =~= seq!['_', 'D', 'S', 'C']);
    let p_dsc_s: [char; 4] = ['D', 'S', 'C', '_'];
    assert(p_dsc_s@ =~= seq!['D', 'S', 'C', '_']);
    let p_dsc: [char; 3] = ['D', 'S', 'C'];
    assert(p_dsc@ =~= seq!['D', 'S', 'C']);
    let p_pict: [char; 4] = ['P', 'I', 'C', 'T'];
    assert(p_pict@ =~= seq!['P', 'I', 'C', 'T']);
    let mut convention = Convention::Autre;
    let mut horo: Option<DateHeure> = None;
    let mut variante_lue: Option<Vec<char>> = None;

    let m = lire_messagerie(&u);
    if m.is_some() {
        convention = Convention::Messagerie;
        horo = m;
    } else {
        let tel = present_exec(&u, 0, &p_img) || present_exec(&u, 0, &p_vid);
        let compact = if tel {
            lire_compact(&u, 3)
        } else {
            None
        };
        let souligne_tel = if tel && compact.is_none() && u.len() > 3 && u[3] == '_' {
            lire_souligne(&u, 4)
        } else {
            None
        };
        let pxl = if present_exec(&u, 0, &p_pxl) {
            lire_souligne(&u, 4)
        } else {
            None
        };
        if let Some((h, v)) = compact {
            convention = Convention::Telephone;
            horo = h;
            variante_lue = v;
        } else if let Some((h, v)) = souligne_tel {
            convention = Convention::Repartage;
            horo = h;
            variante_lue = v;
        } else if let Some((h, v)) = pxl {
            convention = Convention::Repartage;
            horo = h;
            variante_lue = v;
        } else if prefixe_puis_chiffres_exec(&u, &p_gopr) {
            convention = Convention::GoPro;
        } else if gopro_chapitre(&u) {
            convention = Convention::GoPro;
        } else if u.len() >= 7 && prefixe_puis_chiffres_exec(&u, &p_p) {
            convention = Convention::Compact;
        } else if prefixe_puis_chiffres_exec(&u, &p_dscn)
            || prefixe_puis_chiffres_exec(&u, &p_dscf)
            || prefixe_puis_chiffres_exec(&u, &p_sdsc)
            || prefixe_puis_chiffres_exec(&u, &p_dsc_s)
            || prefixe_puis_chiffres_exec(&u, &p_dsc)
            || prefixe_puis_chiffres_exec(&u, &p_pict) {
            convention = Convention::AppareilPhoto;
        }
    }
    let variante = match variante_lue {
        Some(v) => Some(en_chaine(&v)),
        None => None,
    };
    NomAnalyse { identifiant, convention, variante, horodatage: horo, normalise: change }
}


// ---------------------------------------------------------------------------
// Collisions
// ---------------------------------------------------------------------------

/// Deux fichiers distincts, ou plus, qui produiraient le même identifiant.
#[derive(Debug, Clone)]
pub struct Collision {
    pub identifiant: String,
    pub fichiers: Vec<String>,
}

pub open spec fn vues(v: Seq<String>) -> Seq<Seq<char>> {
    v.map_values(|s: String| s@)
}

/// Chemins des entrées qui portent l'identifiant `id`, dans leur ordre.
pub open spec fn chemins_de(e: Seq<(String, String)>, id: Seq<char>) -> Seq<Seq<char>>
    decreases e.len(),
{
    if e.len() == 0 {
        seq![]
    } else {
        let r = chemins_de(e.drop_last(), id);
        if e.last().0@ == id {
            r.push(e.last().1@)
        } else {
            r
        }
    }
}

proof fn lemme_chemins_prefixe(e: Seq<(String, String)>, i: int, id: Seq<char>)
    requires
        0 <= i < e.len(),
    ensures
        chemins_de(e.take(i + 1), id) == (if e[i].0@ == id {
            chemins_de(e.take(i), id).push(e[i].1@)
        } else {
            chemins_de(e.take(i), id)
        }),
{
    assert(e.take(i + 1).drop_last() =~= e.take(i));
}

proof fn lemme_chemins_present(e: Seq<(String, String)>, i: int)
    requires
        0 <= i < e.len(),
    ensures
        chemins_de(e, e[i].0@).len() >= 1,
    decreases e.len(),
{
    if i < e.len() - 1 {
        lemme_chemins_present(e.drop_last(), i);
    }
}

/// Nombre d'entrées qui portent l'identifiant `x`.
fn compter(entrees: &[(String, String)], x: &String) -> (r: usize)
    ensures
        r == chemins_de(entrees@, x@).len(),
{
    let mut n: usize = 0;
    let mut i: usize = 0;
    while i < entrees.len()
        invariant
            i <= entrees.len(),
            n == chemins_de(entrees@.take(i as int), x@).len(),
            n <= i,
        decreases entrees.len() - i,
    {
        proof {
            lemme_chemins_prefixe(entrees@, i as int, x@);
        }
        if entrees[i].0 == *x {
            n += 1;
        }
        i += 1;
    }
    assert(entrees@.take(entrees.len() as int) =~= entrees@);
    n
}

/// Chemins des entrées qui portent l'identifiant `x`.
fn chemins(entrees: &[(String, String)], x: &String) -> (r: Vec<String>)
    ensures
        vues(r@) == chemins_de(entrees@, x@),
{
    let mut r: Vec<String> = Vec::new();
    let mut i: usize = 0;
    while i < entrees.len()
        invariant
            i <= entrees.len(),
            vues(r@) == chemins_de(entrees@.take(i as int), x@),
        decreases entrees.len() - i,
    {
        proof {
            lemme_chemins_prefixe(entrees@, i as int, x@);
        }
        if entrees[i].0 == *x {
            r.push(entrees[i].1.clone());
            assert(vues(r@) =~= chemins_de(entrees@.take(i as int), x@).push(entrees@[i as int].1@));
        }
        i += 1;
    }
    assert(entrees@.take(entrees.len() as int) =~= entrees@);
    r
}

pub open spec fn strictement_croissants(v: Seq<Seq<char>>) -> bool {
    forall|i: int, j: int| 0 <= i < j < v.len() ==> crate::ordre::lex_inf(#[trigger] v[i], #[trigger] v[j])
}

/// Insère `x` à sa place dans une suite strictement croissante, s'il n'y est pas.
pub(crate) fn inserer_trie(ids: &mut Vec<String>, x: String)
    requires
        strictement_croissants(vues(old(ids)@)),
    ensures
        strictement_croissants(vues(final(ids)@)),
        forall|k: int| 0 <= k < final(ids)@.len() ==> (#[trigger] final(ids)@[k])@ == x@ || exists|j: int|
            0 <= j < old(ids)@.len() && old(ids)@[j]@ == final(ids)@[k]@,
        exists|k: int| 0 <= k < final(ids)@.len() && (#[trigger] final(ids)@[k])@ == x@,
        forall|j: int| 0 <= j < old(ids)@.len() ==> exists|k: int|
            0 <= k < final(ids)@.len() && (#[trigger] final(ids)@[k])@ == (#[trigger] old(ids)@[j])@,
{
    let ghost avant = ids@;
    let mut p: usize = 0;
    while p < ids.len() && crate::ordre::lex_inf_exec(ids[p].as_str(), x.as_str())
        invariant
            ids@ == avant,
            p <= ids.len(),
            forall|k: int| 0 <= k < p ==> crate::ordre::lex_inf(#[trigger] ids@[k]@, x@),
        decreases ids.len() - p,
    {
        p += 1;
    }
    if p < ids.len() && ids[p] == x {
        assert(ids@[p as int]@ == x@);
        assert forall|j: int| 0 <= j < avant.len() implies exists|k: int|
            0 <= k < ids@.len() && (#[trigger] ids@[k])@ == (#[trigger] avant[j])@ by {
            assert(ids@[j]@ == avant[j]@);
        }
        return;
    }
    proof {
        if p < ids.len() {
            crate::ordre::lemme_trichotomie(ids@[p as int]@, x@);
            assert(crate::ordre::lex_inf(x@, ids@[p as int]@));
            assert forall|k: int| p < k < ids@.len() implies crate::ordre::lex_inf(x@, #[trigger] ids@[k]@) by {
                assert(crate::ordre::lex_inf(vues(avant)[p as int], vues(avant)[k]));
                crate::ordre::lemme_transitif(x@, ids@[p as int]@, ids@[k]@);
            }
        }
    }
    ids.insert(p, x);
    proof {
        assert forall|i: int, j: int| 0 <= i < j < ids@.len() implies crate::ordre::lex_inf(
            #[trigger] vues(ids@)[i],
            #[trigger] vues(ids@)[j],
        ) by {
            if j < p {
                assert(crate::ordre::lex_inf(vues(avant)[i], vues(avant)[j]));
            } else if j == p {
            } else if i < p {
                assert(crate::ordre::lex_inf(vues(avant)[i], vues(avant)[j - 1]));
            } else if i == p {
            } else {
                assert(crate::ordre::lex_inf(vues(avant)[i - 1], vues(avant)[j - 1]));
            }
        }
        assert(ids@[p as int]@ == x@);
        assert forall|k: int| 0 <= k < ids@.len() implies (#[trigger] ids@[k])@ == x@ || exists|j: int|
            0 <= j < avant.len() && avant[j]@ == ids@[k]@ by {
            if k < p {
                assert(avant[k]@ == ids@[k]@);
            } else if k > p {
                assert(avant[k - 1]@ == ids@[k]@);
            }
        }
        assert forall|j: int| 0 <= j < avant.len() implies exists|k: int|
            0 <= k < ids@.len() && (#[trigger] ids@[k])@ == (#[trigger] avant[j])@ by {
            if j < p {
                assert(ids@[j]@ == avant[j]@);
            } else {
                assert(ids@[j + 1]@ == avant[j]@);
            }
        }
    }
}

/// `c` est la liste des collisions de `entrees` : chaque identifiant porté
/// par plus d'un fichier, une fois, dans l'ordre des identifiants, avec ses
/// fichiers dans leur ordre.
pub open spec fn collisions_de(c: Seq<Collision>, entrees: Seq<(String, String)>) -> bool {
    &&& forall|k: int| #![trigger c[k]] 0 <= k < c.len() ==> {
        &&& vues(c[k].fichiers@) == chemins_de(entrees, c[k].identifiant@)
        &&& c[k].fichiers@.len() > 1
    }
    &&& forall|i: int, j: int| 0 <= i < j < c.len() ==> crate::ordre::lex_inf(
        (#[trigger] c[i]).identifiant@,
        (#[trigger] c[j]).identifiant@,
    )
    &&& forall|e: int| 0 <= e < entrees.len() && chemins_de(entrees, (#[trigger] entrees[e]).0@).len() > 1
        ==> exists|k: int| 0 <= k < c.len() && (#[trigger] c[k]).identifiant@ == entrees[e].0@
}

/// Deux entrées distinctes au même identifiant font une collision.
pub proof fn lemme_deux_entrees(e: Seq<(String, String)>, i: int, j: int)
    requires
        0 <= i < j < e.len(),
        e[i].0@ == e[j].0@,
    ensures
        chemins_de(e, e[i].0@).len() > 1,
    decreases e.len(),
{
    if j < e.len() - 1 {
        lemme_deux_entrees(e.drop_last(), i, j);
    } else {
        lemme_chemins_present(e.drop_last(), i);
    }
}

/// Une collision vient toujours de deux entrées distinctes.
pub proof fn lemme_collision_a_deux_entrees(e: Seq<(String, String)>, id: Seq<char>)
    requires
        chemins_de(e, id).len() > 1,
    ensures
        exists|i: int, j: int| 0 <= i < j < e.len() && e[i].0@ == id && e[j].0@ == id,
    decreases e.len(),
{
    let r = chemins_de(e.drop_last(), id);
    if e.last().0@ == id && r.len() == 1 {
        lemme_une_entree(e.drop_last(), id);
        let i = choose|i: int| 0 <= i < e.len() - 1 && e.drop_last()[i].0@ == id;
        assert(e[i].0@ == id && e[e.len() - 1].0@ == id);
    } else {
        lemme_collision_a_deux_entrees(e.drop_last(), id);
        let (i, j) = choose|i: int, j: int| 0 <= i < j < e.len() - 1 && e.drop_last()[i].0@ == id && e.drop_last()[j].0@ == id;
        assert(e[i].0@ == id && e[j].0@ == id);
    }
}

proof fn lemme_une_entree(e: Seq<(String, String)>, id: Seq<char>)
    requires
        chemins_de(e, id).len() > 0,
    ensures
        exists|i: int| 0 <= i < e.len() && e[i].0@ == id,
    decreases e.len(),
{
    if e.last().0@ != id {
        lemme_une_entree(e.drop_last(), id);
        let i = choose|i: int| 0 <= i < e.len() - 1 && e.drop_last()[i].0@ == id;
        assert(e[i].0@ == id);
    }
}

/// Regroupe les fichiers par identifiant et renvoie, dans l'ordre des
/// identifiants, les groupes de plus d'un fichier.
///
/// Une collision n'est jamais arbitrée automatiquement : elle fait échouer
/// l'inventaire.
pub fn detecter_collisions(entrees: &[(String, String)]) -> (r: Vec<Collision>)
    ensures
        collisions_de(r@, entrees@),
{
    let mut ids: Vec<String> = Vec::new();
    let mut i: usize = 0;
    while i < entrees.len()
        invariant
            i <= entrees.len(),
            strictement_croissants(vues(ids@)),
            forall|k: int| 0 <= k < ids@.len() ==> chemins_de(entrees@, (#[trigger] ids@[k])@).len() > 1,
            forall|e: int| 0 <= e < i && chemins_de(entrees@, (#[trigger] entrees@[e]).0@).len() > 1
                ==> exists|k: int| 0 <= k < ids@.len() && (#[trigger] ids@[k])@ == entrees@[e].0@,
        decreases entrees.len() - i,
    {
        if compter(entrees, &entrees[i].0) > 1 {
            let ghost avant = ids@;
            inserer_trie(&mut ids, entrees[i].0.clone());
            assert forall|e: int| 0 <= e < i + 1 && chemins_de(entrees@, (#[trigger] entrees@[e]).0@).len() > 1
                implies exists|k: int| 0 <= k < ids@.len() && (#[trigger] ids@[k])@ == entrees@[e].0@ by {
                if e < i {
                    let k0 = choose|k: int| 0 <= k < avant.len() && (#[trigger] avant[k])@ == entrees@[e].0@;
                    assert(avant[k0]@ == entrees@[e].0@);
                }
            }
            assert forall|k: int| 0 <= k < ids@.len() implies chemins_de(entrees@, (#[trigger] ids@[k])@).len() > 1 by {
                if ids@[k]@ != entrees@[i as int].0@ {
                    let j0 = choose|j: int| 0 <= j < avant.len() && avant[j]@ == ids@[k]@;
                    assert(chemins_de(entrees@, avant[j0]@).len() > 1);
                }
            }
        }
        i += 1;
    }

    let mut r: Vec<Collision> = Vec::new();
    let mut k: usize = 0;
    while k < ids.len()
        invariant
            k <= ids.len(),
            r@.len() == k,
            strictement_croissants(vues(ids@)),
            forall|j: int| 0 <= j < ids@.len() ==> chemins_de(entrees@, (#[trigger] ids@[j])@).len() > 1,
            forall|j: int| #![trigger r@[j]] 0 <= j < k ==> {
                &&& r@[j].identifiant@ == ids@[j]@
                &&& vues(r@[j].fichiers@) == chemins_de(entrees@, ids@[j]@)
            },
        decreases ids.len() - k,
    {
        let fichiers = chemins(entrees, &ids[k]);
        assert(chemins_de(entrees@, ids@[k as int]@).len() > 1);
        r.push(Collision { identifiant: ids[k].clone(), fichiers });
        k += 1;
    }
    assert forall|a: int, b: int| 0 <= a < b < r@.len() implies crate::ordre::lex_inf(
        (#[trigger] r@[a]).identifiant@,
        (#[trigger] r@[b]).identifiant@,
    ) by {
        assert(crate::ordre::lex_inf(vues(ids@)[a], vues(ids@)[b]));
    }
    assert forall|k: int| #![trigger r@[k]] 0 <= k < r@.len() implies r@[k].fichiers@.len() > 1 by {
        assert(vues(r@[k].fichiers@).len() == r@[k].fichiers@.len());
        assert(chemins_de(entrees@, ids@[k]@).len() > 1);
    }
    assert forall|e: int| 0 <= e < entrees@.len() && chemins_de(entrees@, (#[trigger] entrees@[e]).0@).len() > 1
        implies exists|k: int| 0 <= k < r@.len() && (#[trigger] r@[k]).identifiant@ == entrees@[e].0@ by {
        let k0 = choose|k: int| 0 <= k < ids@.len() && (#[trigger] ids@[k])@ == entrees@[e].0@;
        assert(r@[k0].identifiant@ == entrees@[e].0@);
    }
    r
}

} // verus!
