//! Dérivés d'images : formats, réglages et leur empreinte, chemins,
//! dimensions, aperçu inline, cache de build.
//!
//! Le décodage, le redimensionnement et l'encodage des pixels se font au
//! bord ; ici se décide ce qui doit être produit, sous quel nom et à quelle
//! taille, et si un dérivé déjà produit reste bon.

use vstd::prelude::*;
use vstd::string::StringExecFns;

use crate::noms::vues;
use crate::ordre::lex_inf;
use crate::texte::{decimal, ecrire_decimal};

/// La production des dérivés d'une photo, des octets de sa source aux
/// fichiers à écrire.
pub use crate::pixels::produire;

verus! {

/// Largeur de la vignette.
pub const LARGEUR_VIGNETTE: u32 = 320;

/// Largeur du format moyen.
pub const LARGEUR_MOYENNE: u32 = 1024;

/// Largeur du grand format.
pub const LARGEUR_GRANDE: u32 = 2048;

/// Largeur du repli, le seul format de secours produit.
pub const LARGEUR_REPLI: u32 = 1024;

/// Largeur de l'aperçu inline : seize pixels donnent la couleur et la
/// composition, pour quelques centaines d'octets.
pub const LARGEUR_LQIP: u32 = 16;

/// Chemins des dérivés, relatifs à `media/<voyage>/`.
#[derive(Debug, Clone)]
pub struct Derives {
    pub vignette: String,
    pub moyen: String,
    pub grand: String,
    /// Filet de sécurité pour les appareils anciens, en JPEG.
    pub repli: String,
}

/// Format des dérivés.
#[derive(Debug, Clone, Copy, PartialEq, Eq, Structural)]
pub enum Format {
    /// Cible du projet.
    Avif,
    /// Valeur de repli sur une machine sans AVX2.
    Jpeg,
}

pub open spec fn extension_spec(f: Format) -> Seq<char> {
    match f {
        Format::Avif => "avif"@,
        Format::Jpeg => "jpg"@,
    }
}

/// `char::to_ascii_lowercase` : seules les majuscules ASCII changent.
pub open spec fn minuscule_ascii(c: char) -> char {
    if 'A' <= c <= 'Z' {
        ((c as u32) + 32) as char
    } else {
        c
    }
}

pub open spec fn minuscules_ascii(s: Seq<char>) -> Seq<char> {
    s.map_values(|c: char| minuscule_ascii(c))
}

impl Format {
    pub fn extension(self) -> (r: &'static str)
        ensures
            r@ == extension_spec(self),
    {
        match self {
            Format::Avif => "avif",
            Format::Jpeg => "jpg",
        }
    }

    /// Le format nommé, sans distinction de casse ASCII : `avif`, ou `jpeg`
    /// et `jpg`.
    pub fn depuis_nom(nom: &str) -> (r: Option<Format>)
        ensures
            r == (if minuscules_ascii(nom@) == "avif"@ {
                Some(Format::Avif)
            } else if minuscules_ascii(nom@) == "jpeg"@ || minuscules_ascii(nom@) == "jpg"@ {
                Some(Format::Jpeg)
            } else {
                None
            }),
    {
        let c = crate::texte::en_caracteres(nom);
        let mut v: Vec<char> = Vec::new();
        let mut i: usize = 0;
        while i < c.len()
            invariant
                i <= c.len(),
                c@ == nom@,
                v@ == minuscules_ascii(nom@).take(i as int),
            decreases c.len() - i,
        {
            let x = c[i];
            let y = if 'A' <= x && x <= 'Z' {
                ((x as u32) + 32) as u8 as char
            } else {
                x
            };
            assert(y == minuscule_ascii(x)) by {
                if 'A' <= x && x <= 'Z' {
                    assert(((x as u32) + 32) as u8 as char == ((x as u32) + 32) as char);
                }
            }
            v.push(y);
            i += 1;
            assert(v@ =~= minuscules_ascii(nom@).take(i as int));
        }
        assert(v@ =~= minuscules_ascii(nom@));
        let m = crate::texte::en_chaine(&v);
        if crate::texte::egales(m.as_str(), "avif") {
            Some(Format::Avif)
        } else if crate::texte::egales(m.as_str(), "jpeg") || crate::texte::egales(m.as_str(), "jpg") {
            Some(Format::Jpeg)
        } else {
            None
        }
    }
}

// ---------------------------------------------------------------------------
// Réglages et empreinte
// ---------------------------------------------------------------------------

/// Paramètres d'encodage. Leur empreinte entre dans le cache de build : un
/// changement de qualité invalide les dérivés existants.
#[derive(Debug, Clone, Copy, PartialEq, Eq, Structural)]
pub struct Reglages {
    pub format: Format,
    /// Qualité, de 1 à 100.
    pub qualite: u8,
    /// Vitesse d'encodage AVIF, de 1 (lent et dense) à 10 (rapide).
    pub vitesse_avif: u8,
}

impl Default for Reglages {
    fn default() -> (r: Reglages)
        ensures
            r == (Reglages { format: Format::Avif, qualite: 72, vitesse_avif: 6 }),
    {
        Reglages { format: Format::Avif, qualite: 72, vitesse_avif: 6 }
    }
}

/// L'empreinte des réglages : version, extension, qualité, vitesse, largeurs
/// produites et largeur du repli, séparées par des barres.
pub open spec fn empreinte_spec(r: Reglages) -> Seq<char> {
    "v2|"@ + extension_spec(r.format) + "|q"@ + decimal(r.qualite as nat) + "|s"@ + decimal(r.vitesse_avif as nat)
        + "|320x1024x2048|repli1024"@
}

impl Reglages {
    /// Empreinte des paramètres, pour le cache de build.
    pub fn empreinte(&self) -> (r: String)
        ensures
            r@ == empreinte_spec(*self),
    {
        let mut r = String::from_str("v2|");
        r.append(self.format.extension());
        r.append("|q");
        let x = ecrire_decimal(self.qualite as u64);
        r.append(x.as_str());
        r.append("|s");
        let x = ecrire_decimal(self.vitesse_avif as u64);
        r.append(x.as_str());
        r.append("|320x1024x2048|repli1024");
        r
    }
}


proof fn lemme_decimal(n: nat)
    ensures
        decimal(n).len() >= 1,
        forall|i: int| 0 <= i < decimal(n).len() ==> #[trigger] decimal(n)[i] != '|',
        n >= 10 ==> decimal(n).len() >= 2,
    decreases n,
{
    if n >= 10 {
        lemme_decimal(n / 10);
        assert forall|i: int| 0 <= i < decimal(n).len() implies #[trigger] decimal(n)[i] != '|' by {
            if i < decimal(n / 10).len() {
                assert(decimal(n)[i] == decimal(n / 10)[i]);
            }
        }
    }
}

proof fn lemme_chiffre(x: int, y: int)
    requires
        0 <= x < 10,
        0 <= y < 10,
        crate::texte::chiffre(x) == crate::texte::chiffre(y),
    ensures
        x == y,
{
}

proof fn lemme_decimal_injectif(n: nat, m: nat)
    requires
        decimal(n) == decimal(m),
    ensures
        n == m,
    decreases n,
{
    lemme_decimal(n);
    lemme_decimal(m);
    if n < 10 && m < 10 {
        assert(decimal(n) == seq![crate::texte::chiffre(n as int)]);
        assert(decimal(m) == seq![crate::texte::chiffre(m as int)]);
        assert(decimal(n)[0] == decimal(m)[0]);
        assert(decimal(n)[0] == crate::texte::chiffre(n as int));
        assert(decimal(m)[0] == crate::texte::chiffre(m as int));
        lemme_chiffre(n as int, m as int);
    } else if n < 10 || m < 10 {
        assert(decimal(n).len() != decimal(m).len());
    } else {
        assert(decimal(n) == decimal(n / 10).push(crate::texte::chiffre((n % 10) as int)));
        assert(decimal(m) == decimal(m / 10).push(crate::texte::chiffre((m % 10) as int)));
        assert(decimal(n).last() == decimal(m).last());
        assert(decimal(n).last() == crate::texte::chiffre((n % 10) as int));
        assert(decimal(m).last() == crate::texte::chiffre((m % 10) as int));
        assert(decimal(n).drop_last() =~= decimal(n / 10));
        assert(decimal(m).drop_last() =~= decimal(m / 10));
        lemme_decimal_injectif(n / 10, m / 10);
        lemme_chiffre((n % 10) as int, (m % 10) as int);
        assert(n % 10 == m % 10);
    }
}

/// Deux découpages d'une même chaîne avant une barre, sans barre dans la
/// partie gauche, coïncident.
proof fn lemme_separer(a: Seq<char>, b: Seq<char>, c: Seq<char>, d: Seq<char>)
    requires
        a + b == c + d,
        forall|i: int| 0 <= i < a.len() ==> a[i] != '|',
        forall|i: int| 0 <= i < c.len() ==> c[i] != '|',
        b.len() > 0 && b[0] == '|',
        d.len() > 0 && d[0] == '|',
    ensures
        a == c,
        b == d,
{
    if a.len() < c.len() {
        assert((a + b)[a.len() as int] == b[0]);
        assert((c + d)[a.len() as int] == c[a.len() as int]);
    }
    if c.len() < a.len() {
        assert((c + d)[c.len() as int] == d[0]);
        assert((a + b)[c.len() as int] == a[c.len() as int]);
    }
    assert(a =~= (a + b).take(a.len() as int));
    assert(c =~= (c + d).take(c.len() as int));
    assert(b =~= (a + b).skip(a.len() as int));
    assert(d =~= (c + d).skip(c.len() as int));
}

/// Deux réglages différents ne produisent jamais la même empreinte : un
/// changement de format, de qualité ou de vitesse invalide le cache.
#[verifier::spinoff_prover]
#[verifier::rlimit(40)]
pub proof fn loi_empreinte_injective(a: Reglages, b: Reglages)
    requires
        empreinte_spec(a) == empreinte_spec(b),
    ensures
        a == b,
{
    reveal_strlit("v2|");
    reveal_strlit("avif");
    reveal_strlit("jpg");
    reveal_strlit("|q");
    reveal_strlit("|s");
    reveal_strlit("|320x1024x2048|repli1024");
    let ea = empreinte_spec(a);
    let eb = empreinte_spec(b);
    let xa = extension_spec(a.format);
    let xb = extension_spec(b.format);
    let qa = decimal(a.qualite as nat);
    let qb = decimal(b.qualite as nat);
    let sa = decimal(a.vitesse_avif as nat);
    let sb = decimal(b.vitesse_avif as nat);
    let fin = "|320x1024x2048|repli1024"@;
    // Le format se lit au quatrième caractère.
    assert(ea[3] == xa[0]);
    assert(eb[3] == xb[0]);
    assert(a.format == b.format);
    let tete = "v2|"@ + xa + "|q"@;
    assert(ea =~= tete + (qa + ("|s"@ + sa + fin)));
    assert(eb =~= tete + (qb + ("|s"@ + sb + fin)));
    assert(qa + ("|s"@ + sa + fin) =~= ea.skip(tete.len() as int));
    assert(qb + ("|s"@ + sb + fin) =~= eb.skip(tete.len() as int));
    lemme_decimal(a.qualite as nat);
    lemme_decimal(b.qualite as nat);
    lemme_separer(qa, "|s"@ + sa + fin, qb, "|s"@ + sb + fin);
    lemme_decimal_injectif(a.qualite as nat, b.qualite as nat);
    assert(sa + fin =~= ("|s"@ + sa + fin).skip(2));
    assert(sb + fin =~= ("|s"@ + sb + fin).skip(2));
    lemme_decimal(a.vitesse_avif as nat);
    lemme_decimal(b.vitesse_avif as nat);
    lemme_separer(sa, fin, sb, fin);
    lemme_decimal_injectif(a.vitesse_avif as nat, b.vitesse_avif as nat);
}


/// Deux réglages ont la même empreinte si et seulement s'ils ont le même
/// format, la même qualité et la même vitesse : le cache distingue chaque
/// changement de réglage, et seulement ceux-là.
pub proof fn loi_empreinte(a: Reglages, b: Reglages)
    ensures
        empreinte_spec(a) == empreinte_spec(b) <==> (a.format == b.format && a.qualite == b.qualite && a.vitesse_avif
            == b.vitesse_avif),
{
    if empreinte_spec(a) == empreinte_spec(b) {
        loi_empreinte_injective(a, b);
    }
}

// ---------------------------------------------------------------------------
// Base64 et aperçu inline
// ---------------------------------------------------------------------------

/// Le caractère de rang `i` de l'alphabet base64 standard.
pub open spec fn alphabet(i: int) -> char {
    if i < 26 {
        (65 + i) as char
    } else if i < 52 {
        (97 + i - 26) as char
    } else if i < 62 {
        (48 + i - 52) as char
    } else if i == 62 {
        '+'
    } else {
        '/'
    }
}

/// Les quatre caractères d'un groupe de `n` octets `a`, `b`, `c` (les
/// absents valant zéro), complétés par `=`.
pub open spec fn groupe(a: int, b: int, c: int, n: int) -> Seq<char> {
    seq![
        alphabet(a / 4),
        alphabet((a % 4) * 16 + b / 16),
        if n > 1 { alphabet((b % 16) * 4 + c / 64) } else { '=' },
        if n > 2 { alphabet(c % 64) } else { '=' },
    ]
}

/// L'encodage base64 standard : chaque groupe de trois octets donne quatre
/// caractères de six bits ; un groupe final incomplet est complété par `=`.
pub open spec fn base64_spec(s: Seq<u8>) -> Seq<char>
    decreases s.len(),
{
    if s.len() == 0 {
        seq![]
    } else if s.len() == 1 {
        groupe(s[0] as int, 0, 0, 1)
    } else if s.len() == 2 {
        groupe(s[0] as int, s[1] as int, 0, 2)
    } else {
        groupe(s[0] as int, s[1] as int, s[2] as int, 3) + base64_spec(s.skip(3))
    }
}

fn alphabet_exec(i: u8) -> (r: char)
    requires
        i < 64,
    ensures
        r == alphabet(i as int),
{
    if i < 26 {
        (65 + i) as char
    } else if i < 52 {
        (97 + i - 26) as char
    } else if i < 62 {
        (48 + i - 52) as char
    } else if i == 62 {
        '+'
    } else {
        '/'
    }
}

/// Encodage base64 standard.
pub fn base64(octets: &[u8]) -> (r: String)
    ensures
        r@ == base64_spec(octets@),
{
    let mut v: Vec<char> = Vec::new();
    let mut i: usize = 0;
    let n = octets.len();
    assert(octets@.skip(0) =~= octets@);
    while i < n
        invariant
            i <= n,
            n == octets@.len(),
            v@ + base64_spec(octets@.skip(i as int)) == base64_spec(octets@),
        decreases n - i,
    {
        let ghost reste = octets@.skip(i as int);
        let ghost avant = v@;
        let a = octets[i];
        let b = if n - i > 1 { octets[i + 1] } else { 0 };
        let c = if n - i > 2 { octets[i + 2] } else { 0 };
        let k: usize = if n - i > 2 { 3 } else { n - i };
        v.push(alphabet_exec(a / 4));
        v.push(alphabet_exec((a % 4) * 16 + b / 16));
        v.push(if k > 1 { alphabet_exec((b % 16) * 4 + c / 64) } else { '=' });
        v.push(if k > 2 { alphabet_exec(c % 64) } else { '=' });
        assert(v@ =~= avant + groupe(a as int, b as int, c as int, k as int));
        assert(reste.skip(k as int) =~= octets@.skip(i + k));
        if k < 3 {
            assert(octets@.skip(i + k) =~= Seq::<u8>::empty());
        }
        assert(base64_spec(reste) == groupe(a as int, b as int, c as int, k as int) + base64_spec(octets@.skip(i + k)));
        assert(v@ + base64_spec(octets@.skip(i + k)) =~= base64_spec(octets@));
        i = i + k;
    }
    assert(octets@.skip(n as int) =~= Seq::<u8>::empty());
    assert(v@ =~= base64_spec(octets@));
    crate::texte::en_chaine(&v)
}

/// Quatre caractères pour chaque groupe de trois octets, le dernier groupe
/// compris même incomplet.
pub proof fn loi_base64_longueur(s: Seq<u8>)
    ensures
        base64_spec(s).len() == 4 * ((s.len() + 2) / 3),
    decreases s.len(),
{
    if s.len() > 2 {
        loi_base64_longueur(s.skip(3));
    }
}

/// Un caractère de l'alphabet base64 standard.
pub open spec fn dans_l_alphabet(c: char) -> bool {
    ('A' <= c && c <= 'Z') || ('a' <= c && c <= 'z') || ('0' <= c && c <= '9') || c == '+' || c == '/'
}

/// Le rang d'un caractère dans l'alphabet base64 standard.
pub open spec fn rang_base64(c: char) -> int {
    if 'A' <= c && c <= 'Z' {
        c as int - 65
    } else if 'a' <= c && c <= 'z' {
        c as int - 71
    } else if '0' <= c && c <= '9' {
        c as int + 4
    } else if c == '+' {
        62
    } else {
        63
    }
}

/// Le décodage base64 standard, quatre caractères à la fois : leurs
/// vingt-quatre bits donnent trois octets, un ou deux de moins quand le
/// groupe finit par `=`.
pub open spec fn decoder_base64(s: Seq<char>) -> Seq<u8>
    decreases s.len(),
{
    if s.len() < 4 {
        seq![]
    } else {
        let x0 = rang_base64(s[0]);
        let x1 = rang_base64(s[1]);
        let x2 = rang_base64(s[2]);
        let x3 = rang_base64(s[3]);
        let a = (x0 * 4 + x1 / 16) as u8;
        let b = ((x1 % 16) * 16 + x2 / 4) as u8;
        let c = ((x2 % 4) * 64 + x3) as u8;
        let tete = if s[2] == '=' {
            seq![a]
        } else if s[3] == '=' {
            seq![a, b]
        } else {
            seq![a, b, c]
        };
        tete + decoder_base64(s.skip(4))
    }
}

/// Le nombre de `=` qui terminent l'encodage de `n` octets.
pub open spec fn remplissage(n: nat) -> nat {
    ((3 - n % 3) % 3) as nat
}

proof fn lemme_alphabet(i: int)
    requires
        0 <= i < 64,
    ensures
        dans_l_alphabet(alphabet(i)),
        rang_base64(alphabet(i)) == i,
        alphabet(i) != '=',
{
}

proof fn lemme_groupe(a: int, b: int, c: int, n: int)
    requires
        0 <= a < 256,
        0 <= b < 256,
        0 <= c < 256,
        1 <= n <= 3,
        n < 2 ==> b == 0,
        n < 3 ==> c == 0,
    ensures
        forall|k: int| 0 <= k < n + 1 ==> dans_l_alphabet(#[trigger] groupe(a, b, c, n)[k]),
        forall|k: int| n + 1 <= k < 4 ==> #[trigger] groupe(a, b, c, n)[k] == '=',
        decoder_base64(groupe(a, b, c, n)) == (if n == 1 {
            seq![a as u8]
        } else if n == 2 {
            seq![a as u8, b as u8]
        } else {
            seq![a as u8, b as u8, c as u8]
        }),
{
    let x0 = a / 4;
    let x1 = (a % 4) * 16 + b / 16;
    let x2 = (b % 16) * 4 + c / 64;
    let x3 = c % 64;
    assert(0 <= x0 < 64 && 0 <= x1 < 64 && 0 <= x2 < 64 && 0 <= x3 < 64) by (nonlinear_arith)
        requires
            x0 == a / 4,
            x1 == (a % 4) * 16 + b / 16,
            x2 == (b % 16) * 4 + c / 64,
            x3 == c % 64,
            0 <= a < 256,
            0 <= b < 256,
            0 <= c < 256,
    ;
    assert(x0 * 4 + x1 / 16 == a && (x1 % 16) * 16 + x2 / 4 == b && (x2 % 4) * 64 + x3 == c) by (nonlinear_arith)
        requires
            x0 == a / 4,
            x1 == (a % 4) * 16 + b / 16,
            x2 == (b % 16) * 4 + c / 64,
            x3 == c % 64,
            0 <= a < 256,
            0 <= b < 256,
            0 <= c < 256,
    ;
    lemme_alphabet(x0);
    lemme_alphabet(x1);
    lemme_alphabet(x2);
    lemme_alphabet(x3);
    let g = groupe(a, b, c, n);
    assert(g.skip(4) =~= Seq::<char>::empty());
    assert(decoder_base64(g.skip(4)) =~= Seq::<u8>::empty());
    let tete = decoder_base64(g);
    if n == 1 {
        assert(tete =~= seq![a as u8]);
    } else if n == 2 {
        assert(tete =~= seq![a as u8, b as u8]);
    } else {
        assert(tete =~= seq![a as u8, b as u8, c as u8]);
    }
}

/// L'encodage base64 standard, avec remplissage : quatre caractères par
/// groupe de trois octets, tous de l'alphabet sauf les `=` qui terminent un
/// dernier groupe incomplet, un par octet manquant ; et le décodage rend
/// exactement les octets encodés.
pub proof fn loi_base64(o: Seq<u8>)
    ensures
        base64_spec(o).len() == 4 * ((o.len() + 2) / 3),
        forall|i: int|
            0 <= i < base64_spec(o).len() - remplissage(o.len()) ==> dans_l_alphabet(#[trigger] base64_spec(o)[i]),
        forall|i: int|
            base64_spec(o).len() - remplissage(o.len()) <= i < base64_spec(o).len() ==> #[trigger] base64_spec(o)[i]
                == '=',
        decoder_base64(base64_spec(o)) == o,
    decreases o.len(),
{
    loi_base64_longueur(o);
    let s = base64_spec(o);
    if o.len() == 0 {
        assert(decoder_base64(s) =~= o);
    } else if o.len() == 1 {
        lemme_groupe(o[0] as int, 0, 0, 1);
        assert(decoder_base64(s) =~= o);
    } else if o.len() == 2 {
        lemme_groupe(o[0] as int, o[1] as int, 0, 2);
        assert(decoder_base64(s) =~= o);
    } else {
        let r = o.skip(3);
        loi_base64(r);
        lemme_groupe(o[0] as int, o[1] as int, o[2] as int, 3);
        let g = groupe(o[0] as int, o[1] as int, o[2] as int, 3);
        let t = base64_spec(r);
        assert(s == g + t);
        assert(s.skip(4) =~= t);
        assert(remplissage(o.len()) == remplissage(r.len()));
        assert forall|i: int| 0 <= i < s.len() - remplissage(o.len()) implies dans_l_alphabet(#[trigger] s[i]) by {
            if i >= 4 {
                assert(s[i] == t[i - 4]);
            } else {
                assert(s[i] == g[i]);
            }
        }
        assert forall|i: int| s.len() - remplissage(o.len()) <= i < s.len() implies #[trigger] s[i] == '=' by {
            assert(s[i] == t[i - 4]);
        }
        assert(s[0] == g[0] && s[1] == g[1] && s[2] == g[2] && s[3] == g[3]);
        assert(decoder_base64(g) =~= seq![o[0], o[1], o[2]]);
        assert(decoder_base64(s) == seq![o[0], o[1], o[2]] + decoder_base64(t));
        assert(o =~= seq![o[0], o[1], o[2]] + r);
    }
}

pub open spec fn lqip_spec(jpeg: Seq<u8>) -> Seq<char> {
    "data:image/jpeg;base64,"@ + base64_spec(jpeg)
}

/// L'aperçu inline : le JPEG de seize pixels, en URL de données.
pub fn lqip(jpeg: &[u8]) -> (r: String)
    ensures
        r@ == lqip_spec(jpeg@),
{
    let mut r = String::from_str("data:image/jpeg;base64,");
    let b = base64(jpeg);
    r.append(b.as_str());
    r
}

// ---------------------------------------------------------------------------
// Dimensions et orientation
// ---------------------------------------------------------------------------

/// La hauteur d'une image ramenée de `largeur` à `cible`, proportions
/// gardées, arrondie au plus proche, et jamais nulle.
pub open spec fn hauteur_reduite(largeur: nat, hauteur: nat, cible: nat) -> nat {
    let x = (2 * hauteur * cible + largeur) / (2 * largeur);
    if x < 1 {
        1
    } else {
        x
    }
}

/// Les dimensions d'une image ramenée à la largeur `cible`, sans jamais
/// l'agrandir.
pub open spec fn dimensions_reduites_spec(largeur: u32, hauteur: u32, cible: u32) -> (u32, u32) {
    if largeur <= cible {
        (largeur, hauteur)
    } else {
        (cible, hauteur_reduite(largeur as nat, hauteur as nat, cible as nat) as u32)
    }
}

/// Les dimensions d'une image redimensionnée à la largeur `cible`. Une image
/// plus petite que la cible n'est jamais agrandie : mieux vaut un dérivé plus
/// petit que du flou.
pub fn dimensions_reduites(largeur: u32, hauteur: u32, cible: u32) -> (r: (u32, u32))
    ensures
        r == dimensions_reduites_spec(largeur, hauteur, cible),
        largeur > cible ==> r.1 == hauteur_reduite(largeur as nat, hauteur as nat, cible as nat),
{
    if largeur <= cible {
        return (largeur, hauteur);
    }
    let h2: u128 = 2 * (hauteur as u128);
    assert(h2 * (cible as u128) <= 0x2_0000_0000 * 0x1_0000_0000) by (nonlinear_arith)
        requires
            h2 <= 0x2_0000_0000,
            cible <= 0xFFFF_FFFF,
    ;
    let x: u128 = (h2 * (cible as u128) + largeur as u128) / (2 * largeur as u128);
    assert(x <= hauteur as u128) by (nonlinear_arith)
        requires
            x == (h2 * (cible as u128) + largeur as u128) / (2 * largeur as u128),
            h2 == 2 * hauteur,
            cible < largeur,
    ;
    let h: u128 = if x < 1 { 1 } else { x };
    (cible, h as u32)
}

/// Ce qu'une orientation EXIF demande pour redresser l'image.
#[derive(Debug, Clone, Copy, PartialEq, Eq, Structural)]
pub enum Redressement {
    Aucun,
    MiroirHorizontal,
    Demi,
    MiroirVertical,
    QuartPuisMiroir,
    Quart,
    TroisQuartsPuisMiroir,
    TroisQuarts,
}

pub open spec fn redressement_spec(orientation: Option<u16>) -> Redressement {
    match orientation {
        Some(2) => Redressement::MiroirHorizontal,
        Some(3) => Redressement::Demi,
        Some(4) => Redressement::MiroirVertical,
        Some(5) => Redressement::QuartPuisMiroir,
        Some(6) => Redressement::Quart,
        Some(7) => Redressement::TroisQuartsPuisMiroir,
        Some(8) => Redressement::TroisQuarts,
        _ => Redressement::Aucun,
    }
}

/// Le redressement qu'applique une orientation EXIF ; sans orientation,
/// l'image est droite. Les dérivés sont écrits droits et sans métadonnées.
pub fn redressement(orientation: Option<u16>) -> (r: Redressement)
    ensures
        r == redressement_spec(orientation),
{
    match orientation {
        Some(2) => Redressement::MiroirHorizontal,
        Some(3) => Redressement::Demi,
        Some(4) => Redressement::MiroirVertical,
        Some(5) => Redressement::QuartPuisMiroir,
        Some(6) => Redressement::Quart,
        Some(7) => Redressement::TroisQuartsPuisMiroir,
        Some(8) => Redressement::TroisQuarts,
        _ => Redressement::Aucun,
    }
}

/// Les dimensions d'une image redressée : un quart de tour les échange.
pub open spec fn dimensions_redressees_spec(largeur: u32, hauteur: u32, orientation: Option<u16>) -> (u32, u32) {
    match redressement_spec(orientation) {
        Redressement::QuartPuisMiroir | Redressement::Quart | Redressement::TroisQuartsPuisMiroir
        | Redressement::TroisQuarts => (hauteur, largeur),
        _ => (largeur, hauteur),
    }
}

// ---------------------------------------------------------------------------
// Chemins des dérivés
// ---------------------------------------------------------------------------

pub open spec fn chemin_derive(id: Seq<char>, largeur: nat, ext: Seq<char>) -> Seq<char> {
    "photos/"@ + id + "-"@ + decimal(largeur) + "."@ + ext
}

fn chemin_derive_exec(id: &str, largeur: u32, ext: &str) -> (r: String)
    ensures
        r@ == chemin_derive(id@, largeur as nat, ext@),
{
    let mut r = String::from_str("photos/");
    r.append(id);
    r.append("-");
    let x = ecrire_decimal(largeur as u64);
    r.append(x.as_str());
    r.append(".");
    r.append(ext);
    r
}

/// Les chemins des dérivés d'une photo, relatifs à `media/<voyage>/` : trois
/// largeurs dans le format des réglages, et un repli JPEG en une seule
/// taille.
pub fn chemins_derives(id: &str, format: Format) -> (r: Derives)
    ensures
        r.vignette@ == chemin_derive(id@, LARGEUR_VIGNETTE as nat, extension_spec(format)),
        r.moyen@ == chemin_derive(id@, LARGEUR_MOYENNE as nat, extension_spec(format)),
        r.grand@ == chemin_derive(id@, LARGEUR_GRANDE as nat, extension_spec(format)),
        r.repli@ == chemin_derive(id@, LARGEUR_REPLI as nat, "jpg"@),
{
    let ext = format.extension();
    Derives {
        vignette: chemin_derive_exec(id, LARGEUR_VIGNETTE, ext),
        moyen: chemin_derive_exec(id, LARGEUR_MOYENNE, ext),
        grand: chemin_derive_exec(id, LARGEUR_GRANDE, ext),
        repli: chemin_derive_exec(id, LARGEUR_REPLI, "jpg"),
    }
}



// ---------------------------------------------------------------------------
// Cache de build
// ---------------------------------------------------------------------------

/// Ce que la production des dérivés d'une photo a donné : leurs chemins,
/// l'aperçu inline, et les dimensions de la photo redressée.
#[derive(Debug, Clone)]
pub struct Production {
    pub derives: Derives,
    pub lqip: String,
    pub largeur: u32,
    pub hauteur: u32,
}

/// Ce qui identifie un fichier source sans le relire, taille et date de
/// modification, et ce qu'il a produit.
#[derive(Debug, Clone)]
pub struct EntreeCache {
    pub octets: u64,
    pub mtime: i64,
    pub derives: Derives,
    pub lqip: String,
    pub largeur: u32,
    pub hauteur: u32,
}

/// Le cache de build : l'empreinte des réglages qui l'ont produit, et une
/// entrée par média, rangées par identifiant, chacun une fois.
#[derive(Debug, Clone)]
pub struct CacheBuild {
    pub empreinte: String,
    pub entrees: Vec<(String, EntreeCache)>,
}

/// L'entrée d'un identifiant, s'il en a une.
pub open spec fn entree_de(v: Seq<(String, EntreeCache)>, id: Seq<char>) -> Option<EntreeCache>
    decreases v.len(),
{
    if v.len() == 0 {
        None
    } else if v.last().0@ == id {
        Some(v.last().1)
    } else {
        entree_de(v.drop_last(), id)
    }
}

/// L'entrée reste valide si la source n'a bougé ni de taille ni de date.
pub open spec fn valide_spec(v: Seq<(String, EntreeCache)>, id: Seq<char>, signature: (u64, i64)) -> Option<EntreeCache> {
    match entree_de(v, id) {
        Some(e) => if e.octets == signature.0 && e.mtime == signature.1 {
            Some(e)
        } else {
            None
        },
        None => None,
    }
}

/// Ce que le disque a trouvé des quatre dérivés d'une entrée.
#[derive(Debug, Clone, Copy)]
pub struct Presences {
    pub vignette: bool,
    pub moyen: bool,
    pub grand: bool,
    pub repli: bool,
}

/// Une entrée se reprend si elle est valide et si ses quatre dérivés sont
/// toujours sur le disque ; sinon la photo est produite à nouveau.
pub open spec fn reprise_spec(
    v: Seq<(String, EntreeCache)>,
    id: Seq<char>,
    signature: (u64, i64),
    presences: Presences,
) -> Option<EntreeCache> {
    match valide_spec(v, id, signature) {
        Some(e) => if presences.vignette && presences.moyen && presences.grand && presences.repli {
            Some(e)
        } else {
            None
        },
        None => None,
    }
}

impl CacheBuild {
    /// Les entrées sont rangées par identifiant strictement croissant.
    pub open spec fn bien_forme(&self) -> bool {
        forall|i: int, j: int| 0 <= i < j < self.entrees@.len() ==> lex_inf(
            (#[trigger] self.entrees@[i]).0@,
            (#[trigger] self.entrees@[j]).0@,
        )
    }

    /// Un cache vide, pour ces réglages.
    pub fn vide(reglages: &Reglages) -> (r: CacheBuild)
        ensures
            r.empreinte@ == empreinte_spec(*reglages),
            r.entrees@.len() == 0,
            r.bien_forme(),
    {
        CacheBuild { empreinte: reglages.empreinte(), entrees: Vec::new() }
    }

    /// Un changement de réglage invalide les dérivés existants : ils ont été
    /// produits avec d'autres paramètres.
    pub fn accorder(&mut self, reglages: &Reglages)
        ensures
            final(self).empreinte@ == empreinte_spec(*reglages),
            old(self).empreinte@ == empreinte_spec(*reglages) ==> final(self).entrees@ == old(self).entrees@,
            old(self).empreinte@ != empreinte_spec(*reglages) ==> final(self).entrees@.len() == 0,
            old(self).bien_forme() ==> final(self).bien_forme(),
    {
        let e = reglages.empreinte();
        if !crate::texte::egales(self.empreinte.as_str(), e.as_str()) {
            self.entrees = Vec::new();
            self.empreinte = e;
        }
    }

    /// L'entrée de ce média, si sa source n'a pas bougé. La présence des
    /// dérivés sur le disque se vérifie au bord.
    pub fn valide(&self, id: &str, signature: (u64, i64)) -> (r: Option<&EntreeCache>)
        ensures
            match r {
                Some(e) => valide_spec(self.entrees@, id@, signature) == Some(*e),
                None => valide_spec(self.entrees@, id@, signature) is None,
            },
    {
        let mut i = self.entrees.len();
        assert(self.entrees@.take(i as int) =~= self.entrees@);
        while i > 0
            invariant
                i <= self.entrees@.len(),
                entree_de(self.entrees@, id@) == entree_de(self.entrees@.take(i as int), id@),
            decreases i,
        {
            assert(self.entrees@.take(i as int).drop_last() =~= self.entrees@.take(i - 1));
            if crate::texte::egales(self.entrees[i - 1].0.as_str(), id) {
                let e = &self.entrees[i - 1].1;
                if e.octets == signature.0 && e.mtime == signature.1 {
                    return Some(e);
                } else {
                    return None;
                }
            }
            i -= 1;
        }
        None
    }

    /// L'entrée à reprendre pour ce média : sa source n'a bougé ni de taille
    /// ni de date, et le disque a trouvé ses quatre dérivés. `presences` dit,
    /// pour les chemins de l'entrée que rend `valide`, ce que le disque a
    /// trouvé.
    pub fn reprise(&self, id: &str, signature: (u64, i64), presences: Presences) -> (r: Option<&EntreeCache>)
        ensures
            match r {
                Some(e) => reprise_spec(self.entrees@, id@, signature, presences) == Some(*e),
                None => reprise_spec(self.entrees@, id@, signature, presences) is None,
            },
            r is Some <==> {
                &&& entree_de(self.entrees@, id@) matches Some(e) && e.octets == signature.0 && e.mtime == signature.1
                &&& presences.vignette && presences.moyen && presences.grand && presences.repli
            },
            r matches Some(e) ==> entree_de(self.entrees@, id@) == Some(*e),
    {
        match self.valide(id, signature) {
            Some(e) => if presences.vignette && presences.moyen && presences.grand && presences.repli {
                Some(e)
            } else {
                None
            },
            None => None,
        }
    }

    /// Range l'entrée d'un média, à la place de l'ancienne s'il en avait une.
    pub fn inserer(&mut self, id: &str, entree: EntreeCache)
        requires
            old(self).bien_forme(),
        ensures
            final(self).bien_forme(),
            final(self).empreinte == old(self).empreinte,
            entree_de(final(self).entrees@, id@) == Some(entree),
            forall|k: Seq<char>| k != id@ ==> entree_de(final(self).entrees@, k) == entree_de(old(self).entrees@, k),
    {
        let ghost avant = self.entrees@;
        let mut p: usize = 0;
        while p < self.entrees.len() && crate::ordre::lex_inf_exec(self.entrees[p].0.as_str(), id)
            invariant
                p <= self.entrees@.len(),
                self.entrees@ == avant,
                forall|q: int| 0 <= q < p ==> lex_inf((#[trigger] self.entrees@[q]).0@, id@),
            decreases self.entrees@.len() - p,
        {
            p += 1;
        }
        let cle = String::from_str(id);
        if p < self.entrees.len() && crate::texte::egales(self.entrees[p].0.as_str(), id) {
            let ancienne = self.entrees.remove(p);
            self.entrees.insert(p, (cle, entree));
            proof {
                assert(self.entrees@ =~= avant.update(p as int, (self.entrees@[p as int].0, entree)));
                lemme_cache_remplace(avant, p as int, self.entrees@);
            }
        } else {
            proof {
                if p < avant.len() {
                    crate::ordre::lemme_trichotomie(avant[p as int].0@, id@);
                }
            }
            self.entrees.insert(p, (cle, entree));
            proof {
                lemme_cache_insere(avant, p as int, self.entrees@);
            }
        }
    }
}

/// Dans une suite aux clés distinctes, l'entrée d'une clé est celle de sa
/// position.
proof fn lemme_entree_en(v: Seq<(String, EntreeCache)>, p: int)
    requires
        0 <= p < v.len(),
        forall|i: int| 0 <= i < v.len() && i != p ==> (#[trigger] v[i]).0@ != v[p].0@,
    ensures
        entree_de(v, v[p].0@) == Some(v[p].1),
    decreases v.len(),
{
    if p < v.len() - 1 {
        assert forall|i: int| 0 <= i < v.drop_last().len() && i != p implies (#[trigger] v.drop_last()[i]).0@ != v.drop_last()[p].0@ by {
            assert(v.drop_last()[i] == v[i]);
        }
        lemme_entree_en(v.drop_last(), p);
    }
}

proof fn lemme_entree_unique(v: Seq<(String, EntreeCache)>, k: Seq<char>, p: int)
    requires
        0 <= p < v.len(),
        v[p].0@ == k,
        forall|i: int| 0 <= i < v.len() && i != p ==> (#[trigger] v[i]).0@ != k,
    ensures
        entree_de(v, k) == Some(v[p].1),
{
    lemme_entree_en(v, p);
}

proof fn lemme_cles_croissantes(v: Seq<(String, EntreeCache)>, i: int, j: int)
    requires
        forall|a: int, b: int| 0 <= a < b < v.len() ==> lex_inf((#[trigger] v[a]).0@, (#[trigger] v[b]).0@),
        0 <= i < v.len(),
        0 <= j < v.len(),
        i != j,
    ensures
        v[i].0@ != v[j].0@,
{
    if i < j {
        assert(lex_inf(v[i].0@, v[j].0@));
        crate::ordre::lemme_irreflexif(v[i].0@);
    } else {
        assert(lex_inf(v[j].0@, v[i].0@));
        crate::ordre::lemme_irreflexif(v[j].0@);
    }
}

proof fn lemme_cache_remplace(avant: Seq<(String, EntreeCache)>, p: int, apres: Seq<(String, EntreeCache)>)
    requires
        0 <= p < avant.len(),
        apres.len() == avant.len(),
        forall|i: int| 0 <= i < avant.len() && i != p ==> apres[i] == avant[i],
        apres[p].0@ == avant[p].0@,
        forall|a: int, b: int| 0 <= a < b < avant.len() ==> lex_inf((#[trigger] avant[a]).0@, (#[trigger] avant[b]).0@),
    ensures
        forall|a: int, b: int| 0 <= a < b < apres.len() ==> lex_inf((#[trigger] apres[a]).0@, (#[trigger] apres[b]).0@),
        entree_de(apres, avant[p].0@) == Some(apres[p].1),
        forall|k: Seq<char>| k != avant[p].0@ ==> entree_de(apres, k) == entree_de(avant, k),
{
    assert forall|a: int, b: int| 0 <= a < b < apres.len() implies lex_inf((#[trigger] apres[a]).0@, (#[trigger] apres[b]).0@) by {
        assert(lex_inf(avant[a].0@, avant[b].0@));
    }
    assert forall|i: int| 0 <= i < apres.len() && i != p implies (#[trigger] apres[i]).0@ != apres[p].0@ by {
        lemme_cles_croissantes(apres, i, p);
    }
    lemme_entree_unique(apres, avant[p].0@, p);
    assert forall|k: Seq<char>| k != avant[p].0@ implies entree_de(apres, k) == entree_de(avant, k) by {
        lemme_entree_hors(avant, apres, p, k);
    }
}

/// Deux suites qui ne diffèrent qu'en une position d'une autre clé donnent
/// la même entrée pour `k`.
proof fn lemme_entree_hors(avant: Seq<(String, EntreeCache)>, apres: Seq<(String, EntreeCache)>, p: int, k: Seq<char>)
    requires
        0 <= p < avant.len(),
        apres.len() == avant.len(),
        forall|i: int| 0 <= i < avant.len() && i != p ==> apres[i] == avant[i],
        apres[p].0@ == avant[p].0@,
        k != avant[p].0@,
    ensures
        entree_de(apres, k) == entree_de(avant, k),
    decreases avant.len(),
{
    if avant.len() > 0 {
        if p < avant.len() - 1 {
            lemme_entree_hors(avant.drop_last(), apres.drop_last(), p, k);
        } else {
            assert(avant.drop_last() =~= apres.drop_last());
        }
    }
}

proof fn lemme_cache_insere(avant: Seq<(String, EntreeCache)>, p: int, apres: Seq<(String, EntreeCache)>)
    requires
        0 <= p <= avant.len(),
        forall|a: int, b: int| 0 <= a < b < avant.len() ==> lex_inf((#[trigger] avant[a]).0@, (#[trigger] avant[b]).0@),
        apres.len() == avant.len() + 1,
        forall|i: int| 0 <= i < p ==> apres[i] == avant[i],
        forall|i: int| p < i < apres.len() ==> apres[i] == avant[i - 1],
        forall|q: int| 0 <= q < p ==> lex_inf((#[trigger] avant[q]).0@, apres[p].0@),
        p < avant.len() ==> lex_inf(apres[p].0@, avant[p].0@),
    ensures
        forall|a: int, b: int| 0 <= a < b < apres.len() ==> lex_inf((#[trigger] apres[a]).0@, (#[trigger] apres[b]).0@),
        entree_de(apres, apres[p].0@) == Some(apres[p].1),
        forall|k: Seq<char>| k != apres[p].0@ ==> entree_de(apres, k) == entree_de(avant, k),
{
    let x = apres[p].0@;
    assert forall|a: int, b: int| 0 <= a < b < apres.len() implies lex_inf((#[trigger] apres[a]).0@, (#[trigger] apres[b]).0@) by {
        if b < p {
            assert(lex_inf(avant[a].0@, avant[b].0@));
        } else if b == p {
        } else if a < p {
            assert(lex_inf(avant[a].0@, avant[b - 1].0@));
        } else if a == p {
            if b - 1 > p {
                assert(lex_inf(avant[p].0@, avant[b - 1].0@));
                crate::ordre::lemme_transitif(x, avant[p].0@, avant[b - 1].0@);
            }
        } else {
            assert(lex_inf(avant[a - 1].0@, avant[b - 1].0@));
        }
    }
    assert forall|i: int| 0 <= i < apres.len() && i != p implies (#[trigger] apres[i]).0@ != x by {
        lemme_cles_croissantes(apres, i, p);
    }
    lemme_entree_unique(apres, x, p);
    assert forall|k: Seq<char>| k != x implies entree_de(apres, k) == entree_de(avant, k) by {
        lemme_entree_insere(avant, p, apres, k);
    }
}

proof fn lemme_entree_insere(avant: Seq<(String, EntreeCache)>, p: int, apres: Seq<(String, EntreeCache)>, k: Seq<char>)
    requires
        0 <= p <= avant.len(),
        apres.len() == avant.len() + 1,
        forall|i: int| 0 <= i < p ==> apres[i] == avant[i],
        forall|i: int| p < i < apres.len() ==> apres[i] == avant[i - 1],
        k != apres[p].0@,
    ensures
        entree_de(apres, k) == entree_de(avant, k),
    decreases avant.len(),
{
    if p == avant.len() {
        assert(apres.drop_last() =~= avant);
    } else {
        lemme_entree_insere(avant.drop_last(), p, apres.drop_last(), k);
    }
}

/// Ce qui vient d'être rangé se relit : l'entrée rangée pour un média est
/// valide pour la signature qu'elle porte.
pub proof fn loi_cache_relit(v: Seq<(String, EntreeCache)>, id: Seq<char>, e: EntreeCache)
    requires
        entree_de(v, id) == Some(e),
    ensures
        valide_spec(v, id, (e.octets, e.mtime)) == Some(e),
{
}

/// Une source qui a bougé, de taille ou de date, n'a pas d'entrée valide.
pub proof fn loi_cache_source_modifiee(v: Seq<(String, EntreeCache)>, id: Seq<char>, e: EntreeCache, signature: (u64, i64))
    requires
        entree_de(v, id) == Some(e),
        signature != (e.octets, e.mtime),
    ensures
        valide_spec(v, id, signature) is None,
{
}

/// Un dérivé qui manque sur le disque fait produire la photo à nouveau, même
/// si sa source n'a pas bougé.
pub proof fn loi_derive_manquant(v: Seq<(String, EntreeCache)>, id: Seq<char>, signature: (u64, i64), presences: Presences)
    requires
        !(presences.vignette && presences.moyen && presences.grand && presences.repli),
    ensures
        reprise_spec(v, id, signature, presences) is None,
{
}

/// Une entrée valide dont les quatre dérivés sont présents est reprise telle
/// quelle.
pub proof fn loi_reprise_complete(v: Seq<(String, EntreeCache)>, id: Seq<char>, e: EntreeCache, presences: Presences)
    requires
        entree_de(v, id) == Some(e),
        presences.vignette && presences.moyen && presences.grand && presences.repli,
    ensures
        reprise_spec(v, id, (e.octets, e.mtime), presences) == Some(e),
{
}

} // verus!
