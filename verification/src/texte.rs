//! Outils sur les caractères : classes ASCII, passage entre `str` et
//! séquences de caractères.

use vstd::prelude::*;

verus! {

/// Chiffre décimal ASCII.
pub open spec fn est_chiffre(c: char) -> bool {
    '0' <= c && c <= '9'
}

/// Lettre ou chiffre ASCII, comme `char::is_ascii_alphanumeric`.
pub open spec fn est_alphanumerique(c: char) -> bool {
    ('0' <= c && c <= '9') || ('a' <= c && c <= 'z') || ('A' <= c && c <= 'Z')
}

/// Passage en majuscule ASCII, comme `char::to_ascii_uppercase`.
pub open spec fn majuscule(c: char) -> char {
    if 'a' <= c && c <= 'z' {
        ((c as u32) - 32) as char
    } else {
        c
    }
}

/// Passage en minuscule ASCII, comme `char::to_ascii_lowercase`.
pub open spec fn minuscule(c: char) -> char {
    if 'A' <= c && c <= 'Z' {
        ((c as u32) + 32) as char
    } else {
        c
    }
}

/// Une suite non vide de chiffres.
pub open spec fn que_des_chiffres(s: Seq<char>) -> bool {
    s.len() > 0 && forall|i: int| 0 <= i < s.len() ==> est_chiffre(#[trigger] s[i])
}

/// Valeur décimale d'une suite de chiffres.
pub open spec fn valeur_decimale(s: Seq<char>) -> int
    decreases s.len(),
{
    if s.len() == 0 {
        0
    } else {
        valeur_decimale(s.drop_last()) * 10 + (s.last() as int - '0' as int)
    }
}

/// Puissance de dix.
pub open spec fn dix_puissance(n: nat) -> int
    decreases n,
{
    if n == 0 {
        1
    } else {
        10 * dix_puissance((n - 1) as nat)
    }
}

pub proof fn lemme_valeur_bornee(s: Seq<char>)
    requires
        forall|i: int| 0 <= i < s.len() ==> est_chiffre(#[trigger] s[i]),
    ensures
        0 <= valeur_decimale(s) < dix_puissance(s.len()),
    decreases s.len(),
{
    if s.len() > 0 {
        let t = s.drop_last();
        assert forall|i: int| 0 <= i < t.len() implies est_chiffre(#[trigger] t[i]) by {
            assert(t[i] == s[i]);
        }
        lemme_valeur_bornee(t);
        assert(est_chiffre(s[s.len() - 1]));
    }
}

pub fn est_chiffre_exec(c: char) -> (r: bool)
    ensures
        r == est_chiffre(c),
{
    '0' <= c && c <= '9'
}

pub fn est_alphanumerique_exec(c: char) -> (r: bool)
    ensures
        r == est_alphanumerique(c),
{
    ('0' <= c && c <= '9') || ('a' <= c && c <= 'z') || ('A' <= c && c <= 'Z')
}

pub fn majuscule_exec(c: char) -> (r: char)
    ensures
        r == majuscule(c),
{
    if 'a' <= c && c <= 'z' {
        let v: u8 = (c as u32 - 32) as u8;
        v as char
    } else {
        c
    }
}

pub fn minuscule_exec(c: char) -> (r: char)
    ensures
        r == minuscule(c),
{
    if 'A' <= c && c <= 'Z' {
        let v: u8 = (c as u32 + 32) as u8;
        v as char
    } else {
        c
    }
}

/// Les caractères d'une chaîne, dans l'ordre.
pub fn en_caracteres(s: &str) -> (v: Vec<char>)
    ensures
        v@ == s@,
{
    let mut v: Vec<char> = Vec::new();
    for c in it: s.chars()
        invariant
            v@ == it.seq().take(it.index() as int),
    {
        v.push(c);
    }
    assert(v@ =~= s@);
    v
}

/// Rassemble des caractères en une chaîne, par `FromIterator` de la
/// bibliothèque standard : la chaîne obtenue porte ces caractères, dans cet
/// ordre.
#[verifier::external_body]
pub(crate) fn en_chaine(v: &[char]) -> (s: String)
    ensures
        s@ == v@,
{
    v.iter().collect()
}

/// Vrai si `s[debut..fin]` n'est fait que de chiffres, et n'est pas vide.
pub fn que_des_chiffres_exec(s: &[char], debut: usize, fin: usize) -> (r: bool)
    requires
        debut <= fin <= s.len(),
    ensures
        r == que_des_chiffres(s@.subrange(debut as int, fin as int)),
{
    if debut == fin {
        return false;
    }
    let mut i = debut;
    while i < fin
        invariant
            debut <= i <= fin <= s.len(),
            forall|k: int| debut <= k < i ==> est_chiffre(#[trigger] s@[k]),
        decreases fin - i,
    {
        if !est_chiffre_exec(s[i]) {
            assert(s@.subrange(debut as int, fin as int)[i - debut] == s@[i as int]);
            return false;
        }
        i += 1;
    }
    assert forall|k: int| 0 <= k < fin - debut implies est_chiffre(
        #[trigger] s@.subrange(debut as int, fin as int)[k],
    ) by {
        assert(s@.subrange(debut as int, fin as int)[k] == s@[debut + k]);
    }
    true
}

/// Valeur de `s[debut..fin]`, qui n'est fait que de chiffres, quatre au plus.
pub fn valeur_exec(s: &[char], debut: usize, fin: usize) -> (r: u32)
    requires
        debut <= fin <= s.len(),
        fin - debut <= 4,
        forall|k: int| debut <= k < fin ==> est_chiffre(#[trigger] s@[k]),
    ensures
        r == valeur_decimale(s@.subrange(debut as int, fin as int)),
{
    let mut v: u32 = 0;
    let mut i = debut;
    while i < fin
        invariant
            debut <= i <= fin <= s.len(),
            fin - debut <= 4,
            forall|k: int| debut <= k < fin ==> est_chiffre(#[trigger] s@[k]),
            v == valeur_decimale(s@.subrange(debut as int, i as int)),
        decreases fin - i,
    {
        let ghost t = s@.subrange(debut as int, i as int);
        proof {
            assert forall|k: int| 0 <= k < t.len() implies est_chiffre(#[trigger] t[k]) by {
                assert(t[k] == s@[debut + k]);
            }
            lemme_valeur_bornee(t);
            assert(dix_puissance(0) == 1);
            assert(dix_puissance(1) == 10);
            assert(dix_puissance(2) == 100);
            assert(dix_puissance(3) == 1000);
            assert(est_chiffre(s@[i as int]));
            assert(s@.subrange(debut as int, i + 1).drop_last() == t);
        }
        v = v * 10 + (s[i] as u32 - '0' as u32);
        i += 1;
    }
    v
}


/// La propriété Unicode `White_Space`, telle que `char::is_whitespace` la
/// documente.
pub open spec fn blanc(c: char) -> bool {
    let n = c as u32;
    (0x9 <= n <= 0xD) || n == 0x20 || n == 0x85 || n == 0xA0 || n == 0x1680 || (0x2000 <= n <= 0x200A)
        || n == 0x2028 || n == 0x2029 || n == 0x202F || n == 0x205F || n == 0x3000
}

/// Le caractère porte la propriété Unicode `White_Space`, comme le dit
/// `char::is_whitespace` : la liste de `blanc`, vérifiée ici.
pub(crate) fn est_blanc(c: char) -> (r: bool)
    ensures
        r == blanc(c),
{
    let n = c as u32;
    (0x9 <= n && n <= 0xD) || n == 0x20 || n == 0x85 || n == 0xA0 || n == 0x1680 || (0x2000 <= n && n <= 0x200A)
        || n == 0x2028 || n == 0x2029 || n == 0x202F || n == 0x205F || n == 0x3000
}

/// Deux chaînes égales, caractère par caractère.
pub fn egales(a: &str, b: &str) -> (r: bool)
    ensures
        r == (a@ == b@),
{
    let x = en_caracteres(a);
    let y = en_caracteres(b);
    if x.len() != y.len() {
        return false;
    }
    let mut i: usize = 0;
    while i < x.len()
        invariant
            i <= x.len(),
            x.len() == y.len(),
            x@ == a@,
            y@ == b@,
            forall|k: int| 0 <= k < i ==> x@[k] == y@[k],
        decreases x.len() - i,
    {
        if x[i] != y[i] {
            return false;
        }
        i += 1;
    }
    assert(x@ =~= y@);
    true
}


/// Le chiffre décimal d'une valeur de 0 à 9.
pub open spec fn chiffre(n: int) -> char {
    if n == 0 { '0' } else if n == 1 { '1' } else if n == 2 { '2' } else if n == 3 { '3' } else if n == 4 { '4' }
    else if n == 5 { '5' } else if n == 6 { '6' } else if n == 7 { '7' } else if n == 8 { '8' } else { '9' }
}

/// L'écriture décimale d'un entier naturel, sans zéro en tête.
pub open spec fn decimal(n: nat) -> Seq<char>
    decreases n,
{
    if n < 10 {
        seq![chiffre(n as int)]
    } else {
        decimal(n / 10).push(chiffre((n % 10) as int))
    }
}

/// L'écriture décimale d'un entier relatif.
pub open spec fn entier(n: int) -> Seq<char> {
    if n < 0 {
        seq!['-'] + decimal((-n) as nat)
    } else {
        decimal(n as nat)
    }
}

/// Deux chiffres, avec un zéro en tête au besoin.
pub open spec fn deux_chiffres(n: nat) -> Seq<char> {
    if n < 10 {
        seq!['0', chiffre(n as int)]
    } else {
        decimal(n)
    }
}

pub(crate) fn chiffre_exec(n: u128) -> (r: char)
    requires
        n < 10,
    ensures
        r == chiffre(n as int),
{
    if n == 0 { '0' } else if n == 1 { '1' } else if n == 2 { '2' } else if n == 3 { '3' } else if n == 4 { '4' }
    else if n == 5 { '5' } else if n == 6 { '6' } else if n == 7 { '7' } else if n == 8 { '8' } else { '9' }
}

pub(crate) fn decimal_car(n: u128) -> (r: Vec<char>)
    ensures
        r@ == decimal(n as nat),
    decreases n,
{
    if n < 10 {
        let mut v: Vec<char> = Vec::new();
        v.push(chiffre_exec(n));
        assert(v@ =~= seq![chiffre(n as int)]);
        v
    } else {
        let mut v = decimal_car(n / 10);
        v.push(chiffre_exec(n % 10));
        v
    }
}

/// L'écriture décimale d'un entier naturel.
pub fn ecrire_decimal(n: u64) -> (r: String)
    ensures
        r@ == decimal(n as nat),
{
    let v = decimal_car(n as u128);
    en_chaine(&v)
}

/// L'écriture décimale d'un grand entier naturel.
pub fn ecrire_decimal_large(n: u128) -> (r: String)
    ensures
        r@ == decimal(n as nat),
{
    let v = decimal_car(n);
    en_chaine(&v)
}

/// L'écriture décimale d'un entier relatif.
pub fn ecrire_entier(n: i64) -> (r: String)
    ensures
        r@ == entier(n as int),
{
    if n < 0 {
        let mut v: Vec<char> = Vec::new();
        v.push('-');
        let m: u64 = (-(n as i128)) as u64;
        let w = decimal_car(m as u128);
        let mut i: usize = 0;
        while i < w.len()
            invariant
                i <= w.len(),
                v@ == seq!['-'] + w@.take(i as int),
            decreases w.len() - i,
        {
            v.push(w[i]);
            i += 1;
            assert(v@ =~= seq!['-'] + w@.take(i as int));
        }
        assert(w@.take(w@.len() as int) =~= w@);
        en_chaine(&v)
    } else {
        ecrire_decimal(n as u64)
    }
}

/// Deux chiffres, avec un zéro en tête au besoin.
pub fn ecrire_deux_chiffres(n: u64) -> (r: String)
    ensures
        r@ == deux_chiffres(n as nat),
{
    if n < 10 {
        let mut v: Vec<char> = Vec::new();
        v.push('0');
        v.push(chiffre_exec(n as u128));
        assert(v@ =~= seq!['0', chiffre(n as int)]);
        en_chaine(&v)
    } else {
        ecrire_decimal(n)
    }
}

} // verus!
