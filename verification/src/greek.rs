use vstd::prelude::*;

verus! {

/// Whether `c` is a letter of the Greek alphabet, in the basic Greek
/// block or the polytonic (extended) block. Spacing accent marks of the
/// extended block are not letters.
pub open spec fn spec_is_greek_letter(c: char) -> bool {
    let u = c as u32;
    ||| u == 0x386
    ||| (0x388 <= u <= 0x3CE && u != 0x38B && u != 0x38D && u != 0x3A2)
    ||| (0x1F00 <= u <= 0x1FFF && !spec_is_greek_mark(c))
}

/// The spacing (non-letter) marks of the polytonic Greek block.
pub open spec fn spec_is_greek_mark(c: char) -> bool {
    let u = c as u32;
    ||| u == 0x1FBD
    ||| u == 0x1FBF
    ||| u == 0x1FC0
    ||| u == 0x1FC1
    ||| (0x1FCD <= u <= 0x1FCF)
    ||| (0x1FDD <= u <= 0x1FDF)
    ||| (0x1FED <= u <= 0x1FEF)
    ||| u == 0x1FFD
    ||| u == 0x1FFE
}

#[verifier::when_used_as_spec(spec_is_greek_letter)]
pub fn is_greek_letter(c: char) -> (r: bool)
    ensures
        r == spec_is_greek_letter(c),
{
    let u = c as u32;
    u == 0x386 || (0x388 <= u && u <= 0x3CE && u != 0x38B && u != 0x38D && u != 0x3A2) || (0x1F00
        <= u && u <= 0x1FFF && !(u == 0x1FBD || u == 0x1FBF || u == 0x1FC0 || u == 0x1FC1 || (0x1FCD
        <= u && u <= 0x1FCF) || (0x1FDD <= u && u <= 0x1FDF) || (0x1FED <= u && u <= 0x1FEF) || u
        == 0x1FFD || u == 0x1FFE))
}

/// The apostrophe-class characters: the ASCII apostrophe, the modifier
/// letter apostrophe, the right single quotation mark, and the Greek
/// koronis and psili marks that typeset elision.
pub open spec fn spec_is_apostrophe(c: char) -> bool {
    c == '\'' || c == '\u{2BC}' || c == '\u{2019}' || c == '\u{1FBD}' || c == '\u{1FBF}'
}

#[verifier::when_used_as_spec(spec_is_apostrophe)]
pub fn is_apostrophe(c: char) -> (r: bool)
    ensures
        r == spec_is_apostrophe(c),
{
    c == '\'' || c == '\u{2BC}' || c == '\u{2019}' || c == '\u{1FBD}' || c == '\u{1FBF}'
}

/// A word counts as Greek when it is non-empty and every character is a
/// Greek letter or an apostrophe-class character (so an elided form such
/// as a word with an inner apostrophe still counts).
pub open spec fn spec_is_greek_word(s: Seq<char>) -> bool {
    s.len() > 0 && forall|i: int|
        0 <= i < s.len() ==> spec_is_greek_letter(#[trigger] s[i]) || spec_is_apostrophe(s[i])
}

/// Whether the string is a Greek word.
pub fn is_greek_word(s: &str) -> (r: bool)
    ensures
        r == spec_is_greek_word(s@),
{
    let chars = crate::chars::str_to_chars(s);
    let mut i: usize = 0;
    while i < chars.len()
        invariant
            i <= chars@.len(),
            chars@ == s@,
            forall|j: int|
                0 <= j < i ==> spec_is_greek_letter(#[trigger] s@[j]) || spec_is_apostrophe(s@[j]),
        decreases chars@.len() - i,
    {
        let c = chars[i];
        if !(is_greek_letter(c) || is_apostrophe(c)) {
            return false;
        }
        i += 1;
    }
    chars.len() > 0
}

/// The Greek vowels, plain and with tonos or diaeresis, both cases.
pub open spec fn spec_is_greek_vowel(c: char) -> bool {
    ||| c == 'α' || c == 'ε' || c == 'η' || c == 'ι' || c == 'ο' || c == 'υ' || c == 'ω'
    ||| c == 'ά' || c == 'έ' || c == 'ή' || c == 'ί' || c == 'ό' || c == 'ύ' || c == 'ώ'
    ||| c == 'ϊ' || c == 'ϋ' || c == 'ΐ' || c == 'ΰ'
    ||| c == 'Α' || c == 'Ε' || c == 'Η' || c == 'Ι' || c == 'Ο' || c == 'Υ' || c == 'Ω'
    ||| c == 'Ά' || c == 'Έ' || c == 'Ή' || c == 'Ί' || c == 'Ό' || c == 'Ύ' || c == 'Ώ'
    ||| c == 'Ϊ' || c == 'Ϋ'
}

#[verifier::when_used_as_spec(spec_is_greek_vowel)]
pub fn is_greek_vowel(c: char) -> (r: bool)
    ensures
        r == spec_is_greek_vowel(c),
{
    c == 'α' || c == 'ε' || c == 'η' || c == 'ι' || c == 'ο' || c == 'υ' || c == 'ω' || c == 'ά'
        || c == 'έ' || c == 'ή' || c == 'ί' || c == 'ό' || c == 'ύ' || c == 'ώ' || c == 'ϊ' || c
        == 'ϋ' || c == 'ΐ' || c == 'ΰ' || c == 'Α' || c == 'Ε' || c == 'Η' || c == 'Ι' || c == 'Ο'
        || c == 'Υ' || c == 'Ω' || c == 'Ά' || c == 'Έ' || c == 'Ή' || c == 'Ί' || c == 'Ό' || c
        == 'Ύ' || c == 'Ώ' || c == 'Ϊ' || c == 'Ϋ'
}

/// Whether `c` carries an acute accent (tonos or oxia), either case.
pub open spec fn spec_has_acute(c: char) -> bool {
    let u = c as u32;
    ||| c == 'ά' || c == 'έ' || c == 'ή' || c == 'ί' || c == 'ό' || c == 'ύ' || c == 'ώ'
    ||| c == 'ΐ' || c == 'ΰ'
    ||| c == 'Ά' || c == 'Έ' || c == 'Ή' || c == 'Ί' || c == 'Ό' || c == 'Ύ' || c == 'Ώ'
    ||| u == 0x1F71 || u == 0x1F73 || u == 0x1F75 || u == 0x1F77 || u == 0x1F79 || u == 0x1F7B
        || u == 0x1F7D
    ||| u == 0x1FBB || u == 0x1FC9 || u == 0x1FCB || u == 0x1FDB || u == 0x1FF9 || u == 0x1FEB
        || u == 0x1FFB
}

#[verifier::when_used_as_spec(spec_has_acute)]
pub fn has_acute(c: char) -> (r: bool)
    ensures
        r == spec_has_acute(c),
{
    let u = c as u32;
    c == 'ά' || c == 'έ' || c == 'ή' || c == 'ί' || c == 'ό' || c == 'ύ' || c == 'ώ' || c == 'ΐ'
        || c == 'ΰ' || c == 'Ά' || c == 'Έ' || c == 'Ή' || c == 'Ί' || c == 'Ό' || c == 'Ύ' || c
        == 'Ώ' || u == 0x1F71 || u == 0x1F73 || u == 0x1F75 || u == 0x1F77 || u == 0x1F79 || u
        == 0x1F7B || u == 0x1F7D || u == 0x1FBB || u == 0x1FC9 || u == 0x1FCB || u == 0x1FDB || u
        == 0x1FF9 || u == 0x1FEB || u == 0x1FFB
}

/// Whether `c` carries a grave accent.
pub open spec fn spec_has_grave(c: char) -> bool {
    let u = c as u32;
    ||| u == 0x1F70 || u == 0x1F72 || u == 0x1F74 || u == 0x1F76 || u == 0x1F78 || u == 0x1F7A
        || u == 0x1F7C
    ||| u == 0x1FBA || u == 0x1FC8 || u == 0x1FCA || u == 0x1FDA || u == 0x1FF8 || u == 0x1FEA
        || u == 0x1FFA
}

#[verifier::when_used_as_spec(spec_has_grave)]
pub fn has_grave(c: char) -> (r: bool)
    ensures
        r == spec_has_grave(c),
{
    let u = c as u32;
    u == 0x1F70 || u == 0x1F72 || u == 0x1F74 || u == 0x1F76 || u == 0x1F78 || u == 0x1F7A || u
        == 0x1F7C || u == 0x1FBA || u == 0x1FC8 || u == 0x1FCA || u == 0x1FDA || u == 0x1FF8 || u
        == 0x1FEA || u == 0x1FFA
}

/// Whether `c` carries a circumflex.
pub open spec fn spec_has_circumflex(c: char) -> bool {
    let u = c as u32;
    u == 0x1FB6 || u == 0x1FB7 || u == 0x1FC6 || u == 0x1FC7 || u == 0x1FD6 || u == 0x1FD7 || u
        == 0x1FE6 || u == 0x1FE7 || u == 0x1FF6 || u == 0x1FF7
}

#[verifier::when_used_as_spec(spec_has_circumflex)]
pub fn has_circumflex(c: char) -> (r: bool)
    ensures
        r == spec_has_circumflex(c),
{
    let u = c as u32;
    u == 0x1FB6 || u == 0x1FB7 || u == 0x1FC6 || u == 0x1FC7 || u == 0x1FD6 || u == 0x1FD7 || u
        == 0x1FE6 || u == 0x1FE7 || u == 0x1FF6 || u == 0x1FF7
}

/// Whether `c` carries a diaeresis.
pub open spec fn spec_has_diaeresis(c: char) -> bool {
    c == 'ϊ' || c == 'ϋ' || c == 'ΐ' || c == 'ΰ' || c == 'Ϊ' || c == 'Ϋ'
}

#[verifier::when_used_as_spec(spec_has_diaeresis)]
pub fn has_diaeresis(c: char) -> (r: bool)
    ensures
        r == spec_has_diaeresis(c),
{
    c == 'ϊ' || c == 'ϋ' || c == 'ΐ' || c == 'ΰ' || c == 'Ϊ' || c == 'Ϋ'
}

/// Whether `c` carries any diacritic at all. Every letter of the
/// polytonic block carries one (a breathing at least), so the whole block
/// counts.
pub open spec fn spec_has_any_diacritic(c: char) -> bool {
    let u = c as u32;
    ||| spec_has_acute(c)
    ||| spec_has_grave(c)
    ||| spec_has_circumflex(c)
    ||| spec_has_diaeresis(c)
    ||| (0x1F00 <= u <= 0x1FFF && !spec_is_greek_mark(c))
}

#[verifier::when_used_as_spec(spec_has_any_diacritic)]
pub fn has_any_diacritic(c: char) -> (r: bool)
    ensures
        r == spec_has_any_diacritic(c),
{
    let u = c as u32;
    has_acute(c) || has_grave(c) || has_circumflex(c) || has_diaeresis(c) || (0x1F00 <= u && u
        <= 0x1FFF && !(u == 0x1FBD || u == 0x1FBF || u == 0x1FC0 || u == 0x1FC1 || (0x1FCD <= u && u
        <= 0x1FCF) || (0x1FDD <= u && u <= 0x1FDF) || (0x1FED <= u && u <= 0x1FEF) || u == 0x1FFD
        || u == 0x1FFE))
}

/// The letter with its acute accent removed; other characters are kept.
pub open spec fn spec_deaccent(c: char) -> char {
    let u = c as u32;
    if c == 'ά' || u == 0x1F71 {
        'α'
    } else if c == 'έ' || u == 0x1F73 {
        'ε'
    } else if c == 'ή' || u == 0x1F75 {
        'η'
    } else if c == 'ί' || u == 0x1F77 {
        'ι'
    } else if c == 'ό' || u == 0x1F79 {
        'ο'
    } else if c == 'ύ' || u == 0x1F7B {
        'υ'
    } else if c == 'ώ' || u == 0x1F7D {
        'ω'
    } else if c == 'ΐ' {
        'ϊ'
    } else if c == 'ΰ' {
        'ϋ'
    } else if c == 'Ά' {
        'Α'
    } else if c == 'Έ' {
        'Ε'
    } else if c == 'Ή' {
        'Η'
    } else if c == 'Ί' {
        'Ι'
    } else if c == 'Ό' {
        'Ο'
    } else if c == 'Ύ' {
        'Υ'
    } else if c == 'Ώ' {
        'Ω'
    } else {
        c
    }
}

#[verifier::when_used_as_spec(spec_deaccent)]
pub fn deaccent(c: char) -> (r: char)
    ensures
        r == spec_deaccent(c),
{
    let u = c as u32;
    if c == 'ά' || u == 0x1F71 {
        'α'
    } else if c == 'έ' || u == 0x1F73 {
        'ε'
    } else if c == 'ή' || u == 0x1F75 {
        'η'
    } else if c == 'ί' || u == 0x1F77 {
        'ι'
    } else if c == 'ό' || u == 0x1F79 {
        'ο'
    } else if c == 'ύ' || u == 0x1F7B {
        'υ'
    } else if c == 'ώ' || u == 0x1F7D {
        'ω'
    } else if c == 'ΐ' {
        'ϊ'
    } else if c == 'ΰ' {
        'ϋ'
    } else if c == 'Ά' {
        'Α'
    } else if c == 'Έ' {
        'Ε'
    } else if c == 'Ή' {
        'Η'
    } else if c == 'Ί' {
        'Ι'
    } else if c == 'Ό' {
        'Ο'
    } else if c == 'Ύ' {
        'Υ'
    } else if c == 'Ώ' {
        'Ω'
    } else {
        c
    }
}

/// The vowel with an acute accent added; other characters are kept.
pub open spec fn spec_accent(c: char) -> char {
    if c == 'α' {
        'ά'
    } else if c == 'ε' {
        'έ'
    } else if c == 'η' {
        'ή'
    } else if c == 'ι' {
        'ί'
    } else if c == 'ο' {
        'ό'
    } else if c == 'υ' {
        'ύ'
    } else if c == 'ω' {
        'ώ'
    } else if c == 'ϊ' {
        'ΐ'
    } else if c == 'ϋ' {
        'ΰ'
    } else if c == 'Α' {
        'Ά'
    } else if c == 'Ε' {
        'Έ'
    } else if c == 'Η' {
        'Ή'
    } else if c == 'Ι' {
        'Ί'
    } else if c == 'Ο' {
        'Ό'
    } else if c == 'Υ' {
        'Ύ'
    } else if c == 'Ω' {
        'Ώ'
    } else {
        c
    }
}

#[verifier::when_used_as_spec(spec_accent)]
pub fn accent(c: char) -> (r: char)
    ensures
        r == spec_accent(c),
{
    if c == 'α' {
        'ά'
    } else if c == 'ε' {
        'έ'
    } else if c == 'η' {
        'ή'
    } else if c == 'ι' {
        'ί'
    } else if c == 'ο' {
        'ό'
    } else if c == 'υ' {
        'ύ'
    } else if c == 'ω' {
        'ώ'
    } else if c == 'ϊ' {
        'ΐ'
    } else if c == 'ϋ' {
        'ΰ'
    } else if c == 'Α' {
        'Ά'
    } else if c == 'Ε' {
        'Έ'
    } else if c == 'Η' {
        'Ή'
    } else if c == 'Ι' {
        'Ί'
    } else if c == 'Ο' {
        'Ό'
    } else if c == 'Υ' {
        'Ύ'
    } else if c == 'Ω' {
        'Ώ'
    } else {
        c
    }
}

/// Greek and ASCII letters mapped to lower case; other characters kept.
pub open spec fn spec_to_lower(c: char) -> char {
    match c {
        'A' => 'a',
        'B' => 'b',
        'C' => 'c',
        'D' => 'd',
        'E' => 'e',
        'F' => 'f',
        'G' => 'g',
        'H' => 'h',
        'I' => 'i',
        'J' => 'j',
        'K' => 'k',
        'L' => 'l',
        'M' => 'm',
        'N' => 'n',
        'O' => 'o',
        'P' => 'p',
        'Q' => 'q',
        'R' => 'r',
        'S' => 's',
        'T' => 't',
        'U' => 'u',
        'V' => 'v',
        'W' => 'w',
        'X' => 'x',
        'Y' => 'y',
        'Z' => 'z',
        'Α' => 'α',
        'Β' => 'β',
        'Γ' => 'γ',
        'Δ' => 'δ',
        'Ε' => 'ε',
        'Ζ' => 'ζ',
        'Η' => 'η',
        'Θ' => 'θ',
        'Ι' => 'ι',
        'Κ' => 'κ',
        'Λ' => 'λ',
        'Μ' => 'μ',
        'Ν' => 'ν',
        'Ξ' => 'ξ',
        'Ο' => 'ο',
        'Π' => 'π',
        'Ρ' => 'ρ',
        'Σ' => 'σ',
        'Τ' => 'τ',
        'Υ' => 'υ',
        'Φ' => 'φ',
        'Χ' => 'χ',
        'Ψ' => 'ψ',
        'Ω' => 'ω',
        'Ά' => 'ά',
        'Έ' => 'έ',
        'Ή' => 'ή',
        'Ί' => 'ί',
        'Ό' => 'ό',
        'Ύ' => 'ύ',
        'Ώ' => 'ώ',
        'Ϊ' => 'ϊ',
        'Ϋ' => 'ϋ',
        _ => c,
    }
}

#[verifier::when_used_as_spec(spec_to_lower)]
pub fn to_lower(c: char) -> (r: char)
    ensures
        r == spec_to_lower(c),
{
    match c {
        'A' => 'a',
        'B' => 'b',
        'C' => 'c',
        'D' => 'd',
        'E' => 'e',
        'F' => 'f',
        'G' => 'g',
        'H' => 'h',
        'I' => 'i',
        'J' => 'j',
        'K' => 'k',
        'L' => 'l',
        'M' => 'm',
        'N' => 'n',
        'O' => 'o',
        'P' => 'p',
        'Q' => 'q',
        'R' => 'r',
        'S' => 's',
        'T' => 't',
        'U' => 'u',
        'V' => 'v',
        'W' => 'w',
        'X' => 'x',
        'Y' => 'y',
        'Z' => 'z',
        'Α' => 'α',
        'Β' => 'β',
        'Γ' => 'γ',
        'Δ' => 'δ',
        'Ε' => 'ε',
        'Ζ' => 'ζ',
        'Η' => 'η',
        'Θ' => 'θ',
        'Ι' => 'ι',
        'Κ' => 'κ',
        'Λ' => 'λ',
        'Μ' => 'μ',
        'Ν' => 'ν',
        'Ξ' => 'ξ',
        'Ο' => 'ο',
        'Π' => 'π',
        'Ρ' => 'ρ',
        'Σ' => 'σ',
        'Τ' => 'τ',
        'Υ' => 'υ',
        'Φ' => 'φ',
        'Χ' => 'χ',
        'Ψ' => 'ψ',
        'Ω' => 'ω',
        'Ά' => 'ά',
        'Έ' => 'έ',
        'Ή' => 'ή',
        'Ί' => 'ί',
        'Ό' => 'ό',
        'Ύ' => 'ύ',
        'Ώ' => 'ώ',
        'Ϊ' => 'ϊ',
        'Ϋ' => 'ϋ',
        _ => c,
    }
}

/// Whether `c` is an upper-case Greek or ASCII letter.
pub open spec fn spec_is_upper(c: char) -> bool {
    let u = c as u32;
    ||| 'A' <= c <= 'Z'
    ||| (0x391 <= u <= 0x3A9 && u != 0x3A2)
    ||| c == 'Ά' || c == 'Έ' || c == 'Ή' || c == 'Ί' || c == 'Ό' || c == 'Ύ' || c == 'Ώ'
    ||| c == 'Ϊ' || c == 'Ϋ'
}

#[verifier::when_used_as_spec(spec_is_upper)]
pub fn is_upper(c: char) -> (r: bool)
    ensures
        r == spec_is_upper(c),
{
    let u = c as u32;
    ('A' <= c && c <= 'Z') || (0x391 <= u && u <= 0x3A9 && u != 0x3A2) || c == 'Ά' || c == 'Έ' || c
        == 'Ή' || c == 'Ί' || c == 'Ό' || c == 'Ύ' || c == 'Ώ' || c == 'Ϊ' || c == 'Ϋ'
}

/// Whether `c` is a lower-case Greek or ASCII letter.
pub open spec fn spec_is_lower(c: char) -> bool {
    let u = c as u32;
    ||| 'a' <= c <= 'z'
    ||| (0x3B1 <= u <= 0x3C9)
    ||| c == 'ά' || c == 'έ' || c == 'ή' || c == 'ί' || c == 'ό' || c == 'ύ' || c == 'ώ'
    ||| c == 'ϊ' || c == 'ϋ' || c == 'ΐ' || c == 'ΰ'
}

#[verifier::when_used_as_spec(spec_is_lower)]
pub fn is_lower(c: char) -> (r: bool)
    ensures
        r == spec_is_lower(c),
{
    let u = c as u32;
    ('a' <= c && c <= 'z') || (0x3B1 <= u && u <= 0x3C9) || c == 'ά' || c == 'έ' || c == 'ή' || c
        == 'ί' || c == 'ό' || c == 'ύ' || c == 'ώ' || c == 'ϊ' || c == 'ϋ' || c == 'ΐ' || c == 'ΰ'
}


/// Accented monosyllables that are correct as written: the disambiguated
/// conjunction and interrogatives, and pronouns under functional accent.
pub open spec fn spec_in_accented_monosyllables(s: Seq<char>) -> bool {
    ||| s == "ή"@
    ||| s == "Ή"@
    ||| s == "πού"@
    ||| s == "Πού"@
    ||| s == "πώς"@
    ||| s == "Πώς"@
    ||| s == "μού"@
    ||| s == "σού"@
    ||| s == "τού"@
    ||| s == "τής"@
    ||| s == "τόν"@
    ||| s == "τήν"@
    ||| s == "τούς"@
    ||| s == "μάς"@
    ||| s == "σάς"@
}

/// Accented monosyllables that are correct as written: the disambiguated
/// conjunction and interrogatives, and pronouns under functional accent.
pub fn in_accented_monosyllables(s: &str) -> (r: bool)
    ensures
        r == spec_in_accented_monosyllables(s@),
{
    crate::chars::str_eq(s, "ή") || crate::chars::str_eq(s, "Ή") || crate::chars::str_eq(s, "πού") || crate::chars::str_eq(s, "Πού") || crate::chars::str_eq(s, "πώς") || crate::chars::str_eq(s, "Πώς") || crate::chars::str_eq(s, "μού") || crate::chars::str_eq(s, "σού") || crate::chars::str_eq(s, "τού") || crate::chars::str_eq(s, "τής") || crate::chars::str_eq(s, "τόν") || crate::chars::str_eq(s, "τήν") || crate::chars::str_eq(s, "τούς") || crate::chars::str_eq(s, "μάς") || crate::chars::str_eq(s, "σάς")
}


/// Variants of the interrogative pronoun that read as one syllable even
/// though two vowel groups are written, so the accent is wrong.
pub open spec fn spec_in_extra_monosyllables(s: Seq<char>) -> bool {
    ||| s == "ποιός"@
    ||| s == "ποιό"@
    ||| s == "ποιοί"@
    ||| s == "ποιών"@
    ||| s == "ποιούς"@
    ||| s == "ποιά"@
    ||| s == "ποιάς"@
    ||| s == "ποιές"@
    ||| s == "Ποιός"@
    ||| s == "Ποιό"@
    ||| s == "Ποιοί"@
    ||| s == "Ποιών"@
    ||| s == "Ποιούς"@
    ||| s == "Ποιά"@
    ||| s == "Ποιάς"@
    ||| s == "Ποιές"@
}

/// Variants of the interrogative pronoun that read as one syllable even
/// though two vowel groups are written, so the accent is wrong.
pub fn in_extra_monosyllables(s: &str) -> (r: bool)
    ensures
        r == spec_in_extra_monosyllables(s@),
{
    crate::chars::str_eq(s, "ποιός") || crate::chars::str_eq(s, "ποιό") || crate::chars::str_eq(s, "ποιοί") || crate::chars::str_eq(s, "ποιών") || crate::chars::str_eq(s, "ποιούς") || crate::chars::str_eq(s, "ποιά") || crate::chars::str_eq(s, "ποιάς") || crate::chars::str_eq(s, "ποιές") || crate::chars::str_eq(s, "Ποιός") || crate::chars::str_eq(s, "Ποιό") || crate::chars::str_eq(s, "Ποιοί") || crate::chars::str_eq(s, "Ποιών") || crate::chars::str_eq(s, "Ποιούς") || crate::chars::str_eq(s, "Ποιά") || crate::chars::str_eq(s, "Ποιάς") || crate::chars::str_eq(s, "Ποιές")
}


/// Words that are correct without any accent: ancient pronouns, ancient
/// forms of the verbs to be and to say, expanded pronouns and enclitics.
pub open spec fn spec_in_correct_unaccented(s: Seq<char>) -> bool {
    ||| s == "τις"@
    ||| s == "τινος"@
    ||| s == "τινι"@
    ||| s == "τινα"@
    ||| s == "τι"@
    ||| s == "τω"@
    ||| s == "τινες"@
    ||| s == "τινων"@
    ||| s == "τισι"@
    ||| s == "τισιν"@
    ||| s == "τινας"@
    ||| s == "τινε"@
    ||| s == "τινοιν"@
    ||| s == "εἰμι"@
    ||| s == "ἐστι"@
    ||| s == "ἐστιν"@
    ||| s == "εἰσι"@
    ||| s == "εἰσιν"@
    ||| s == "ἐσμεν"@
    ||| s == "ἐστε"@
    ||| s == "ειμι"@
    ||| s == "εστι"@
    ||| s == "εστιν"@
    ||| s == "εισι"@
    ||| s == "εισιν"@
    ||| s == "εσμεν"@
    ||| s == "εστε"@
    ||| s == "φημι"@
    ||| s == "φασι"@
    ||| s == "φασιν"@
    ||| s == "φησι"@
    ||| s == "φησιν"@
    ||| s == "φαμεν"@
    ||| s == "φατε"@
    ||| s == "τηνε"@
    ||| s == "τονε"@
    ||| s == "τωνε"@
    ||| s == "ποτε"@
    ||| s == "που"@
    ||| s == "γε"@
}

/// Words that are correct without any accent: ancient pronouns, ancient
/// forms of the verbs to be and to say, expanded pronouns and enclitics.
pub fn in_correct_unaccented(s: &str) -> (r: bool)
    ensures
        r == spec_in_correct_unaccented(s@),
{
    crate::chars::str_eq(s, "τις") || crate::chars::str_eq(s, "τινος") || crate::chars::str_eq(s, "τινι") || crate::chars::str_eq(s, "τινα") || crate::chars::str_eq(s, "τι") || crate::chars::str_eq(s, "τω") || crate::chars::str_eq(s, "τινες") || crate::chars::str_eq(s, "τινων") || crate::chars::str_eq(s, "τισι") || crate::chars::str_eq(s, "τισιν") || crate::chars::str_eq(s, "τινας") || crate::chars::str_eq(s, "τινε") || crate::chars::str_eq(s, "τινοιν") || crate::chars::str_eq(s, "εἰμι") || crate::chars::str_eq(s, "ἐστι") || crate::chars::str_eq(s, "ἐστιν") || crate::chars::str_eq(s, "εἰσι") || crate::chars::str_eq(s, "εἰσιν") || crate::chars::str_eq(s, "ἐσμεν") || crate::chars::str_eq(s, "ἐστε") || crate::chars::str_eq(s, "ειμι") || crate::chars::str_eq(s, "εστι") || crate::chars::str_eq(s, "εστιν") || crate::chars::str_eq(s, "εισι") || crate::chars::str_eq(s, "εισιν") || crate::chars::str_eq(s, "εσμεν") || crate::chars::str_eq(s, "εστε") || crate::chars::str_eq(s, "φημι") || crate::chars::str_eq(s, "φασι") || crate::chars::str_eq(s, "φασιν") || crate::chars::str_eq(s, "φησι") || crate::chars::str_eq(s, "φησιν") || crate::chars::str_eq(s, "φαμεν") || crate::chars::str_eq(s, "φατε") || crate::chars::str_eq(s, "τηνε") || crate::chars::str_eq(s, "τονε") || crate::chars::str_eq(s, "τωνε") || crate::chars::str_eq(s, "ποτε") || crate::chars::str_eq(s, "που") || crate::chars::str_eq(s, "γε")
}


/// The weak personal pronouns in the accusative and genitive; a
/// proparoxytone word followed by one of these needs a second accent.
pub open spec fn spec_in_pronouns_lowercase(s: Seq<char>) -> bool {
    ||| s == "με"@
    ||| s == "σε"@
    ||| s == "τον"@
    ||| s == "την"@
    ||| s == "τη"@
    ||| s == "το"@
    ||| s == "μας"@
    ||| s == "σας"@
    ||| s == "τους"@
    ||| s == "τις"@
    ||| s == "τα"@
    ||| s == "μου"@
    ||| s == "σου"@
    ||| s == "του"@
    ||| s == "της"@
}

/// The weak personal pronouns in the accusative and genitive; a
/// proparoxytone word followed by one of these needs a second accent.
pub fn in_pronouns_lowercase(s: &str) -> (r: bool)
    ensures
        r == spec_in_pronouns_lowercase(s@),
{
    crate::chars::str_eq(s, "με") || crate::chars::str_eq(s, "σε") || crate::chars::str_eq(s, "τον") || crate::chars::str_eq(s, "την") || crate::chars::str_eq(s, "τη") || crate::chars::str_eq(s, "το") || crate::chars::str_eq(s, "μας") || crate::chars::str_eq(s, "σας") || crate::chars::str_eq(s, "τους") || crate::chars::str_eq(s, "τις") || crate::chars::str_eq(s, "τα") || crate::chars::str_eq(s, "μου") || crate::chars::str_eq(s, "σου") || crate::chars::str_eq(s, "του") || crate::chars::str_eq(s, "της")
}


/// Words that may legitimately follow a word carrying two accents: weak
/// pronouns, their ancient variants, and other unaccented forms.
pub open spec fn spec_in_allowed_after_double_accent(s: Seq<char>) -> bool {
    ||| s == "με"@
    ||| s == "σε"@
    ||| s == "τον"@
    ||| s == "την"@
    ||| s == "τη"@
    ||| s == "το"@
    ||| s == "μας"@
    ||| s == "σας"@
    ||| s == "τους"@
    ||| s == "τις"@
    ||| s == "τα"@
    ||| s == "μου"@
    ||| s == "σου"@
    ||| s == "του"@
    ||| s == "της"@
    ||| s == "τις"@
    ||| s == "τινος"@
    ||| s == "τινι"@
    ||| s == "τινα"@
    ||| s == "τι"@
    ||| s == "τω"@
    ||| s == "τινες"@
    ||| s == "τινων"@
    ||| s == "τισι"@
    ||| s == "τισιν"@
    ||| s == "τινας"@
    ||| s == "τινε"@
    ||| s == "τινοιν"@
    ||| s == "εἰμι"@
    ||| s == "ἐστι"@
    ||| s == "ἐστιν"@
    ||| s == "εἰσι"@
    ||| s == "εἰσιν"@
    ||| s == "ἐσμεν"@
    ||| s == "ἐστε"@
    ||| s == "ειμι"@
    ||| s == "εστι"@
    ||| s == "εστιν"@
    ||| s == "εισι"@
    ||| s == "εισιν"@
    ||| s == "εσμεν"@
    ||| s == "εστε"@
    ||| s == "φημι"@
    ||| s == "φασι"@
    ||| s == "φασιν"@
    ||| s == "φησι"@
    ||| s == "φησιν"@
    ||| s == "φαμεν"@
    ||| s == "φατε"@
    ||| s == "τηνε"@
    ||| s == "τονε"@
    ||| s == "τωνε"@
    ||| s == "ποτε"@
    ||| s == "που"@
    ||| s == "γε"@
    ||| s == "των"@
    ||| s == "τας"@
    ||| s == "τε"@
    ||| s == "μοι"@
    ||| s == "σοι"@
    ||| s == "μ"@
    ||| s == "τ"@
}

/// Words that may legitimately follow a word carrying two accents: weak
/// pronouns, their ancient variants, and other unaccented forms.
pub fn in_allowed_after_double_accent(s: &str) -> (r: bool)
    ensures
        r == spec_in_allowed_after_double_accent(s@),
{
    crate::chars::str_eq(s, "με") || crate::chars::str_eq(s, "σε") || crate::chars::str_eq(s, "τον") || crate::chars::str_eq(s, "την") || crate::chars::str_eq(s, "τη") || crate::chars::str_eq(s, "το") || crate::chars::str_eq(s, "μας") || crate::chars::str_eq(s, "σας") || crate::chars::str_eq(s, "τους") || crate::chars::str_eq(s, "τις") || crate::chars::str_eq(s, "τα") || crate::chars::str_eq(s, "μου") || crate::chars::str_eq(s, "σου") || crate::chars::str_eq(s, "του") || crate::chars::str_eq(s, "της") || crate::chars::str_eq(s, "τις") || crate::chars::str_eq(s, "τινος") || crate::chars::str_eq(s, "τινι") || crate::chars::str_eq(s, "τινα") || crate::chars::str_eq(s, "τι") || crate::chars::str_eq(s, "τω") || crate::chars::str_eq(s, "τινες") || crate::chars::str_eq(s, "τινων") || crate::chars::str_eq(s, "τισι") || crate::chars::str_eq(s, "τισιν") || crate::chars::str_eq(s, "τινας") || crate::chars::str_eq(s, "τινε") || crate::chars::str_eq(s, "τινοιν") || crate::chars::str_eq(s, "εἰμι") || crate::chars::str_eq(s, "ἐστι") || crate::chars::str_eq(s, "ἐστιν") || crate::chars::str_eq(s, "εἰσι") || crate::chars::str_eq(s, "εἰσιν") || crate::chars::str_eq(s, "ἐσμεν") || crate::chars::str_eq(s, "ἐστε") || crate::chars::str_eq(s, "ειμι") || crate::chars::str_eq(s, "εστι") || crate::chars::str_eq(s, "εστιν") || crate::chars::str_eq(s, "εισι") || crate::chars::str_eq(s, "εισιν") || crate::chars::str_eq(s, "εσμεν") || crate::chars::str_eq(s, "εστε") || crate::chars::str_eq(s, "φημι") || crate::chars::str_eq(s, "φασι") || crate::chars::str_eq(s, "φασιν") || crate::chars::str_eq(s, "φησι") || crate::chars::str_eq(s, "φησιν") || crate::chars::str_eq(s, "φαμεν") || crate::chars::str_eq(s, "φατε") || crate::chars::str_eq(s, "τηνε") || crate::chars::str_eq(s, "τονε") || crate::chars::str_eq(s, "τωνε") || crate::chars::str_eq(s, "ποτε") || crate::chars::str_eq(s, "που") || crate::chars::str_eq(s, "γε") || crate::chars::str_eq(s, "των") || crate::chars::str_eq(s, "τας") || crate::chars::str_eq(s, "τε") || crate::chars::str_eq(s, "μοι") || crate::chars::str_eq(s, "σοι") || crate::chars::str_eq(s, "μ") || crate::chars::str_eq(s, "τ")
}


/// Title words that attach to a name with a dash and stay unaccented.
pub open spec fn spec_in_prefix_titles(s: Seq<char>) -> bool {
    ||| s == "αγια"@
    ||| s == "αγιο"@
    ||| s == "αϊ"@
    ||| s == "γερο"@
    ||| s == "γρια"@
    ||| s == "θεια"@
    ||| s == "κυρα"@
    ||| s == "κερα"@
    ||| s == "μαστρο"@
    ||| s == "μπαρμπα"@
    ||| s == "παπα"@
    ||| s == "χατζη"@
    ||| s == "ψευτο"@
    ||| s == "Αγια"@
    ||| s == "Αγιο"@
    ||| s == "Αϊ"@
    ||| s == "Γερο"@
    ||| s == "Γρια"@
    ||| s == "Θεια"@
    ||| s == "Κυρα"@
    ||| s == "Κερα"@
    ||| s == "Μαστρο"@
    ||| s == "Μπαρμπα"@
    ||| s == "Παπα"@
    ||| s == "Χατζη"@
    ||| s == "Ψευτο"@
}

/// Title words that attach to a name with a dash and stay unaccented.
pub fn in_prefix_titles(s: &str) -> (r: bool)
    ensures
        r == spec_in_prefix_titles(s@),
{
    crate::chars::str_eq(s, "αγια") || crate::chars::str_eq(s, "αγιο") || crate::chars::str_eq(s, "αϊ") || crate::chars::str_eq(s, "γερο") || crate::chars::str_eq(s, "γρια") || crate::chars::str_eq(s, "θεια") || crate::chars::str_eq(s, "κυρα") || crate::chars::str_eq(s, "κερα") || crate::chars::str_eq(s, "μαστρο") || crate::chars::str_eq(s, "μπαρμπα") || crate::chars::str_eq(s, "παπα") || crate::chars::str_eq(s, "χατζη") || crate::chars::str_eq(s, "ψευτο") || crate::chars::str_eq(s, "Αγια") || crate::chars::str_eq(s, "Αγιο") || crate::chars::str_eq(s, "Αϊ") || crate::chars::str_eq(s, "Γερο") || crate::chars::str_eq(s, "Γρια") || crate::chars::str_eq(s, "Θεια") || crate::chars::str_eq(s, "Κυρα") || crate::chars::str_eq(s, "Κερα") || crate::chars::str_eq(s, "Μαστρο") || crate::chars::str_eq(s, "Μπαρμπα") || crate::chars::str_eq(s, "Παπα") || crate::chars::str_eq(s, "Χατζη") || crate::chars::str_eq(s, "Ψευτο")
}


/// Words that are commonly and correctly doubled in expressions, so their
/// repetition is no error.
pub open spec fn spec_in_duplication_expressions(s: Seq<char>) -> bool {
    ||| s == "κάτω"@
    ||| s == "γύρω"@
    ||| s == "μπροστά"@
    ||| s == "πλάι"@
    ||| s == "πλάγι"@
    ||| s == "πέρα"@
    ||| s == "πάνω"@
    ||| s == "λίγο"@
    ||| s == "λίγα"@
    ||| s == "πολύ"@
    ||| s == "πάρα"@
    ||| s == "καλά"@
    ||| s == "πρώτα"@
    ||| s == "πρώτη"@
    ||| s == "πρώτης"@
    ||| s == "πρώτον"@
    ||| s == "πρώτοι"@
    ||| s == "ίσως"@
    ||| s == "πότε"@
    ||| s == "κάπου"@
    ||| s == "όπως"@
    ||| s == "πρωί"@
    ||| s == "βράδυ"@
    ||| s == "νωρίς"@
    ||| s == "γρήγορα"@
    ||| s == "σιγά"@
    ||| s == "αργά"@
    ||| s == "χονδρά"@
    ||| s == "ίσα"@
    ||| s == "ένα"@
    ||| s == "έναν"@
    ||| s == "ένας"@
    ||| s == "μια"@
    ||| s == "δυο"@
    ||| s == "τρία"@
    ||| s == "πενήντα"@
    ||| s == "κούτσα"@
    ||| s == "άκρη"@
    ||| s == "λογής"@
    ||| s == "αγάλι"@
    ||| s == "τσίμα"@
    ||| s == "χα"@
    ||| s == "φύγει"@
    ||| s == "σταλιά"@
    ||| s == "κομμάτι"@
    ||| s == "τμήμα"@
    ||| s == "βήμα"@
}

/// Words that are commonly and correctly doubled in expressions, so their
/// repetition is no error.
pub fn in_duplication_expressions(s: &str) -> (r: bool)
    ensures
        r == spec_in_duplication_expressions(s@),
{
    crate::chars::str_eq(s, "κάτω") || crate::chars::str_eq(s, "γύρω") || crate::chars::str_eq(s, "μπροστά") || crate::chars::str_eq(s, "πλάι") || crate::chars::str_eq(s, "πλάγι") || crate::chars::str_eq(s, "πέρα") || crate::chars::str_eq(s, "πάνω") || crate::chars::str_eq(s, "λίγο") || crate::chars::str_eq(s, "λίγα") || crate::chars::str_eq(s, "πολύ") || crate::chars::str_eq(s, "πάρα") || crate::chars::str_eq(s, "καλά") || crate::chars::str_eq(s, "πρώτα") || crate::chars::str_eq(s, "πρώτη") || crate::chars::str_eq(s, "πρώτης") || crate::chars::str_eq(s, "πρώτον") || crate::chars::str_eq(s, "πρώτοι") || crate::chars::str_eq(s, "ίσως") || crate::chars::str_eq(s, "πότε") || crate::chars::str_eq(s, "κάπου") || crate::chars::str_eq(s, "όπως") || crate::chars::str_eq(s, "πρωί") || crate::chars::str_eq(s, "βράδυ") || crate::chars::str_eq(s, "νωρίς") || crate::chars::str_eq(s, "γρήγορα") || crate::chars::str_eq(s, "σιγά") || crate::chars::str_eq(s, "αργά") || crate::chars::str_eq(s, "χονδρά") || crate::chars::str_eq(s, "ίσα") || crate::chars::str_eq(s, "ένα") || crate::chars::str_eq(s, "έναν") || crate::chars::str_eq(s, "ένας") || crate::chars::str_eq(s, "μια") || crate::chars::str_eq(s, "δυο") || crate::chars::str_eq(s, "τρία") || crate::chars::str_eq(s, "πενήντα") || crate::chars::str_eq(s, "κούτσα") || crate::chars::str_eq(s, "άκρη") || crate::chars::str_eq(s, "λογής") || crate::chars::str_eq(s, "αγάλι") || crate::chars::str_eq(s, "τσίμα") || crate::chars::str_eq(s, "χα") || crate::chars::str_eq(s, "φύγει") || crate::chars::str_eq(s, "σταλιά") || crate::chars::str_eq(s, "κομμάτι") || crate::chars::str_eq(s, "τμήμα") || crate::chars::str_eq(s, "βήμα")
}


/// Conjunctions and other words that mark a separation after a pronoun,
/// which lets an accent error be diagnosed.
pub open spec fn spec_in_separator_words(s: Seq<char>) -> bool {
    ||| s == "και"@
    ||| s == "κι"@
    ||| s == "ή"@
    ||| s == "αλλά"@
    ||| s == "είτε"@
    ||| s == "ενώ"@
    ||| s == "όμως"@
    ||| s == "ωστόσο"@
    ||| s == "αφού"@
    ||| s == "με"@
    ||| s == "όταν"@
    ||| s == "θα"@
    ||| s == "μήπως"@
    ||| s == "λοιπόν"@
    ||| s == "για"@
}

/// Conjunctions and other words that mark a separation after a pronoun,
/// which lets an accent error be diagnosed.
pub fn in_separator_words(s: &str) -> (r: bool)
    ensures
        r == spec_in_separator_words(s@),
{
    crate::chars::str_eq(s, "και") || crate::chars::str_eq(s, "κι") || crate::chars::str_eq(s, "ή") || crate::chars::str_eq(s, "αλλά") || crate::chars::str_eq(s, "είτε") || crate::chars::str_eq(s, "ενώ") || crate::chars::str_eq(s, "όμως") || crate::chars::str_eq(s, "ωστόσο") || crate::chars::str_eq(s, "αφού") || crate::chars::str_eq(s, "με") || crate::chars::str_eq(s, "όταν") || crate::chars::str_eq(s, "θα") || crate::chars::str_eq(s, "μήπως") || crate::chars::str_eq(s, "λοιπόν") || crate::chars::str_eq(s, "για")
}


/// The contractions of the preposition with the article.
pub open spec fn spec_in_se_to_compounds(s: Seq<char>) -> bool {
    ||| s == "στου"@
    ||| s == "στης"@
    ||| s == "στον"@
    ||| s == "στη"@
    ||| s == "στην"@
    ||| s == "στο"@
    ||| s == "στων"@
    ||| s == "στους"@
    ||| s == "στις"@
    ||| s == "στα"@
}

/// The contractions of the preposition with the article.
pub fn in_se_to_compounds(s: &str) -> (r: bool)
    ensures
        r == spec_in_se_to_compounds(s@),
{
    crate::chars::str_eq(s, "στου") || crate::chars::str_eq(s, "στης") || crate::chars::str_eq(s, "στον") || crate::chars::str_eq(s, "στη") || crate::chars::str_eq(s, "στην") || crate::chars::str_eq(s, "στο") || crate::chars::str_eq(s, "στων") || crate::chars::str_eq(s, "στους") || crate::chars::str_eq(s, "στις") || crate::chars::str_eq(s, "στα")
}


/// Words whose vowel cluster can be read either as two syllables or as
/// one, so no accent conclusion is safe.
pub open spec fn spec_in_multiple_pronunciation(s: Seq<char>) -> bool {
    ||| s == "έννοια"@
    ||| s == "άδεια"@
    ||| s == "λόγια"@
    ||| s == "μάτια"@
    ||| s == "δόντια"@
    ||| s == "βράδια"@
    ||| s == "χρόνια"@
    ||| s == "παλιά"@
}

/// Words whose vowel cluster can be read either as two syllables or as
/// one, so no accent conclusion is safe.
pub fn in_multiple_pronunciation(s: &str) -> (r: bool)
    ensures
        r == spec_in_multiple_pronunciation(s@),
{
    crate::chars::str_eq(s, "έννοια") || crate::chars::str_eq(s, "άδεια") || crate::chars::str_eq(s, "λόγια") || crate::chars::str_eq(s, "μάτια") || crate::chars::str_eq(s, "δόντια") || crate::chars::str_eq(s, "βράδια") || crate::chars::str_eq(s, "χρόνια") || crate::chars::str_eq(s, "παλιά")
}


/// Whether any character of the string carries an acute accent.
pub fn has_acute_str(s: &str) -> (r: bool)
    ensures
        r == exists|q: int| 0 <= q < s@.len() && spec_has_acute(#[trigger] s@[q]),
{
    let chars = crate::chars::str_to_chars(s);
    let mut i: usize = 0;
    while i < chars.len()
        invariant
            i <= chars@.len(),
            chars@ == s@,
            forall|q: int| 0 <= q < i ==> !spec_has_acute(#[trigger] s@[q]),
        decreases chars@.len() - i,
    {
        if has_acute(chars[i]) {
            return true;
        }
        i += 1;
    }
    false
}

/// Whether any character carries an acute, grave or circumflex accent.
pub fn has_accent_mark_str(s: &str) -> (r: bool)
    ensures
        r == exists|q: int|
            0 <= q < s@.len() && (spec_has_acute(#[trigger] s@[q]) || spec_has_grave(s@[q])
                || spec_has_circumflex(s@[q])),
{
    let chars = crate::chars::str_to_chars(s);
    let mut i: usize = 0;
    while i < chars.len()
        invariant
            i <= chars@.len(),
            chars@ == s@,
            forall|q: int|
                0 <= q < i ==> !(spec_has_acute(#[trigger] s@[q]) || spec_has_grave(s@[q])
                    || spec_has_circumflex(s@[q])),
        decreases chars@.len() - i,
    {
        let c = chars[i];
        if has_acute(c) || has_grave(c) || has_circumflex(c) {
            return true;
        }
        i += 1;
    }
    false
}

/// Whether any character of the string carries any diacritic.
pub fn has_any_diacritic_str(s: &str) -> (r: bool)
    ensures
        r == exists|q: int| 0 <= q < s@.len() && spec_has_any_diacritic(#[trigger] s@[q]),
{
    let chars = crate::chars::str_to_chars(s);
    let mut i: usize = 0;
    while i < chars.len()
        invariant
            i <= chars@.len(),
            chars@ == s@,
            forall|q: int| 0 <= q < i ==> !spec_has_any_diacritic(#[trigger] s@[q]),
        decreases chars@.len() - i,
    {
        if has_any_diacritic(chars[i]) {
            return true;
        }
        i += 1;
    }
    false
}

/// Whether every character of the string is an upper-case letter.
pub fn all_upper_str(s: &str) -> (r: bool)
    ensures
        r == forall|q: int| 0 <= q < s@.len() ==> spec_is_upper(#[trigger] s@[q]),
{
    let chars = crate::chars::str_to_chars(s);
    let mut i: usize = 0;
    while i < chars.len()
        invariant
            i <= chars@.len(),
            chars@ == s@,
            forall|q: int| 0 <= q < i ==> spec_is_upper(#[trigger] s@[q]),
        decreases chars@.len() - i,
    {
        if !is_upper(chars[i]) {
            return false;
        }
        i += 1;
    }
    true
}

/// A capitalized word: the first character upper case, the rest lower.
pub open spec fn spec_is_capitalized(s: Seq<char>) -> bool {
    &&& s.len() > 0
    &&& spec_is_upper(s[0])
    &&& forall|q: int| 1 <= q < s.len() ==> spec_is_lower(#[trigger] s[q])
}

/// Whether the first character is upper case and the rest are lower case.
pub fn is_capitalized_str(s: &str) -> (r: bool)
    ensures
        r == spec_is_capitalized(s@),
{
    let chars = crate::chars::str_to_chars(s);
    if chars.len() == 0 {
        return false;
    }
    if !is_upper(chars[0]) {
        return false;
    }
    let mut i: usize = 1;
    while i < chars.len()
        invariant
            1 <= i <= chars@.len(),
            chars@ == s@,
            forall|q: int| 1 <= q < i ==> spec_is_lower(#[trigger] s@[q]),
        decreases chars@.len() - i,
    {
        if !is_lower(chars[i]) {
            return false;
        }
        i += 1;
    }
    true
}

/// The string with Greek and ASCII letters mapped to lower case.
pub fn to_lower_str(s: &str) -> (r: String)
    ensures
        r@.len() == s@.len(),
        forall|q: int| 0 <= q < s@.len() ==> r@[q] == spec_to_lower(#[trigger] s@[q]),
{
    let chars = crate::chars::str_to_chars(s);
    let mut out = String::new();
    let mut i: usize = 0;
    while i < chars.len()
        invariant
            i <= chars@.len(),
            chars@ == s@,
            out@.len() == i,
            forall|q: int| 0 <= q < i ==> out@[q] == spec_to_lower(#[trigger] s@[q]),
        decreases chars@.len() - i,
    {
        crate::chars::push_char(&mut out, to_lower(chars[i]));
        i += 1;
    }
    out
}

/// The separator characters that make an all-Greek-looking token an
/// acronym or a compound rather than one word.
pub open spec fn spec_is_compound_sep(c: char) -> bool {
    c == '.' || c == '|' || c == ':' || c == ',' || c == '/' || c == '-' || c == '('
}

/// Whether the string holds a dot, a bar, a colon, a comma, a slash, a
/// dash or an opening parenthesis.
pub fn has_compound_sep(s: &str) -> (r: bool)
    ensures
        r == exists|q: int| 0 <= q < s@.len() && spec_is_compound_sep(#[trigger] s@[q]),
{
    let chars = crate::chars::str_to_chars(s);
    let mut i: usize = 0;
    while i < chars.len()
        invariant
            i <= chars@.len(),
            chars@ == s@,
            forall|q: int| 0 <= q < i ==> !spec_is_compound_sep(#[trigger] s@[q]),
        decreases chars@.len() - i,
    {
        let c = chars[i];
        if c == '.' || c == '|' || c == ':' || c == ',' || c == '/' || c == '-' || c == '(' {
            return true;
        }
        i += 1;
    }
    false
}

/// Whether every character of the string is a Greek letter.
pub fn all_greek_letters(s: &str) -> (r: bool)
    ensures
        r == forall|q: int| 0 <= q < s@.len() ==> spec_is_greek_letter(#[trigger] s@[q]),
{
    let chars = crate::chars::str_to_chars(s);
    let mut i: usize = 0;
    while i < chars.len()
        invariant
            i <= chars@.len(),
            chars@ == s@,
            forall|q: int| 0 <= q < i ==> spec_is_greek_letter(#[trigger] s@[q]),
        decreases chars@.len() - i,
    {
        if !is_greek_letter(chars[i]) {
            return false;
        }
        i += 1;
    }
    true
}

} // verus!
