use vstd::prelude::*;

verus! {

use crate::greek::{
    spec_deaccent, spec_to_lower, spec_is_greek_vowel, spec_has_acute, spec_has_grave,
    spec_has_circumflex, spec_has_diaeresis, spec_accent, deaccent, to_lower, is_greek_vowel,
    has_acute,
};

/// The bare sound of a letter: lower case, acute removed; diaereses stay.
pub open spec fn spec_base(c: char) -> char {
    spec_to_lower(spec_deaccent(c))
}

#[verifier::when_used_as_spec(spec_base)]
pub fn base(c: char) -> (r: char)
    ensures
        r == spec_base(c),
{
    to_lower(deaccent(c))
}

/// The two-vowel teams that are read as one sound.
pub open spec fn spec_is_vowel_team(a: char, b: char) -> bool {
    matches!(
        (a, b),
        ('α', 'ι') | ('ε', 'ι') | ('ο', 'ι') | ('υ', 'ι')
        | ('α', 'υ') | ('ε', 'υ') | ('ο', 'υ') | ('η', 'υ')
    )
}

#[verifier::when_used_as_spec(spec_is_vowel_team)]
pub fn is_vowel_team(a: char, b: char) -> (r: bool)
    ensures
        r == spec_is_vowel_team(a, b),
{
    matches!(
        (a, b),
        ('α', 'ι') | ('ε', 'ι') | ('ο', 'ι') | ('υ', 'ι')
        | ('α', 'υ') | ('ε', 'υ') | ('ο', 'υ') | ('η', 'υ')
    )
}

/// Two adjacent characters form one nucleus when their bare sounds are a
/// vowel team, the first carries no accent, and the second carries no
/// diaeresis (a diaeresis is exactly the mark that splits the team).
pub open spec fn spec_is_nucleus_pair(a: char, b: char) -> bool {
    &&& spec_is_vowel_team(spec_base(a), spec_base(b))
    &&& !spec_has_acute(a)
    &&& !spec_has_grave(a)
    &&& !spec_has_circumflex(a)
    &&& !spec_has_diaeresis(b)
}

#[verifier::when_used_as_spec(spec_is_nucleus_pair)]
pub fn is_nucleus_pair(a: char, b: char) -> (r: bool)
    ensures
        r == spec_is_nucleus_pair(a, b),
{
    is_vowel_team(base(a), base(b)) && !crate::greek::has_acute(a) && !crate::greek::has_grave(a)
        && !crate::greek::has_circumflex(a) && !crate::greek::has_diaeresis(b)
}

/// The consonant pairs that can open a Greek word; a cluster whose first
/// two consonants form such a pair moves whole to the next syllable.
pub open spec fn spec_is_onset_pair(a: char, b: char) -> bool {
    matches!(
        (a, b),
        ('β', 'γ') | ('β', 'δ') | ('β', 'λ') | ('β', 'ρ')
        | ('γ', 'δ') | ('γ', 'κ') | ('γ', 'λ') | ('γ', 'ν') | ('γ', 'ρ')
        | ('δ', 'ρ')
        | ('ζ', 'μ')
        | ('θ', 'λ') | ('θ', 'ν') | ('θ', 'ρ')
        | ('κ', 'λ') | ('κ', 'ν') | ('κ', 'ρ') | ('κ', 'τ')
        | ('μ', 'ν') | ('μ', 'π')
        | ('ν', 'τ')
        | ('π', 'λ') | ('π', 'ν') | ('π', 'ρ') | ('π', 'τ')
        | ('σ', 'β') | ('σ', 'γ') | ('σ', 'θ') | ('σ', 'κ') | ('σ', 'λ') | ('σ', 'μ')
        | ('σ', 'π') | ('σ', 'τ') | ('σ', 'φ') | ('σ', 'χ')
        | ('τ', 'ζ') | ('τ', 'μ') | ('τ', 'ρ') | ('τ', 'σ')
        | ('φ', 'θ') | ('φ', 'λ') | ('φ', 'ρ') | ('φ', 'τ')
        | ('χ', 'θ') | ('χ', 'λ') | ('χ', 'ν') | ('χ', 'ρ') | ('χ', 'τ')
    )
}

#[verifier::when_used_as_spec(spec_is_onset_pair)]
pub fn is_onset_pair(a: char, b: char) -> (r: bool)
    ensures
        r == spec_is_onset_pair(a, b),
{
    matches!(
        (a, b),
        ('β', 'γ') | ('β', 'δ') | ('β', 'λ') | ('β', 'ρ')
        | ('γ', 'δ') | ('γ', 'κ') | ('γ', 'λ') | ('γ', 'ν') | ('γ', 'ρ')
        | ('δ', 'ρ')
        | ('ζ', 'μ')
        | ('θ', 'λ') | ('θ', 'ν') | ('θ', 'ρ')
        | ('κ', 'λ') | ('κ', 'ν') | ('κ', 'ρ') | ('κ', 'τ')
        | ('μ', 'ν') | ('μ', 'π')
        | ('ν', 'τ')
        | ('π', 'λ') | ('π', 'ν') | ('π', 'ρ') | ('π', 'τ')
        | ('σ', 'β') | ('σ', 'γ') | ('σ', 'θ') | ('σ', 'κ') | ('σ', 'λ') | ('σ', 'μ')
        | ('σ', 'π') | ('σ', 'τ') | ('σ', 'φ') | ('σ', 'χ')
        | ('τ', 'ζ') | ('τ', 'μ') | ('τ', 'ρ') | ('τ', 'σ')
        | ('φ', 'θ') | ('φ', 'λ') | ('φ', 'ρ') | ('φ', 'τ')
        | ('χ', 'θ') | ('χ', 'λ') | ('χ', 'ν') | ('χ', 'ρ') | ('χ', 'τ')
    )
}

/// The vowel nuclei of a word: disjoint spans of one vowel, or of two
/// vowels that read as one sound, in order.
fn nuclei(chars: &Vec<char>) -> (ns: Vec<(usize, usize)>)
    ensures
        forall|k: int| 0 <= k < ns@.len() ==> (#[trigger] ns@[k]).0 < ns@[k].1 <= chars@.len(),
        forall|k: int| 0 <= k < ns@.len() - 1 ==> (#[trigger] ns@[k]).1 <= ns@[k + 1].0,
{
    let mut ns: Vec<(usize, usize)> = Vec::new();
    let mut i: usize = 0;
    while i < chars.len()
        invariant
            i <= chars@.len(),
            forall|k: int| 0 <= k < ns@.len() ==> (#[trigger] ns@[k]).0 < ns@[k].1 <= i,
            forall|k: int| 0 <= k < ns@.len() - 1 ==> (#[trigger] ns@[k]).1 <= ns@[k + 1].0,
        decreases chars@.len() - i,
    {
        if is_greek_vowel(chars[i]) {
            if i + 1 < chars.len() && is_greek_vowel(chars[i + 1]) && is_nucleus_pair(
                chars[i],
                chars[i + 1],
            ) {
                ns.push((i, i + 2));
                i += 2;
            } else {
                ns.push((i, i + 1));
                i += 1;
            }
        } else {
            i += 1;
        }
    }
    ns
}

/// Whether the spans `sy` are a contiguous partition of `[0, n)` into
/// non-empty pieces.
pub open spec fn spans_partition(sy: Seq<(usize, usize)>, n: nat) -> bool {
    &&& (n == 0 ==> sy.len() == 0)
    &&& (n > 0 ==> sy.len() > 0)
    &&& (sy.len() > 0 ==> sy[0].0 == 0 && sy[sy.len() - 1].1 == n)
    &&& forall|k: int| 0 <= k < sy.len() ==> (#[trigger] sy[k]).0 < sy[k].1
    &&& forall|k: int| 0 <= k < sy.len() - 1 ==> (#[trigger] sy[k]).1 == sy[k + 1].0
}

/// Split a word into syllables, returned as character spans.
///
/// Every maximal vowel team or lone vowel opens a nucleus; a lone
/// consonant between nuclei joins the following syllable, and a cluster
/// joins it whole when its first two consonants can open a Greek word,
/// else it splits after its first consonant. A word with no vowel is one
/// syllable.
pub fn syllabify(chars: &Vec<char>) -> (sy: Vec<(usize, usize)>)
    ensures
        spans_partition(sy@, chars@.len()),
        forall|k: int| 0 <= k < sy@.len() ==> (#[trigger] sy@[k]).1 <= chars@.len(),
{
    let n = chars.len();
    let ns = nuclei(chars);
    let mut sy: Vec<(usize, usize)> = Vec::new();
    if ns.len() == 0 {
        if n > 0 {
            sy.push((0, n));
        }
        return sy;
    }
    let mut start: usize = 0;
    let mut k: usize = 0;
    while k + 1 < ns.len()
        invariant
            ns@.len() > 0,
            k < ns@.len(),
            forall|j: int| 0 <= j < ns@.len() ==> (#[trigger] ns@[j]).0 < ns@[j].1 <= chars@.len(),
            forall|j: int| 0 <= j < ns@.len() - 1 ==> (#[trigger] ns@[j]).1 <= ns@[j + 1].0,
            start <= ns@[k as int].0,
            sy@.len() == k,
            sy@.len() > 0 ==> sy@[0].0 == 0 && sy@[sy@.len() - 1].1 == start,
            sy@.len() == 0 ==> start == 0,
            forall|j: int| 0 <= j < sy@.len() ==> (#[trigger] sy@[j]).0 < sy@[j].1,
            forall|j: int| 0 <= j < sy@.len() ==> (#[trigger] sy@[j]).1 <= chars@.len(),
            forall|j: int| 0 <= j < sy@.len() - 1 ==> (#[trigger] sy@[j]).1 == sy@[j + 1].0,
        decreases ns@.len() - k,
    {
        proof {
            assert(ns@[k as int].1 <= ns@[k + 1].0);
        }
        let gap_start = ns[k].1;
        let gap_end = ns[k + 1].0;
        let cut: usize = if gap_end - gap_start <= 1 {
            gap_start
        } else if is_onset_pair(base(chars[gap_start]), base(chars[gap_start + 1])) {
            gap_start
        } else {
            gap_start + 1
        };
        sy.push((start, cut));
        start = cut;
        k += 1;
    }
    sy.push((start, n));
    sy
}

/// How many syllables the word has; zero only for the empty word.
pub fn num_syllables(word: &str) -> (r: usize)
    ensures
        word@.len() == 0 ==> r == 0,
        word@.len() > 0 ==> r > 0,
{
    let chars = crate::chars::str_to_chars(word);
    let sy = syllabify(&chars);
    sy.len()
}

/// The positions, counted from the end of the word starting at one, of
/// the syllables that carry an acute accent, in ascending order.
#[verifier::rlimit(30)]
pub fn acute_positions(chars: &Vec<char>) -> (r: Vec<usize>)
    ensures
        forall|k: int| 0 <= k < r@.len() ==> 1 <= (#[trigger] r@[k]),
        forall|k: int| 0 <= k < r@.len() - 1 ==> (#[trigger] r@[k]) < r@[k + 1],
{
    let sy = syllabify(chars);
    let n = sy.len();
    let mut r: Vec<usize> = Vec::new();
    let mut j: usize = 0;
    while j < n
        invariant
            j <= n,
            sy@.len() == n,
            forall|k: int| 0 <= k < sy@.len() ==> (#[trigger] sy@[k]).0 < sy@[k].1 <= chars@.len(),
            forall|k: int| 0 <= k < r@.len() ==> 1 <= (#[trigger] r@[k]) <= j,
            forall|k: int| 0 <= k < r@.len() - 1 ==> (#[trigger] r@[k]) < r@[k + 1],
        decreases n - j,
    {
        // Position j + 1 from the end is the syllable at index n - 1 - j.
        let (s, e) = sy[n - 1 - j];
        let mut found = false;
        let mut i: usize = s;
        while i < e
            invariant
                s <= i <= e,
                e <= chars@.len(),
            decreases e - i,
        {
            if has_acute(chars[i]) {
                found = true;
            }
            i += 1;
        }
        if found {
            r.push(j + 1);
        }
        j += 1;
    }
    r
}

/// The result is the word unchanged, or the word with exactly one vowel
/// given an acute accent.
pub open spec fn accent_update(r: Seq<char>, w: Seq<char>) -> bool {
    r == w || exists|t: int|
        0 <= t < w.len() && spec_is_greek_vowel(#[trigger] w[t]) && r == w.update(
            t,
            spec_accent(w[t]),
        )
}

/// The change is confined to the span `[a, b)`: outside it every
/// character is kept, inside it every character loses its acute.
pub open spec fn deaccented_span(r: Seq<char>, w: Seq<char>, a: int, b: int) -> bool {
    &&& 0 <= a <= b <= w.len()
    &&& (forall|i: int| 0 <= i < w.len() && !(a <= i < b) ==> #[trigger] r[i] == w[i])
    &&& (forall|i: int| a <= i < b ==> #[trigger] r[i] == spec_deaccent(w[i]))
}

/// The word with the acute accent removed from the syllable at position
/// `pos` from the end (one-based). Characters outside that syllable are
/// unchanged; inside it, accented vowels lose their acute.
pub fn remove_acute_at(word: &str, pos: usize) -> (r: String)
    ensures
        r@.len() == word@.len(),
        forall|i: int| 0 <= i < word@.len() ==> r@[i] == word@[i] || r@[i] == spec_deaccent(
            #[trigger] word@[i],
        ),
        exists|a: int, b: int| #[trigger] deaccented_span(r@, word@, a, b),
{
    let chars = crate::chars::str_to_chars(word);
    let sy = syllabify(&chars);
    let n = sy.len();
    let mut out = String::new();
    if pos == 0 || pos > n {
        let mut i: usize = 0;
        while i < chars.len()
            invariant
                i <= chars@.len(),
                chars@ == word@,
                out@ =~= word@.take(i as int),
            decreases chars@.len() - i,
        {
            crate::chars::push_char(&mut out, chars[i]);
            proof {
                assert(word@.take(i + 1 as int) =~= word@.take(i as int).push(word@[i as int]));
            }
            i += 1;
        }
        proof {
            assert(word@.take(word@.len() as int) =~= word@);
            assert(deaccented_span(out@, word@, 0, 0));
        }
        return out;
    }
    let (s, e) = sy[n - pos];
    let mut i: usize = 0;
    while i < chars.len()
        invariant
            i <= chars@.len(),
            chars@ == word@,
            s <= e,
            out@.len() == i,
            forall|j: int|
                0 <= j < i ==> #[trigger] out@[j] == if s <= j < e {
                    spec_deaccent(word@[j])
                } else {
                    word@[j]
                },
        decreases chars@.len() - i,
    {
        let c = chars[i];
        if s <= i && i < e {
            crate::chars::push_char(&mut out, deaccent(c));
        } else {
            crate::chars::push_char(&mut out, c);
        }
        i += 1;
    }
    proof {
        let a = if (s as int) <= word@.len() {
            s as int
        } else {
            word@.len() as int
        };
        let b = if a <= (e as int) <= word@.len() {
            e as int
        } else {
            a
        };
        assert(deaccented_span(out@, word@, a, b));
    }
    out
}

/// The word with an acute accent added to the last vowel of the syllable
/// at position `pos` from the end (one-based). All other characters are
/// unchanged.
#[verifier::rlimit(30)]
pub fn add_acute_at(word: &str, pos: usize) -> (r: String)
    ensures
        r@.len() == word@.len(),
        forall|i: int| 0 <= i < word@.len() ==> r@[i] == word@[i] || r@[i] == spec_accent(
            #[trigger] word@[i],
        ),
        accent_update(r@, word@),
{
    let chars = crate::chars::str_to_chars(word);
    let sy = syllabify(&chars);
    let n = sy.len();
    let mut target: Option<usize> = None;
    if 0 < pos && pos <= n {
        let (s, e) = sy[n - pos];
        // The last vowel of the target syllable takes the accent.
        let mut i: usize = e;
        while i > s
            invariant
                s <= i <= e,
                e <= chars@.len(),
                chars@ == word@,
                match target {
                    Some(t) => s <= t < e && spec_is_greek_vowel(word@[t as int]),
                    None => true,
                },
            decreases i,
        {
            i -= 1;
            if target.is_none() && is_greek_vowel(chars[i]) {
                target = Some(i);
            }
        }
    }
    let mut out = String::new();
    let mut i: usize = 0;
    while i < chars.len()
        invariant
            i <= chars@.len(),
            chars@ == word@,
            out@.len() == i,
            match target {
                Some(t) => 0 <= t < word@.len() && spec_is_greek_vowel(word@[t as int]),
                None => true,
            },
            forall|j: int|
                0 <= j < i ==> #[trigger] out@[j] == match target {
                    Some(t) => if j == t {
                        spec_accent(word@[j])
                    } else {
                        word@[j]
                    },
                    None => word@[j],
                },
        decreases chars@.len() - i,
    {
        let c = chars[i];
        let is_target = match target {
            Some(t) => t == i,
            None => false,
        };
        if is_target {
            crate::chars::push_char(&mut out, crate::greek::accent(c));
        } else {
            crate::chars::push_char(&mut out, c);
        }
        i += 1;
    }
    proof {
        match target {
            Some(t) => {
                assert(out@ =~= word@.update(t as int, spec_accent(word@[t as int])));
            },
            None => {
                assert(out@ =~= word@);
            },
        }
    }
    out
}

/// Whether the word ends in a two-vowel team (read as one falling sound),
/// whatever accents the two letters carry.
pub fn ends_with_diphthong(word: &str) -> (r: bool)
    ensures
        word@.len() < 2 ==> r == false,
{
    let chars = crate::chars::str_to_chars(word);
    let n = chars.len();
    if n < 2 {
        return false;
    }
    let a = chars[n - 2];
    let b = chars[n - 1];
    is_greek_vowel(a) && is_greek_vowel(b) && is_vowel_team(base(a), base(b))
        && !crate::greek::has_diaeresis(b)
}

} // verus!
