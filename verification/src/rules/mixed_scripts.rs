use vstd::prelude::*;

verus! {

use crate::chars::{alphabetic, is_alphabetic_char, push_char, str_to_chars};
use crate::diagnostic::Diagnostic;
use crate::greek;
use crate::registry::Rule;
use crate::rules::{push_token_diag, token_diag_ok};
use crate::tokenizer::{Doc, Token};

/// The Greek letter a confusable Latin letter stands for, or the
/// character itself.
pub open spec fn spec_latin_to_greek(c: char) -> char {
    match c {
        'A' => 'Α',
        'Á' => 'Ά',
        'B' => 'Β',
        'E' => 'Ε',
        'É' => 'Έ',
        'H' => 'Η',
        'I' => 'Ι',
        'Í' => 'Ί',
        'K' => 'Κ',
        'M' => 'Μ',
        'N' => 'Ν',
        'O' => 'Ο',
        'Ó' => 'Ό',
        'P' => 'Ρ',
        'T' => 'Τ',
        'X' => 'Χ',
        'Y' => 'Υ',
        'o' => 'ο',
        'ó' => 'ό',
        'u' => 'υ',
        'v' => 'ν',
        'í' => 'ί',
        _ => c,
    }
}

#[verifier::when_used_as_spec(spec_latin_to_greek)]
fn latin_to_greek(c: char) -> (r: char)
    ensures
        r == spec_latin_to_greek(c),
{
    match c {
        'A' => 'Α',
        'Á' => 'Ά',
        'B' => 'Β',
        'E' => 'Ε',
        'É' => 'Έ',
        'H' => 'Η',
        'I' => 'Ι',
        'Í' => 'Ί',
        'K' => 'Κ',
        'M' => 'Μ',
        'N' => 'Ν',
        'O' => 'Ο',
        'Ó' => 'Ό',
        'P' => 'Ρ',
        'T' => 'Τ',
        'X' => 'Χ',
        'Y' => 'Υ',
        'o' => 'ο',
        'ó' => 'ό',
        'u' => 'υ',
        'v' => 'ν',
        'í' => 'ί',
        _ => c,
    }
}

/// Whether a Latin character is confusable with a Greek letter.
pub open spec fn spec_is_confusable(c: char) -> bool {
    spec_latin_to_greek(c) != c
}

/// Detect a token that mixes Greek letters with confusable Latin ones
/// (ex. νέo with a Latin o), and propose it with every confusable letter
/// replaced by the Greek letter it stands for.
pub fn mixed_scripts(token: &Token, doc: &Doc, diagnostics: &mut Vec<Diagnostic>)
    requires
        doc.wf(),
        doc.has_token(*token),
    ensures
        final(diagnostics)@.len() >= old(diagnostics)@.len(),
        final(diagnostics)@.len() <= old(diagnostics)@.len() + 1,
        final(diagnostics)@.take(old(diagnostics)@.len() as int) == old(diagnostics)@,
        final(diagnostics)@.len() > old(diagnostics)@.len() ==> (exists|q: int|
            0 <= q < token.spec_text().len() && greek::spec_is_greek_letter(
                #[trigger] token.spec_text()[q],
            )) && (exists|q: int|
            0 <= q < token.spec_text().len() && spec_is_confusable(
                #[trigger] token.spec_text()[q],
            )) && token_diag_ok(final(diagnostics)@.last(), doc, *token, Rule::MixedScripts)
            && match final(diagnostics)@.last().fix {
            Some(f) => f.range == final(diagnostics)@.last().range && f.replacement@.len()
                == token.spec_text().len() && forall|q: int|
                0 <= q < token.spec_text().len() ==> f.replacement@[q] == spec_latin_to_greek(
                    #[trigger] token.spec_text()[q],
                ),
            None => false,
        },
{
    proof {
        assert(diagnostics@.take(diagnostics@.len() as int) =~= diagnostics@);
    }
    let text = token.text();
    let chars = str_to_chars(text);
    let n = chars.len();
    let mut has_greek = false;
    let mut has_latin = false;
    let mut q: usize = 0;
    while q < n
        invariant
            q <= n,
            n == chars@.len(),
            chars@ == token.spec_text(),
            has_greek ==> exists|p: int|
                0 <= p < q && greek::spec_is_greek_letter(#[trigger] chars@[p]),
            has_latin ==> exists|p: int| 0 <= p < q && spec_is_confusable(#[trigger] chars@[p]),
        decreases n - q,
    {
        let c = chars[q];
        if greek::is_greek_letter(c) {
            has_greek = true;
        } else if latin_to_greek(c) != c {
            has_latin = true;
        } else if !is_alphabetic_char(c) {
            // A non-alphabetic character means the token can be markup,
            // a file name, a compound: report nothing.
            return ;
        }
        q += 1;
    }
    if has_latin && has_greek {
        let mut fixed = String::new();
        let mut p: usize = 0;
        while p < n
            invariant
                p <= n,
                n == chars@.len(),
                chars@ == token.spec_text(),
                fixed@.len() == p,
                forall|k: int|
                    0 <= k < p ==> fixed@[k] == spec_latin_to_greek(#[trigger] chars@[k]),
            decreases n - p,
        {
            push_char(&mut fixed, latin_to_greek(chars[p]));
            p += 1;
        }
        let ghost old_len = diagnostics@.len();
        push_token_diag(diagnostics, doc, token, Rule::MixedScripts, Some(fixed));
        proof {
            assert(diagnostics@.take(old_len as int) =~= diagnostics@.drop_last());
        }
    }
}

} // verus!
