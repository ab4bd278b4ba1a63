// It is frequent to see, in newspapers and elsewhere, the French rule
// where the first word of a sentence takes no accent when the accent
// falls on its first letter, a vowel. Ex. Ηταν μόλις 31…
use vstd::prelude::*;

verus! {

use crate::diagnostic::Diagnostic;
use crate::greek;
use crate::registry::Rule;
use crate::rules::{push_token_diag, token_diag_ok};
use crate::syllables;
use crate::tokenizer::{Doc, Token, spec_abbreviation_or_dot};

/// When the missing-capital-accent rule can fire: the word is
/// capitalized, carries no diacritic anywhere, opens with a vowel, and is
/// not an abbreviation or dot-trailed form. The word must also have more
/// than one syllable, which the caller sees only through the fix.
pub open spec fn capital_context_ok(doc: &Doc, token: Token) -> bool {
    &&& greek::spec_is_capitalized(token.spec_text())
    &&& !(exists|q: int|
        0 <= q < token.spec_text().len() && greek::spec_has_any_diacritic(
            #[trigger] token.spec_text()[q],
        ))
    &&& greek::spec_is_greek_vowel(token.spec_text()[0])
    &&& !spec_abbreviation_or_dot(doc.spec_tokens(), token.spec_index() as int)
}

/// Detect a capitalized vowel-initial word that lost its accent to the
/// French typesetting rule, and propose the word with an acute on its
/// first syllable.
pub fn missing_accent_capital(token: &Token, doc: &Doc, diagnostics: &mut Vec<Diagnostic>)
    requires
        doc.wf(),
        doc.has_token(*token),
    ensures
        final(diagnostics)@.len() >= old(diagnostics)@.len(),
        final(diagnostics)@.len() <= old(diagnostics)@.len() + 1,
        final(diagnostics)@.take(old(diagnostics)@.len() as int) == old(diagnostics)@,
        final(diagnostics)@.len() > old(diagnostics)@.len() ==> capital_context_ok(doc, *token)
            && token_diag_ok(
            final(diagnostics)@.last(),
            doc,
            *token,
            Rule::MissingAccentCapital,
        ) && ({
            let d = final(diagnostics)@.last();
            match d.fix {
                Some(f) => f.range == d.range && f.replacement@.len() == token.spec_text().len()
                    && syllables::accent_update(f.replacement@, token.spec_text()),
                None => false,
            }
        }),
{
    proof {
        assert(diagnostics@.take(diagnostics@.len() as int) =~= diagnostics@);
    }
    let text = token.text();
    if !greek::is_capitalized_str(text) {
        return ;
    }
    // Any diacritic, not only the acute, to stay quiet on polytonic text.
    if greek::has_any_diacritic_str(text) {
        return ;
    }
    let chars = crate::chars::str_to_chars(text);
    if !greek::is_greek_vowel(chars[0]) {
        return ;
    }
    if doc.is_abbreviation_or_ends_with_dot(token) {
        return ;
    }
    let n_syllables = syllables::num_syllables(text);
    if n_syllables > 1 {
        let replacement = syllables::add_acute_at(text, n_syllables);
        let ghost old_len = diagnostics@.len();
        push_token_diag(diagnostics, doc, token, Rule::MissingAccentCapital, Some(replacement));
        proof {
            assert(diagnostics@.take(old_len as int) =~= diagnostics@.drop_last());
        }
    }
}

} // verus!
