// Two kinds of error share the syllable scan: an accent before the
// antepenult, and two accents on a word not followed by a weak pronoun.
use vstd::prelude::*;

verus! {

use crate::chars::str_to_chars;
use crate::diagnostic::Diagnostic;
use crate::greek;
use crate::registry::Rule;
use crate::rules::{push_token_diag, token_diag_ok};
use crate::syllables;
use crate::tokenizer::{Doc, Token, TokenKind};

/// Words shorter than ten bytes cannot carry a forbidden accent, and a
/// token with any non-letter is markup the scan should skip.
fn skip_heuristic(token: &Token) -> bool {
    crate::chars::byte_len(token.text()) < 10 || !greek::all_greek_letters(token.text())
}

/// Detect accents before the antepenult, or double accents that no weak
/// pronoun justifies. No fix: which accent is the wrong one cannot be
/// known.
pub fn forbidden_accent(token: &Token, doc: &Doc, diagnostics: &mut Vec<Diagnostic>)
    requires
        doc.wf(),
        doc.has_token(*token),
    ensures
        final(diagnostics)@.len() >= old(diagnostics)@.len(),
        final(diagnostics)@.len() <= old(diagnostics)@.len() + 1,
        final(diagnostics)@.take(old(diagnostics)@.len() as int) == old(diagnostics)@,
        final(diagnostics)@.len() > old(diagnostics)@.len() ==> token.spec_kind()
            == TokenKind::GreekWord && token_diag_ok(
            final(diagnostics)@.last(),
            doc,
            *token,
            Rule::ForbiddenAccent,
        ) && final(diagnostics)@.last().fix is None,
{
    proof {
        assert(diagnostics@.take(diagnostics@.len() as int) =~= diagnostics@);
    }
    if !token.is_greek_word() {
        return ;
    }
    if skip_heuristic(token) {
        return ;
    }
    let chars = str_to_chars(token.text());
    let pos = syllables::acute_positions(&chars);
    let fires: bool;
    if pos.len() > 0 && pos[pos.len() - 1] > 3 {
        // An accent stands before the antepenult.
        fires = true;
    } else if pos.len() > 1 {
        fires = double_accent_wrong(&pos, token, doc);
    } else {
        fires = false;
    }
    if fires {
        let ghost old_len = diagnostics@.len();
        push_token_diag(diagnostics, doc, token, Rule::ForbiddenAccent, None);
        proof {
            assert(diagnostics@.take(old_len as int) =~= diagnostics@.drop_last());
        }
    }
}

/// Whether a word with two or more acute accents is wrong: either they do
/// not sit on the last and antepenult syllables, or no allowed weak form
/// follows the word.
fn double_accent_wrong(pos: &Vec<usize>, token: &Token, doc: &Doc) -> bool
    requires
        doc.wf(),
        doc.has_token(*token),
{
    if !(pos.len() == 2 && pos[0] == 1 && pos[1] == 3) {
        return true;
    }
    // The accents sit where a double accent may: the next Greek word must
    // then be a weak form.
    match doc.next_token_greek_word(token) {
        Some(ntoken) => !greek::in_allowed_after_double_accent(ntoken.text()),
        None => false,
    }
}

/// Detect a double accent that no weak pronoun justifies, and propose the
/// word with the acute removed from its last syllable. This stands apart
/// from [`forbidden_accent`] because it is fixable.
pub fn forbidden_double_accent(token: &Token, doc: &Doc, diagnostics: &mut Vec<Diagnostic>)
    requires
        doc.wf(),
        doc.has_token(*token),
    ensures
        final(diagnostics)@.len() >= old(diagnostics)@.len(),
        final(diagnostics)@.len() <= old(diagnostics)@.len() + 1,
        final(diagnostics)@.take(old(diagnostics)@.len() as int) == old(diagnostics)@,
        final(diagnostics)@.len() > old(diagnostics)@.len() ==> token.spec_kind()
            == TokenKind::GreekWord && token_diag_ok(
            final(diagnostics)@.last(),
            doc,
            *token,
            Rule::ForbiddenDoubleAccent,
        ) && ({
            let d = final(diagnostics)@.last();
            match d.fix {
                Some(f) => f.range == d.range && f.replacement@.len() == token.spec_text().len()
                    && exists|a: int, b: int| #[trigger] syllables::deaccented_span(
                    f.replacement@,
                    token.spec_text(),
                    a,
                    b,
                ),
                None => false,
            }
        }),
{
    proof {
        assert(diagnostics@.take(diagnostics@.len() as int) =~= diagnostics@);
    }
    if !token.is_greek_word() {
        return ;
    }
    if skip_heuristic(token) {
        return ;
    }
    let chars = str_to_chars(token.text());
    let pos = syllables::acute_positions(&chars);
    if pos.len() > 1 && double_accent_wrong(&pos, token, doc) {
        let without_accent = syllables::remove_acute_at(token.text(), 1);
        let ghost old_len = diagnostics@.len();
        push_token_diag(
            diagnostics,
            doc,
            token,
            Rule::ForbiddenDoubleAccent,
            Some(without_accent),
        );
        proof {
            assert(diagnostics@.take(old_len as int) =~= diagnostics@.drop_last());
        }
    }
}

} // verus!
