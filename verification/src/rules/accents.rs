use vstd::prelude::*;

verus! {

use crate::diagnostic::Diagnostic;
use crate::greek;
use crate::registry::Rule;
use crate::rules::{push_token_diag, token_diag_ok};
use crate::syllables;
use crate::tokenizer::{Doc, Token, TokenKind, prev_non_ws, token_is_num, token_is_apostrophe,
    spec_abbreviation_or_dot};

/// The context in which a wrongly accented monosyllable is reported: a
/// Greek word outside the allow-lists, not an elided or dot-trailed form,
/// and not after a number or an apostrophe.
pub open spec fn mono_context_ok(doc: &Doc, token: Token) -> bool {
    &&& token.spec_kind() == TokenKind::GreekWord
    &&& !greek::spec_in_accented_monosyllables(token.spec_text())
    &&& !spec_abbreviation_or_dot(doc.spec_tokens(), token.spec_index() as int)
    &&& match prev_non_ws(doc.spec_tokens(), token.spec_index() as int) {
        Some(m) => !token_is_num(doc.spec_tokens()[m]) && !token_is_apostrophe(
            doc.spec_tokens()[m],
        ),
        None => true,
    }
}

/// Detect wrongly accented monosyllables.
///
/// Reports the token with a fix that removes the acute accent from its
/// only syllable. At most one diagnostic is appended, only when the token
/// is a Greek word in a reporting context (see [`mono_context_ok`]).
pub fn monosyllable_accented(token: &Token, doc: &Doc, diagnostics: &mut Vec<Diagnostic>)
    requires
        doc.wf(),
        doc.has_token(*token),
    ensures
        final(diagnostics)@.len() <= old(diagnostics)@.len() + 1,
        final(diagnostics)@.len() >= old(diagnostics)@.len(),
        final(diagnostics)@.take(old(diagnostics)@.len() as int) == old(diagnostics)@,
        final(diagnostics)@.len() > old(diagnostics)@.len() ==> mono_context_ok(doc, *token)
            && token_diag_ok(
            final(diagnostics)@.last(),
            doc,
            *token,
            Rule::MonosyllableAccented,
        ) && ({
            let d = final(diagnostics)@.last();
            match d.fix {
                Some(f) => f.range == d.range && f.replacement@.len() == token.spec_text().len()
                    && exists|a: int, b: int| #[trigger] syllables::deaccented_span(
                    f.replacement@,
                    token.spec_text(),
                    a,
                    b,
                ),
                None => false,
            }
        }),
{
    proof {
        assert(diagnostics@.take(diagnostics@.len() as int) =~= diagnostics@);
    }
    if !token.is_greek_word() {
        return ;
    }
    let text = token.text();
    if greek::in_accented_monosyllables(text) {
        return ;
    }
    if doc.is_abbreviation_or_ends_with_dot(token) {
        return ;
    }
    if doc.previous_token_is_num(token) {
        return ;
    }
    if doc.previous_token_is_apostrophe(token) {
        return ;
    }
    let fires = greek::in_extra_monosyllables(text) || (crate::chars::byte_len(text) < 12
        && greek::has_acute_str(text) && !syllables::ends_with_diphthong(text)
        && syllables::num_syllables(text) == 1);
    if fires {
        let without_accent = syllables::remove_acute_at(text, 1);
        let ghost old_len = diagnostics@.len();
        push_token_diag(
            diagnostics,
            doc,
            token,
            Rule::MonosyllableAccented,
            Some(without_accent),
        );
        proof {
            assert(diagnostics@.take(old_len as int) =~= diagnostics@.drop_last());
        }
    }
}

/// The context in which a missing accent on a multisyllable word may be
/// reported: a Greek word outside the allow-lists, not an elided or
/// dot-trailed form, not after a number, not all capitals, and not an
/// acronym or compound. The rule additionally skips words beside an
/// apostrophe and title words before a dash.
pub open spec fn multi_context_ok(doc: &Doc, token: Token) -> bool {
    &&& token.spec_kind() == TokenKind::GreekWord
    &&& !greek::spec_in_correct_unaccented(token.spec_text())
    &&& !spec_abbreviation_or_dot(doc.spec_tokens(), token.spec_index() as int)
    &&& match prev_non_ws(doc.spec_tokens(), token.spec_index() as int) {
        Some(m) => !token_is_num(doc.spec_tokens()[m]),
        None => true,
    }
    &&& !(forall|q: int|
        0 <= q < token.spec_text().len() ==> greek::spec_is_upper(#[trigger] token.spec_text()[q]))
    &&& !(exists|q: int|
        0 <= q < token.spec_text().len() && greek::spec_is_compound_sep(
            #[trigger] token.spec_text()[q],
        ))
}

/// Detect multisyllable words with no accent at all.
///
/// No fix is proposed: where the accent belongs cannot be known. At most
/// one diagnostic is appended, only for a Greek word in a reporting
/// context (see [`multi_context_ok`]).
pub fn multisyllable_not_accented(token: &Token, doc: &Doc, diagnostics: &mut Vec<Diagnostic>)
    requires
        doc.wf(),
        doc.has_token(*token),
    ensures
        final(diagnostics)@.len() <= old(diagnostics)@.len() + 1,
        final(diagnostics)@.len() >= old(diagnostics)@.len(),
        final(diagnostics)@.take(old(diagnostics)@.len() as int) == old(diagnostics)@,
        final(diagnostics)@.len() > old(diagnostics)@.len() ==> multi_context_ok(doc, *token)
            && token_diag_ok(
            final(diagnostics)@.last(),
            doc,
            *token,
            Rule::MultisyllableNotAccented,
        ) && final(diagnostics)@.last().fix is None,
{
    proof {
        assert(diagnostics@.take(diagnostics@.len() as int) =~= diagnostics@);
    }
    if !token.is_greek_word() {
        return ;
    }
    let text = token.text();
    if greek::in_correct_unaccented(text) {
        return ;
    }
    if doc.is_abbreviation_or_ends_with_dot(token) {
        return ;
    }
    if doc.previous_token_is_num(token) {
        return ;
    }
    // All caps is fine: acronyms and emphasis drop accents.
    if greek::all_upper_str(text) {
        return ;
    }
    // Compounds and acronyms with inner separators are skipped.
    if greek::has_compound_sep(text) {
        return ;
    }
    // An apostrophe right before marks elision: skip.
    match doc.prev_token_not_whitespace(token) {
        Some(ptoken) => {
            if ptoken.is_apostrophe_start() {
                return ;
            }
        },
        None => {},
    }
    // An apostrophe right after marks elision; a dash after a title word
    // is also fine.
    match doc.next_token_not_whitespace(token) {
        Some(ntoken) => {
            if ntoken.is_apostrophe_start() {
                return ;
            }
            if ntoken.starts_with_dash() && greek::in_prefix_titles(text) {
                return ;
            }
        },
        None => {},
    }
    if !greek::has_accent_mark_str(text) && syllables::num_syllables(text) > 1 {
        let ghost old_len = diagnostics@.len();
        push_token_diag(diagnostics, doc, token, Rule::MultisyllableNotAccented, None);
        proof {
            assert(diagnostics@.take(old_len as int) =~= diagnostics@.drop_last());
        }
    }
}

} // verus!
