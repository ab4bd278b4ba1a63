use vstd::prelude::*;

verus! {

use crate::chars::{str_eq, str_ends_with};
use crate::diagnostic::Diagnostic;
use crate::greek;
use crate::registry::Rule;
use crate::rules::{push_token_diag, token_diag_ok};
use crate::tokenizer::{Doc, Token, TokenKind, next_non_ws, prev_non_ws};
use vstd::string::StrSliceExecFns;

/// Whether the word opens with a vowel or with a plosive consonant or
/// cluster — the sounds before which the final `ν` is kept.
pub open spec fn spec_starts_with_vowel_or_plosive(s: Seq<char>) -> bool {
    &&& s.len() > 0
    &&& {
        ||| greek::spec_is_greek_vowel(s[0])
        ||| s[0] == 'κ' || s[0] == 'π' || s[0] == 'τ' || s[0] == 'ξ' || s[0] == 'ψ'
        ||| s[0] == 'Κ' || s[0] == 'Π' || s[0] == 'Τ' || s[0] == 'Ξ' || s[0] == 'Ψ'
        ||| (s.len() > 1 && ((s[0] == 'μ' && s[1] == 'π') || (s[0] == 'ν' && s[1] == 'τ') || (s[0]
            == 'γ' && s[1] == 'κ') || (s[0] == 'Μ' && s[1] == 'π') || (s[0] == 'Ν' && s[1] == 'τ')
            || (s[0] == 'Γ' && s[1] == 'κ')))
    }
}

/// Whether the word opens with a vowel or a plosive.
pub fn starts_with_vowel_or_plosive(s: &str) -> (r: bool)
    ensures
        r == spec_starts_with_vowel_or_plosive(s@),
{
    let chars = crate::chars::str_to_chars(s);
    if chars.len() == 0 {
        return false;
    }
    let c = chars[0];
    if greek::is_greek_vowel(c) {
        return true;
    }
    if c == 'κ' || c == 'π' || c == 'τ' || c == 'ξ' || c == 'ψ' || c == 'Κ' || c == 'Π' || c == 'Τ'
        || c == 'Ξ' || c == 'Ψ' {
        return true;
    }
    if chars.len() > 1 {
        let d = chars[1];
        return (c == 'μ' && d == 'π') || (c == 'ν' && d == 'τ') || (c == 'γ' && d == 'κ') || (c
            == 'Μ' && d == 'π') || (c == 'Ν' && d == 'τ') || (c == 'Γ' && d == 'κ');
    }
    false
}

/// When the remove-final-ν rule fires: the token is one of the feminine
/// articles with `ν`, the construction is not the archaic `εις την`, and
/// the nearest following non-whitespace token is a Greek word that does
/// not open with a vowel or a plosive.
pub open spec fn remove_n_here(doc: &Doc, token: Token) -> bool {
    &&& (token.spec_text() == "την"@ || token.spec_text() == "στην"@ || token.spec_text()
        == "Την"@ || token.spec_text() == "Στην"@)
    &&& !(token.spec_text() == "την"@ && match prev_non_ws(
        doc.spec_tokens(),
        token.spec_index() as int,
    ) {
        Some(m) => doc.spec_tokens()[m].spec_text() == "εις"@,
        None => false,
    })
    &&& match next_non_ws(doc.spec_tokens(), token.spec_index() as int) {
        Some(m) => doc.spec_tokens()[m].spec_kind() == TokenKind::GreekWord
            && !spec_starts_with_vowel_or_plosive(doc.spec_tokens()[m].spec_text()),
        None => false,
    }
}

/// Detect a final `ν` that should be dropped, and propose the word
/// without its last letter.
#[verifier::rlimit(60)]
pub fn remove_final_n(token: &Token, doc: &Doc, diagnostics: &mut Vec<Diagnostic>)
    requires
        doc.wf(),
        doc.has_token(*token),
    ensures
        final(diagnostics)@.len() >= old(diagnostics)@.len(),
        final(diagnostics)@.len() <= old(diagnostics)@.len() + 1,
        final(diagnostics)@.take(old(diagnostics)@.len() as int) == old(diagnostics)@,
        final(diagnostics)@.len() == old(diagnostics)@.len() + 1 <==> remove_n_here(doc, *token),
        final(diagnostics)@.len() > old(diagnostics)@.len() ==> token_diag_ok(
            final(diagnostics)@.last(),
            doc,
            *token,
            Rule::RemoveFinalN,
        ) && ({
            let d = final(diagnostics)@.last();
            match d.fix {
                Some(f) => f.replacement@ == token.spec_text().drop_last() && f.range == d.range,
                None => false,
            }
        }),
{
    proof {
        assert(diagnostics@.take(diagnostics@.len() as int) =~= diagnostics@);
        reveal_strlit("την");
        reveal_strlit("στην");
        reveal_strlit("Την");
        reveal_strlit("Στην");
    }
    let text = token.text();
    if !(str_eq(text, "την") || str_eq(text, "στην") || str_eq(text, "Την") || str_eq(
        text,
        "Στην",
    )) {
        return ;
    }
    // The archaic construction "εις την" is treated as valid.
    if str_eq(text, "την") {
        match doc.prev_token_not_whitespace(token) {
            Some(ptoken) => {
                if str_eq(ptoken.text(), "εις") {
                    return ;
                }
            },
            None => {},
        }
    }
    match doc.next_token_not_whitespace(token) {
        Some(ntoken) => {
            if ntoken.is_greek_word() && !starts_with_vowel_or_plosive(ntoken.text()) {
                // Drop the final character of the article.
                let n = crate::chars::str_to_chars(text).len();
                let replacement = text.substring_char(0, n - 1).to_owned();
                proof {
                    assert(token.spec_text().subrange(0, token.spec_text().len() - 1)
                        =~= token.spec_text().drop_last());
                }
                let ghost old_len = diagnostics@.len();
                push_token_diag(diagnostics, doc, token, Rule::RemoveFinalN, Some(replacement));
                proof {
                    assert(diagnostics@.take(old_len as int) =~= diagnostics@.drop_last());
                }
            }
        },
        None => {},
    }
}

/// When the add-final-ν rule fires: the token is one of the feminine
/// articles without `ν`, the construction is not the archaic dative
/// `εν τη`, and the nearest following non-whitespace token opens with a
/// vowel or a plosive and does not end in `ει` (a dative formula).
pub open spec fn add_n_here(doc: &Doc, token: Token) -> bool {
    &&& (token.spec_text() == "τη"@ || token.spec_text() == "στη"@ || token.spec_text() == "Τη"@
        || token.spec_text() == "Στη"@)
    &&& !(token.spec_text() == "τη"@ && match prev_non_ws(
        doc.spec_tokens(),
        token.spec_index() as int,
    ) {
        Some(m) => doc.spec_tokens()[m].spec_text() == "εν"@,
        None => false,
    })
    &&& match next_non_ws(doc.spec_tokens(), token.spec_index() as int) {
        Some(m) => spec_starts_with_vowel_or_plosive(doc.spec_tokens()[m].spec_text()) && !(
        doc.spec_tokens()[m].spec_text().len() >= 2 && doc.spec_tokens()[m].spec_text().skip(
            doc.spec_tokens()[m].spec_text().len() - 2,
        ) == "ει"@),
        None => false,
    }
}

/// Detect a missing final `ν`, and propose the word with `ν` appended.
#[verifier::rlimit(60)]
pub fn add_final_n(token: &Token, doc: &Doc, diagnostics: &mut Vec<Diagnostic>)
    requires
        doc.wf(),
        doc.has_token(*token),
    ensures
        final(diagnostics)@.len() >= old(diagnostics)@.len(),
        final(diagnostics)@.len() <= old(diagnostics)@.len() + 1,
        final(diagnostics)@.take(old(diagnostics)@.len() as int) == old(diagnostics)@,
        final(diagnostics)@.len() == old(diagnostics)@.len() + 1 <==> add_n_here(doc, *token),
        final(diagnostics)@.len() > old(diagnostics)@.len() ==> token_diag_ok(
            final(diagnostics)@.last(),
            doc,
            *token,
            Rule::AddFinalN,
        ) && ({
            let d = final(diagnostics)@.last();
            match d.fix {
                Some(f) => f.replacement@ == token.spec_text().push('ν') && f.range == d.range,
                None => false,
            }
        }),
{
    proof {
        assert(diagnostics@.take(diagnostics@.len() as int) =~= diagnostics@);
        reveal_strlit("ει");
    }
    let text = token.text();
    if !(str_eq(text, "τη") || str_eq(text, "στη") || str_eq(text, "Τη") || str_eq(text, "Στη")) {
        return ;
    }
    // The archaic dative construction "εν τη" is treated as valid.
    if str_eq(text, "τη") {
        match doc.prev_token_not_whitespace(token) {
            Some(ptoken) => {
                if str_eq(ptoken.text(), "εν") {
                    return ;
                }
            },
            None => {},
        }
    }
    match doc.next_token_not_whitespace(token) {
        Some(ntoken) => {
            // Formal dative expressions (επί τη εμφανίσει) end in ει;
            // avoiding them trades false negatives for false positives.
            if starts_with_vowel_or_plosive(ntoken.text()) && !str_ends_with(ntoken.text(), "ει") {
                let mut replacement = text.to_owned();
                crate::chars::push_char(&mut replacement, 'ν');
                let ghost old_len = diagnostics@.len();
                push_token_diag(diagnostics, doc, token, Rule::AddFinalN, Some(replacement));
                proof {
                    assert(diagnostics@.take(old_len as int) =~= diagnostics@.drop_last());
                }
            }
        },
        None => {},
    }
}

} // verus!
