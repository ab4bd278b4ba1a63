// While rare, this logic has false positives, e.g.
// και το κτήριο του, παλαιού πλέον, Μουσείου Ακρόπολης.
use vstd::prelude::*;

verus! {

use crate::chars::{str_eq, str_ends_with, str_starts_with, str_to_chars};
use crate::diagnostic::Diagnostic;
use crate::greek;
use crate::registry::Rule;
use crate::rules::{push_token_diag, token_diag_ok};
use crate::syllables;
use crate::tokenizer::{Doc, Token, TokenKind, next_non_ws};
use vstd::string::StrSliceExecFns;

/// The punctuation that leaves it open whether the pronoun is weak, so no
/// error may be reported after it.
fn starts_ambiguous_punct(s: &str) -> bool {
    str_starts_with(s, "...") || str_starts_with(s, "…") || str_starts_with(s, "«")
        || str_starts_with(s, "\"") || str_starts_with(s, "“") || str_starts_with(s, "[")
        || str_starts_with(s, "]") || str_starts_with(s, "{") || str_starts_with(s, "}")
        || str_starts_with(s, "(") || str_starts_with(s, ")") || str_starts_with(s, "*")
        || str_starts_with(s, "<") || str_starts_with(s, "#") || str_starts_with(s, ":")
        || str_starts_with(s, "-") || str_starts_with(s, "~")
}

/// Extract the lemma of a word: strip any final `ν` and a diminishing
/// `παλιο` prefix, so the syllabification sees the base form.
fn lemmatize(s: &str) -> (r: String)
    ensures
        r@.len() <= s@.len(),
{
    let chars = str_to_chars(s);
    let mut e: usize = chars.len();
    while e > 0 && chars[e - 1] == 'ν'
        invariant
            e <= chars@.len(),
        decreases e,
    {
        e -= 1;
    }
    let head = s.substring_char(0, e);
    let mut b: usize = 0;
    let hc = str_to_chars(head);
    while e - b >= 5 && hc[b] == 'π' && hc[b + 1] == 'α' && hc[b + 2] == 'λ' && hc[b + 3] == 'ι'
        && hc[b + 4] == 'ο'
        invariant
            b <= e,
            hc@.len() == e,
            hc@ == s@.take(e as int),
        decreases e - b,
    {
        b += 5;
    }
    head.substring_char(b, e).to_owned()
}

/// Whether the only acute accent of the word sits on the third syllable
/// from the end.
pub fn is_proparoxytone_strict(word: &str) -> bool {
    let chars = str_to_chars(word);
    let pos = syllables::acute_positions(&chars);
    pos.len() == 1 && pos[0] == 3
}

/// The context in which a missing double accent can be reported: the
/// token is a Greek word, the nearest following non-whitespace token is a
/// weak pronoun (not punctuation), and the word is not of doubtful
/// pronunciation, a diminutive, or bracket-ridden markup.
pub open spec fn mda_context_ok(doc: &Doc, token: Token) -> bool {
    &&& token.spec_kind() == TokenKind::GreekWord
    &&& match next_non_ws(doc.spec_tokens(), token.spec_index() as int) {
        Some(m) => doc.spec_tokens()[m].spec_kind() != TokenKind::Punctuation
            && greek::spec_in_pronouns_lowercase(doc.spec_tokens()[m].spec_text()),
        None => false,
    }
    &&& !greek::spec_in_multiple_pronunciation(token.spec_text())
}

/// Detect a proparoxytone word that needs a second accent before a weak
/// pronoun, and propose the word with an acute added to its last
/// syllable.
#[verifier::rlimit(60)]
pub fn missing_double_accents(token: &Token, doc: &Doc, diagnostics: &mut Vec<Diagnostic>)
    requires
        doc.wf(),
        doc.has_token(*token),
    ensures
        final(diagnostics)@.len() >= old(diagnostics)@.len(),
        final(diagnostics)@.len() <= old(diagnostics)@.len() + 1,
        final(diagnostics)@.take(old(diagnostics)@.len() as int) == old(diagnostics)@,
        final(diagnostics)@.len() > old(diagnostics)@.len() ==> mda_context_ok(doc, *token)
            && token_diag_ok(
            final(diagnostics)@.last(),
            doc,
            *token,
            Rule::MissingDoubleAccents,
        ) && ({
            let d = final(diagnostics)@.last();
            match d.fix {
                Some(f) => f.range == d.range && f.replacement@.len() == token.spec_text().len()
                    && syllables::accent_update(f.replacement@, token.spec_text()),
                None => false,
            }
        }),
{
    proof {
        assert(diagnostics@.take(diagnostics@.len() as int) =~= diagnostics@);
    }
    if !token.is_greek_word() {
        return ;
    }
    let text = token.text();
    // For an error to exist, the next token must be a weak pronoun.
    let ntoken = match doc.next_token_not_whitespace(token) {
        Some(t) => t,
        None => { return ; },
    };
    if ntoken.is_punctuation() || !greek::in_pronouns_lowercase(ntoken.text()) {
        return ;
    }
    if greek::in_multiple_pronunciation(text) {
        return ;
    }
    // Diminutives are not handled.
    if str_ends_with(text, "άκια") || str_ends_with(text, "ούλια") {
        return ;
    }
    if greek::has_compound_sep(text) {
        return ;
    }
    // The shape of what follows the pronoun decides whether the pronoun
    // must have been weak.
    let nntoken = match doc.next_token_not_whitespace(ntoken) {
        Some(t) => t,
        None => { return ; },
    };
    let fires: bool;
    if nntoken.is_punctuation() {
        let nchars = str_to_chars(nntoken.text());
        if nchars.len() == 0 {
            return ;
        }
        let fst = nchars[0];
        // A period or comma right after indicates the error; an ellipsis,
        // quotation mark, apostrophe or digit leaves it ambiguous.
        fires = !starts_ambiguous_punct(nntoken.text()) && !greek::is_apostrophe(fst)
            && !crate::chars::is_ascii_digit_char(fst);
    } else if greek::in_separator_words(nntoken.text()) || str_eq(ntoken.text(), nntoken.text())
        || greek::in_se_to_compounds(nntoken.text()) || nntoken.is_elliptic_abbreviation() {
        fires = true;
    } else if str_eq(nntoken.text(), "να") && !str_eq(ntoken.text(), "το") && !str_eq(
        ntoken.text(),
        "του",
    ) {
        // Ex. Άφησε τον να βρει μόνος του: only το and του stay ambiguous.
        fires = true;
    } else if str_eq(nntoken.text(), "πως") && !str_eq(ntoken.text(), "το") && !str_eq(
        ntoken.text(),
        "του",
    ) {
        // Ex. βεβαίωσε τον πως μόνος ο δρόμος: πως may be misspelled πώς
        // only near το and του.
        fires = true;
    } else {
        fires = false;
    }
    if !fires {
        return ;
    }
    let lemma = lemmatize(text);
    if is_proparoxytone_strict(lemma.as_str()) {
        let replacement = syllables::add_acute_at(text, 1);
        let ghost old_len = diagnostics@.len();
        push_token_diag(diagnostics, doc, token, Rule::MissingDoubleAccents, Some(replacement));
        proof {
            assert(diagnostics@.take(old_len as int) =~= diagnostics@.drop_last());
        }
    }
}

} // verus!
