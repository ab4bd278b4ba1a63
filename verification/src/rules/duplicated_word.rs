use vstd::prelude::*;

verus! {

use crate::chars::blen;
use crate::diagnostic::{Diagnostic, diag_wf};
use crate::greek;
use crate::range::TextRange;
use crate::registry::Rule;
use crate::tokenizer::{Doc, Token, next_non_ws, lemma_token_boundaries, lemma_token_order};

/// When the duplicated-word rule fires: the token's text is at least
/// three bytes, it is not a commonly doubled word nor a weak pronoun, and
/// the nearest following non-whitespace token carries exactly the same
/// text.
pub open spec fn duplicated_here(doc: &Doc, token: Token) -> bool {
    &&& blen(token.spec_text()) >= 3
    &&& !greek::spec_in_duplication_expressions(token.spec_text())
    &&& !greek::spec_in_pronouns_lowercase(token.spec_text())
    &&& match next_non_ws(doc.spec_tokens(), token.spec_index() as int) {
        Some(m) => doc.spec_tokens()[m].spec_text() == token.spec_text(),
        None => false,
    }
}

/// Detect duplicated words.
///
/// The diagnostic spans from the start of the first occurrence to the end
/// of the second. It is unfixable: removing the double word may not be
/// the intent — sometimes punctuation is what is missing.
pub fn duplicated_word(token: &Token, doc: &Doc, diagnostics: &mut Vec<Diagnostic>)
    requires
        doc.wf(),
        doc.has_token(*token),
    ensures
        final(diagnostics)@.len() >= old(diagnostics)@.len(),
        final(diagnostics)@.take(old(diagnostics)@.len() as int) == old(diagnostics)@,
        final(diagnostics)@.len() == old(diagnostics)@.len() + 1 <==> duplicated_here(doc, *token),
        final(diagnostics)@.len() <= old(diagnostics)@.len() + 1,
        final(diagnostics)@.len() > old(diagnostics)@.len() ==> {
            let d = final(diagnostics)@.last();
            &&& diag_wf(d, doc.spec_text())
            &&& d.kind == Rule::DuplicatedWord
            &&& d.fix is None
            &&& d.range.spec_start() == token.spec_offset()
            &&& match next_non_ws(doc.spec_tokens(), token.spec_index() as int) {
                Some(m) => d.range.spec_end() == doc.spec_tokens()[m].spec_offset() + blen(
                    doc.spec_tokens()[m].spec_text(),
                ),
                None => false,
            }
        },
{
    proof {
        assert(diagnostics@.take(diagnostics@.len() as int) =~= diagnostics@);
    }
    let text = token.text();
    // One-letter repetitions (s p a c i n g) and common doubled
    // expressions are no error.
    if crate::chars::byte_len(text) < 3 {
        return ;
    }
    if greek::in_duplication_expressions(text) {
        return ;
    }
    if greek::in_pronouns_lowercase(text) {
        return ;
    }
    match doc.next_token_not_whitespace(token) {
        Some(ntoken) => {
            if crate::chars::str_eq(token.text(), ntoken.text()) {
                proof {
                    crate::tokenizer::lemma_next_non_ws(
                        doc.spec_tokens(),
                        token.spec_index() as int,
                    );
                    lemma_token_boundaries(doc, *token);
                    lemma_token_boundaries(doc, *ntoken);
                    lemma_token_order(
                        doc,
                        token.spec_index() as int,
                        ntoken.spec_index() as int,
                    );
                }
                let start = token.range().start();
                let end = ntoken.range().end();
                let range = TextRange::new(start, end);
                let d = Diagnostic { kind: Rule::DuplicatedWord, range, fix: None };
                let ghost old_len = diagnostics@.len();
                diagnostics.push(d);
                proof {
                    assert(diagnostics@.take(old_len as int) =~= diagnostics@.drop_last());
                }
            }
        },
        None => {},
    }
}

} // verus!
