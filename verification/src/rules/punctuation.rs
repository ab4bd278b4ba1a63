// Common error patterns like μ'αυτό or ν'αγαπάς: no space after the
// apostrophe. It may false-positive when the apostrophe elides a vowel
// inside a word, but that is rare. It leans on the tokenization keeping
// such forms as one word token.
use vstd::prelude::*;

verus! {

use crate::chars::{push_char, str_eq, str_to_chars};
use crate::diagnostic::Diagnostic;
use crate::greek;
use crate::registry::Rule;
use crate::rules::{push_token_diag, token_diag_ok};
use crate::tokenizer::{Doc, Token};
use vstd::string::StrSliceExecFns;

/// The lower-case prefixes before an elision apostrophe that mark the
/// pattern as the common misspelling.
pub open spec fn spec_elision_prefix(s: Seq<char>) -> bool {
    s == "ν"@ || s == "μ"@ || s == "σ"@ || s == "τ"@ || s == "ουδ"@ || s == "κ"@
}

/// Whether the lower-cased string is one of the elision prefixes.
fn is_elision_prefix(s: &str) -> (r: bool)
    ensures
        r == spec_elision_prefix(s@),
{
    str_eq(s, "ν") || str_eq(s, "μ") || str_eq(s, "σ") || str_eq(s, "τ") || str_eq(s, "ουδ")
        || str_eq(s, "κ")
}

/// The characters mapped to lower case, one for one.
pub open spec fn lower_seq(s: Seq<char>) -> Seq<char> {
    Seq::new(s.len(), |i: int| greek::spec_to_lower(s[i]))
}

/// When the rule fires on a token's text: its first apostrophe-class
/// character exists and what stands before it lower-cases to one of the
/// elision prefixes.
pub open spec fn punctuation_here(txt: Seq<char>) -> bool {
    exists|q: int|
        {
            &&& 0 <= q < txt.len()
            &&& greek::spec_is_apostrophe(#[trigger] txt[q])
            &&& (forall|p: int| 0 <= p < q ==> !greek::spec_is_apostrophe(#[trigger] txt[p]))
            &&& spec_elision_prefix(lower_seq(txt.take(q)))
        }
}

/// Detect a missing space after an elision apostrophe inside one token,
/// and propose the token with exactly one space inserted after the
/// apostrophe.
pub fn punctuation(token: &Token, doc: &Doc, diagnostics: &mut Vec<Diagnostic>)
    requires
        doc.wf(),
        doc.has_token(*token),
    ensures
        final(diagnostics)@.len() >= old(diagnostics)@.len(),
        final(diagnostics)@.len() <= old(diagnostics)@.len() + 1,
        final(diagnostics)@.take(old(diagnostics)@.len() as int) == old(diagnostics)@,
        final(diagnostics)@.len() == old(diagnostics)@.len() + 1 <==> punctuation_here(
            token.spec_text(),
        ),
        final(diagnostics)@.len() > old(diagnostics)@.len() ==> token_diag_ok(
            final(diagnostics)@.last(),
            doc,
            *token,
            Rule::Punctuation,
        ) && ({
            let d = final(diagnostics)@.last();
            match d.fix {
                Some(f) => f.range == d.range && exists|q: int|
                    {
                        &&& 0 <= q < token.spec_text().len()
                        &&& greek::spec_is_apostrophe(#[trigger] token.spec_text()[q])
                        &&& (forall|p: int|
                            0 <= p < q ==> !greek::spec_is_apostrophe(
                                #[trigger] token.spec_text()[p],
                            ))
                        &&& f.replacement@ == token.spec_text().take(q + 1) + seq![' ']
                            + token.spec_text().skip(q + 1)
                    },
                None => false,
            }
        }),
{
    proof {
        assert(diagnostics@.take(diagnostics@.len() as int) =~= diagnostics@);
    }
    let text = token.text();
    let chars = str_to_chars(text);
    // Find the first apostrophe-class character.
    let mut q: usize = 0;
    let n = chars.len();
    while q < n
        invariant
            doc.wf(),
            doc.has_token(*token),
            q <= n,
            n == chars@.len(),
            chars@ == token.spec_text(),
            text@ == token.spec_text(),
            diagnostics@ == old(diagnostics)@,
            forall|p: int| 0 <= p < q ==> !greek::spec_is_apostrophe(#[trigger] chars@[p]),
        decreases n - q,
    {
        if greek::is_apostrophe(chars[q]) {
            let fst = text.substring_char(0, q);
            let lowered = greek::to_lower_str(fst);
            proof {
                assert(lowered@ =~= lower_seq(token.spec_text().take(q as int)));
            }
            if !is_elision_prefix(lowered.as_str()) {
                proof {
                    // The first apostrophe is the only candidate, and its
                    // prefix is not an elision.
                    assert forall|q2: int|
                        0 <= q2 < token.spec_text().len() && greek::spec_is_apostrophe(
                            #[trigger] token.spec_text()[q2],
                        ) && (forall|p: int|
                            0 <= p < q2 ==> !greek::spec_is_apostrophe(
                                #[trigger] token.spec_text()[p],
                            )) implies !spec_elision_prefix(
                        lower_seq(token.spec_text().take(q2)),
                    ) by {
                        assert(q2 == q as int);
                    }
                }
                return ;
            }
            // Rebuild the token with one space after the apostrophe.
            let mut replacement = fst.to_owned();
            push_char(&mut replacement, chars[q]);
            push_char(&mut replacement, ' ');
            let tail = text.substring_char(q + 1, n).to_owned();
            let replacement = replacement.concat(tail.as_str());
            proof {
                assert(token.spec_text().take(q as int).push(token.spec_text()[q as int])
                    =~= token.spec_text().take(q + 1));
                assert(replacement@ =~= token.spec_text().take(q + 1) + seq![' ']
                    + token.spec_text().skip(q + 1));
                assert(punctuation_here(token.spec_text()));
            }
            let ghost old_len = diagnostics@.len();
            push_token_diag(diagnostics, doc, token, Rule::Punctuation, Some(replacement));
            proof {
                assert(diagnostics@.take(old_len as int) =~= diagnostics@.drop_last());
            }
            return ;
        }
        q += 1;
    }
    proof {
        // No apostrophe anywhere: the rule cannot fire.
        assert(!punctuation_here(token.spec_text()));
    }
}

} // verus!
