use vstd::prelude::*;

// Rules over tokens and their document context.
mod accents;
mod duplicated_word;
mod final_n;
mod forbidden_accent;
mod missing_accent_capital;
mod missing_double_accents;
mod mixed_scripts;
mod punctuation;

// Rules over the raw text.
mod ambiguous_char;
mod forbidden_char;
mod outdated_spelling;

pub use accents::{monosyllable_accented, multisyllable_not_accented};
pub use duplicated_word::{duplicated_here, duplicated_word};
pub use final_n::{add_final_n, add_n_here, remove_final_n, remove_n_here};
pub use forbidden_accent::{forbidden_accent, forbidden_double_accent};
pub use missing_accent_capital::missing_accent_capital;
pub use missing_double_accents::missing_double_accents;
pub use mixed_scripts::mixed_scripts;
pub use punctuation::punctuation;

pub use ambiguous_char::{ambiguous_char, spec_micro};
pub use forbidden_char::{forbidden_char, forbidden_pair_at};
pub use outdated_spelling::{lemma_outdated_patterns_nonempty, outdated_diag_ok, outdated_spelling};

verus! {

use crate::chars::blen;
use crate::diagnostic::{Diagnostic, Fix, diag_wf};
use crate::registry::Rule;
use crate::tokenizer::{Doc, Token, lemma_token_boundaries};

/// What every diagnostic a token rule reports looks like: well formed
/// against the document's text, displayed at the token's own byte range,
/// and fixed — when a fix is proposed — at that same range.
pub open spec fn token_diag_ok(d: Diagnostic, doc: &Doc, token: Token, kind: Rule) -> bool {
    &&& diag_wf(d, doc.spec_text())
    &&& d.kind == kind
    &&& d.range.spec_start() == token.spec_offset()
    &&& d.range.spec_end() == token.spec_offset() + blen(token.spec_text())
}

/// Append one diagnostic at the token's own range, carrying `replacement`
/// as its fix when one is given.
pub(crate) fn push_token_diag(
    diagnostics: &mut Vec<Diagnostic>,
    doc: &Doc,
    token: &Token,
    kind: Rule,
    replacement: Option<String>,
)
    requires
        doc.wf(),
        doc.has_token(*token),
        replacement is Some ==> kind.spec_has_fix(),
    ensures
        final(diagnostics)@.len() == old(diagnostics)@.len() + 1,
        final(diagnostics)@.drop_last() == old(diagnostics)@,
        token_diag_ok(final(diagnostics)@.last(), doc, *token, kind),
        ({
            let d = final(diagnostics)@.last();
            match (replacement, d.fix) {
                (Some(rep), Some(f)) => f.replacement == rep && f.range == d.range,
                (None, None) => true,
                _ => false,
            }
        }),
{
    proof {
        lemma_token_boundaries(doc, *token);
    }
    let range = token.range();
    let fix = match replacement {
        Some(rep) => Some(Fix { replacement: rep, range }),
        None => None,
    };
    let d = Diagnostic { kind, range, fix };
    diagnostics.push(d);
    proof {
        assert(diagnostics@.drop_last() =~= old(diagnostics)@);
    }
}

} // verus!
