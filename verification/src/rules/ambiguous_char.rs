use vstd::prelude::*;

verus! {

use crate::chars::{blen, byte_offsets, byte_len, char_blen, str_to_chars, is_boundary};
use crate::diagnostic::{Diagnostic, Fix, diag_wf};
use crate::range::TextRange;
use crate::registry::Rule;

/// The micro sign, which sometimes stands in for the Greek letter mu.
pub open spec fn spec_micro() -> char {
    '\u{00B5}'
}

/// Detect the first micro sign in the text, and propose the Greek small
/// letter mu in its place. One diagnostic at most, at the first
/// occurrence.
pub fn ambiguous_char(text: &str, diagnostics: &mut Vec<Diagnostic>)
    ensures
        final(diagnostics)@.len() >= old(diagnostics)@.len(),
        final(diagnostics)@.len() <= old(diagnostics)@.len() + 1,
        final(diagnostics)@.take(old(diagnostics)@.len() as int) == old(diagnostics)@,
        (final(diagnostics)@.len() == old(diagnostics)@.len() + 1) <==> (exists|q: int|
            0 <= q < text@.len() && text@[q] == spec_micro()),
        final(diagnostics)@.len() > old(diagnostics)@.len() ==> {
            let d = final(diagnostics)@.last();
            &&& diag_wf(d, text@)
            &&& d.kind == Rule::AmbiguousChar
            &&& exists|q: int|
                0 <= q < text@.len() && #[trigger] text@[q] == spec_micro() && (forall|p: int|
                    0 <= p < q ==> text@[p] != spec_micro()) && d.range.spec_start() == blen(
                    text@.take(q),
                ) && d.range.spec_end() == blen(text@.take(q + 1))
            &&& match d.fix {
                Some(f) => f.replacement@ == "μ"@ && f.range == d.range,
                None => false,
            }
        },
{
    proof {
        assert(diagnostics@.take(diagnostics@.len() as int) =~= diagnostics@);
    }
    let total = byte_len(text);
    let chars = str_to_chars(text);
    let offs = byte_offsets(&chars);
    let n = chars.len();
    let mut q: usize = 0;
    while q < n
        invariant
            n == chars@.len(),
            chars@ == text@,
            blen(text@) <= usize::MAX,
            offs@.len() == n + 1,
            forall|k: int| 0 <= k <= n ==> #[trigger] offs@[k] == blen(text@.take(k)),
            q <= n,
            diagnostics@ == old(diagnostics)@,
            forall|p: int| 0 <= p < q ==> text@[p] != spec_micro(),
        decreases n - q,
    {
        if chars[q] == '\u{00B5}' {
            let start = offs[q];
            let end = offs[q + 1];
            proof {
                crate::chars::lemma_blen_take_le(text@, q + 1 as int);
                crate::chars::lemma_blen_strict_mono(text@, q as int, q + 1 as int);
                assert(is_boundary(text@, start as int)) by {
                    assert(0 <= q as int <= text@.len() && blen(text@.take(q as int))
                        == start as int);
                }
                assert(is_boundary(text@, end as int)) by {
                    assert(0 <= q + 1 as int <= text@.len() && blen(text@.take(q + 1 as int))
                        == end as int);
                }
            }
            let range = TextRange::new(start, end);
            let d = Diagnostic {
                kind: Rule::AmbiguousChar,
                range,
                fix: Some(Fix { replacement: "μ".to_owned(), range }),
            };
            let ghost old_len = diagnostics@.len();
            diagnostics.push(d);
            proof {
                assert(diagnostics@.take(old_len as int) =~= diagnostics@.drop_last());
            }
            return ;
        }
        q += 1;
    }
}

} // verus!
