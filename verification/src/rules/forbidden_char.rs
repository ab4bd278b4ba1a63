use vstd::prelude::*;

verus! {

use crate::chars::{blen, byte_offsets, byte_len, str_to_chars, is_boundary};
use crate::diagnostic::{Diagnostic, diag_wf};
use crate::greek;
use crate::range::TextRange;
use crate::registry::Rule;

/// Whether the character pair at `q` is forbidden: a final sigma directly
/// followed by a Greek letter. It marks either a sigma confusion
/// (πιςτεύοντας) or a missing space (πιστεύονταςτην).
pub open spec fn forbidden_pair_at(s: Seq<char>, q: int) -> bool {
    0 <= q < s.len() - 1 && s[q] == 'ς' && greek::spec_is_greek_letter(s[q + 1])
}

/// A forbidden-character diagnostic for the pair at `q`: displayed at the
/// sigma's own byte range, with no fix.
pub open spec fn forbidden_diag_at(d: Diagnostic, s: Seq<char>, q: int) -> bool {
    &&& forbidden_pair_at(s, q)
    &&& d.kind == Rule::ForbiddenChar
    &&& d.fix is None
    &&& d.range.spec_start() == blen(s.take(q))
    &&& d.range.spec_end() == blen(s.take(q + 1))
}

/// Detect every final sigma that is not in final position: one diagnostic
/// per forbidden pair, at the sigma's own byte range, and none besides.
/// No fix: the intent cannot be known.
pub fn forbidden_char(text: &str, diagnostics: &mut Vec<Diagnostic>)
    ensures
        final(diagnostics)@.len() >= old(diagnostics)@.len(),
        final(diagnostics)@.take(old(diagnostics)@.len() as int) == old(diagnostics)@,
        (final(diagnostics)@.len() > old(diagnostics)@.len()) <==> (exists|q: int|
            forbidden_pair_at(text@, q)),
        forall|k: int|
            old(diagnostics)@.len() <= k < final(diagnostics)@.len() ==> diag_wf(
                #[trigger] final(diagnostics)@[k],
                text@,
            ) && (exists|q: int| forbidden_diag_at(final(diagnostics)@[k], text@, q)),
        forall|q: int|
            #[trigger] forbidden_pair_at(text@, q) ==> exists|k: int|
                old(diagnostics)@.len() <= k < final(diagnostics)@.len() && forbidden_diag_at(
                    #[trigger] final(diagnostics)@[k],
                    text@,
                    q,
                ),
{
    proof {
        assert(diagnostics@.take(diagnostics@.len() as int) =~= diagnostics@);
    }
    let total = byte_len(text);
    let chars = str_to_chars(text);
    let offs = byte_offsets(&chars);
    let n = chars.len();
    let ghost old_diags = diagnostics@;
    let mut q: usize = 0;
    while q < n
        invariant
            q <= n,
            n == chars@.len(),
            chars@ == text@,
            blen(text@) <= usize::MAX,
            offs@.len() == n + 1,
            forall|k: int| 0 <= k <= n ==> #[trigger] offs@[k] == blen(text@.take(k)),
            diagnostics@.len() >= old_diags.len(),
            diagnostics@.take(old_diags.len() as int) == old_diags,
            (diagnostics@.len() > old_diags.len()) <==> (exists|p: int|
                p < q && forbidden_pair_at(text@, p)),
            forall|k: int|
                old_diags.len() <= k < diagnostics@.len() ==> diag_wf(
                    #[trigger] diagnostics@[k],
                    text@,
                ) && (exists|p: int| forbidden_diag_at(diagnostics@[k], text@, p)),
            forall|p: int|
                p < q && #[trigger] forbidden_pair_at(text@, p) ==> exists|k: int|
                    old_diags.len() <= k < diagnostics@.len() && forbidden_diag_at(
                        #[trigger] diagnostics@[k],
                        text@,
                        p,
                    ),
        decreases n - q,
    {
        if q + 1 < n && chars[q] == 'ς' && greek::is_greek_letter(chars[q + 1]) {
            let start = offs[q];
            let end = offs[q + 1];
            proof {
                crate::chars::lemma_blen_take_le(text@, q + 1 as int);
                assert(is_boundary(text@, start as int)) by {
                    assert(0 <= q as int <= text@.len() && blen(text@.take(q as int))
                        == start as int);
                }
                assert(is_boundary(text@, end as int)) by {
                    assert(0 <= q + 1 as int <= text@.len() && blen(text@.take(q + 1 as int))
                        == end as int);
                }
                crate::chars::lemma_blen_strict_mono(text@, q as int, q + 1 as int);
            }
            let range = TextRange::new(start, end);
            let d = Diagnostic { kind: Rule::ForbiddenChar, range, fix: None };
            let ghost before = diagnostics@;
            diagnostics.push(d);
            proof {
                assert(forbidden_pair_at(text@, q as int));
                assert(diagnostics@.take(old_diags.len() as int) =~= before.take(
                    old_diags.len() as int,
                ));
                assert(forbidden_diag_at(d, text@, q as int));
                assert(diagnostics@[diagnostics@.len() - 1] == d);
                assert forall|p: int|
                    p < q + 1 && #[trigger] forbidden_pair_at(text@, p) implies exists|k: int|
                    old_diags.len() <= k < diagnostics@.len() && forbidden_diag_at(
                        #[trigger] diagnostics@[k],
                        text@,
                        p,
                    ) by {
                    if p < q {
                        let k0 = choose|k: int|
                            old_diags.len() <= k < before.len() && forbidden_diag_at(
                                #[trigger] before[k],
                                text@,
                                p,
                            );
                        assert(diagnostics@[k0] == before[k0]);
                        assert(forbidden_diag_at(diagnostics@[k0], text@, p));
                    } else {
                        assert(forbidden_diag_at(diagnostics@[diagnostics@.len() - 1], text@, p));
                    }
                }
            }
        }
        q += 1;
    }
}

} // verus!
