use vstd::prelude::*;

verus! {

use vstd::string::{StrSliceExecFns, StringExecFns};
use crate::chars::{
    blen, str_to_chars, byte_offsets, spec_is_whitespace, is_whitespace_char, alphabetic,
    is_alphabetic_char, lemma_blen_prefix_plus, lemma_blen_take_le,
};
use crate::greek::spec_is_greek_word;
use crate::range::TextRange;

/// The classification of a token.
#[derive(Debug, Clone, Copy, PartialEq, Eq, Hash, Structural)]
pub enum TokenKind {
    /// Any whitespace character sequence.
    Whitespace,
    /// A word.
    Word,
    /// A Greek word.
    GreekWord,
    /// Punctuation token.
    Punctuation,
}

/// One classified, byte-ranged span of the source text.
#[derive(Debug, Clone)]
pub struct Token {
    /// Text value of the token.
    text: String,
    /// Index in the Doc.
    index: usize,
    /// Start byte of the text in the source.
    offset: usize,
    kind: TokenKind,
}

impl Token {
    /// The characters of the token.
    pub closed spec fn spec_text(&self) -> Seq<char> {
        self.text@
    }

    /// The position of the token in its document.
    pub closed spec fn spec_index(&self) -> usize {
        self.index
    }

    /// The start byte of the token in the source text.
    pub closed spec fn spec_offset(&self) -> usize {
        self.offset
    }

    /// The classification of the token.
    pub closed spec fn spec_kind(&self) -> TokenKind {
        self.kind
    }

    /// The token's byte range stays within machine bounds.
    pub open spec fn wf(&self) -> bool {
        self.spec_offset() + blen(self.spec_text()) <= usize::MAX
    }

    /// Build a token.
    pub fn new(text: &str, index: usize, offset: usize, kind: TokenKind) -> (t: Self)
        requires
            offset + blen(text@) <= usize::MAX,
        ensures
            t.spec_text() == text@,
            t.spec_index() == index,
            t.spec_offset() == offset,
            t.spec_kind() == kind,
            t.wf(),
    {
        Token { text: text.to_owned(), index, offset, kind }
    }

    /// The text of the token.
    pub fn text(&self) -> (r: &str)
        ensures
            r@ == self.spec_text(),
    {
        self.text.as_str()
    }

    /// The position of the token in its document.
    #[verifier::when_used_as_spec(spec_index)]
    pub fn index(&self) -> (r: usize)
        ensures
            r == self.spec_index(),
    {
        self.index
    }

    /// The classification of the token.
    #[verifier::when_used_as_spec(spec_kind)]
    pub fn kind(&self) -> (r: TokenKind)
        ensures
            r == self.spec_kind(),
    {
        self.kind
    }

    /// Start and end byte of the token.
    pub fn range(&self) -> (r: TextRange)
        requires
            self.wf(),
        ensures
            r.spec_start() == self.spec_offset(),
            r.spec_end() == self.spec_offset() + blen(self.spec_text()),
    {
        let len = crate::chars::byte_len(self.text.as_str());
        TextRange::new(self.offset, self.offset + len)
    }
}

/// Whether a token is a word, Greek or not.
pub open spec fn spec_wordish(t: Token) -> bool {
    t.spec_kind() == TokenKind::Word || t.spec_kind() == TokenKind::GreekWord
}

/// What the characters of a word token look like: non-empty, framed by
/// alphabetic characters, and free of whitespace.
pub open spec fn word_chars_ok(txt: Seq<char>) -> bool {
    &&& txt.len() > 0
    &&& alphabetic(txt[0])
    &&& alphabetic(txt[txt.len() - 1])
    &&& forall|q: int| 0 <= q < txt.len() ==> !spec_is_whitespace(#[trigger] txt[q])
}

/// The characters a token of each kind may hold.
pub open spec fn token_kind_chars_ok(kind: TokenKind, txt: Seq<char>) -> bool {
    match kind {
        TokenKind::Whitespace => forall|q: int|
            0 <= q < txt.len() ==> spec_is_whitespace(#[trigger] txt[q]),
        TokenKind::Punctuation => (forall|q: int|
            0 <= q < txt.len() ==> !spec_is_whitespace(#[trigger] txt[q])) && (forall|q: int|
            0 <= q < txt.len() ==> !alphabetic(#[trigger] txt[q])),
        TokenKind::Word => word_chars_ok(txt) && !spec_is_greek_word(txt),
        TokenKind::GreekWord => word_chars_ok(txt) && spec_is_greek_word(txt),
    }
}

/// One token agrees with its span of the source: its text is that span,
/// its offset is the byte position of the span's start, its index is its
/// position, and its characters fit its kind.
pub open spec fn token_at_ok(t: Token, span: (int, int), s: Seq<char>, k: int) -> bool {
    &&& t.spec_text() == s.subrange(span.0, span.1)
    &&& t.spec_index() == k
    &&& t.spec_offset() == blen(s.take(span.0))
    &&& token_kind_chars_ok(t.spec_kind(), t.spec_text())
}

/// The tokens' spans tile `[0, upto)` of the source exactly: non-empty,
/// contiguous, starting at zero and ending at `upto`, with each token
/// agreeing with its span.
pub open spec fn tokens_wf(ts: Seq<Token>, sp: Seq<(int, int)>, s: Seq<char>, upto: int) -> bool {
    &&& sp.len() == ts.len()
    &&& (ts.len() == 0 ==> upto == 0)
    &&& (ts.len() > 0 ==> sp[0].0 == 0 && sp[ts.len() - 1].1 == upto)
    &&& forall|k: int| 0 <= k < ts.len() ==> 0 <= (#[trigger] sp[k]).0 < sp[k].1 <= s.len()
    &&& forall|k: int| 0 <= k < ts.len() - 1 ==> (#[trigger] sp[k]).1 == sp[k + 1].0
    &&& forall|k: int| 0 <= k < ts.len() ==> token_at_ok(#[trigger] ts[k], sp[k], s, k)
}

/// How the kinds of neighbouring tokens may follow each other: no two
/// adjacent whitespace tokens, no two adjacent punctuation tokens, no two
/// adjacent word tokens, and a punctuation token that trails a word (a
/// suffix) is followed by whitespace or by nothing — so two words always
/// have whitespace between them.
#[verifier::opaque]
pub open spec fn tokens_separated(ts: Seq<Token>) -> bool {
    &&& forall|k: int|
        0 <= k < ts.len() - 1 ==> !((#[trigger] ts[k]).spec_kind() == TokenKind::Whitespace && ts[k
            + 1].spec_kind() == TokenKind::Whitespace)
    &&& forall|k: int|
        0 <= k < ts.len() - 1 ==> !((#[trigger] ts[k]).spec_kind() == TokenKind::Punctuation
            && ts[k + 1].spec_kind() == TokenKind::Punctuation)
    &&& forall|k: int|
        0 <= k < ts.len() - 1 ==> !(spec_wordish(#[trigger] ts[k]) && spec_wordish(ts[k + 1]))
    &&& forall|k: int|
        1 <= k < ts.len() - 1 && (#[trigger] ts[k]).spec_kind() == TokenKind::Punctuation
            && spec_wordish(ts[k - 1]) ==> ts[k + 1].spec_kind() == TokenKind::Whitespace
}

/// An ordered token sequence derived from one text snapshot.
pub struct Doc {
    text: String,
    tokens: Vec<Token>,
    spans: Ghost<Seq<(int, int)>>,
}

impl Doc {
    /// The characters of the source text.
    pub closed spec fn spec_text(&self) -> Seq<char> {
        self.text@
    }

    /// The tokens, in order.
    pub closed spec fn spec_tokens(&self) -> Seq<Token> {
        self.tokens@
    }

    /// The character spans of the tokens in the source text.
    pub closed spec fn spec_spans(&self) -> Seq<(int, int)> {
        self.spans@
    }

    /// The invariant of a document: its tokens tile the whole source text
    /// and classify it (see [`tokens_wf`] and [`tokens_separated`]).
    pub open spec fn wf(&self) -> bool {
        &&& tokens_wf(
            self.spec_tokens(),
            self.spec_spans(),
            self.spec_text(),
            self.spec_text().len() as int,
        )
        &&& tokens_separated(self.spec_tokens())
        &&& blen(self.spec_text()) <= usize::MAX
    }

    /// The source text.
    pub fn text(&self) -> (r: &str)
        ensures
            r@ == self.spec_text(),
    {
        self.text.as_str()
    }

    /// The tokens, in order.
    pub fn tokens(&self) -> (r: &Vec<Token>)
        ensures
            r@ == self.spec_tokens(),
    {
        &self.tokens
    }

    /// How many tokens the document has.
    pub fn len(&self) -> (r: usize)
        ensures
            r == self.spec_tokens().len(),
    {
        self.tokens.len()
    }

    /// The token at `idx`, if there is one.
    pub fn get(&self, idx: usize) -> (r: Option<&Token>)
        ensures
            match r {
                Some(t) => idx < self.spec_tokens().len() && *t == self.spec_tokens()[idx as int],
                None => idx >= self.spec_tokens().len(),
            },
    {
        if idx < self.tokens.len() {
            Some(&self.tokens[idx])
        } else {
            None
        }
    }
}

/// The end of the maximal run of characters starting at `i` whose
/// whiteness equals `ws`.
fn run_end(chars: &Vec<char>, i: usize, ws: bool) -> (j: usize)
    requires
        i < chars@.len(),
        spec_is_whitespace(chars@[i as int]) == ws,
    ensures
        i < j <= chars@.len(),
        forall|k: int| i <= k < j ==> spec_is_whitespace(#[trigger] chars@[k]) == ws,
        j < chars@.len() ==> spec_is_whitespace(chars@[j as int]) != ws,
{
    let n = chars.len();
    let mut j: usize = i + 1;
    while j < n && is_whitespace_char(chars[j]) == ws
        invariant
            n == chars@.len(),
            i < j <= chars@.len(),
            forall|k: int| i <= k < j ==> spec_is_whitespace(#[trigger] chars@[k]) == ws,
        decreases chars@.len() - j,
    {
        j += 1;
    }
    j
}

/// The first alphabetic character in `[i, j)`, if any.
fn first_alpha(chars: &Vec<char>, i: usize, j: usize) -> (r: Option<usize>)
    requires
        i <= j <= chars@.len(),
    ensures
        match r {
            Some(f) => i <= f < j && alphabetic(chars@[f as int]) && forall|k: int|
                i <= k < f ==> !alphabetic(#[trigger] chars@[k]),
            None => forall|k: int| i <= k < j ==> !alphabetic(#[trigger] chars@[k]),
        },
{
    let mut f: usize = i;
    while f < j
        invariant
            i <= f <= j,
            j <= chars@.len(),
            forall|k: int| i <= k < f ==> !alphabetic(#[trigger] chars@[k]),
        decreases j - f,
    {
        if is_alphabetic_char(chars[f]) {
            return Some(f);
        }
        f += 1;
    }
    None
}

/// The last alphabetic character in `[i, j)`, given that one exists at
/// `fa`.
fn last_alpha(chars: &Vec<char>, fa: usize, j: usize) -> (la: usize)
    requires
        fa < j <= chars@.len(),
        alphabetic(chars@[fa as int]),
    ensures
        fa <= la < j,
        alphabetic(chars@[la as int]),
        forall|k: int| la < k < j ==> !alphabetic(#[trigger] chars@[k]),
{
    let mut la: usize = j - 1;
    while la > fa
        invariant
            fa <= la < j,
            j <= chars@.len(),
            forall|k: int| la < k < j ==> !alphabetic(#[trigger] chars@[k]),
        decreases la,
    {
        if is_alphabetic_char(chars[la]) {
            return la;
        }
        la -= 1;
    }
    la
}

/// Pushing one more token keeps the sequence separated, given that the
/// new token fits after the one or two tokens before it.
#[verifier::rlimit(100)]
#[verifier::spinoff_prover]
proof fn lemma_sep_push(ts: Seq<Token>, t: Token)
    requires
        tokens_separated(ts),
        ts.len() > 0 ==> !(ts[ts.len() - 1].spec_kind() == TokenKind::Whitespace && t.spec_kind()
            == TokenKind::Whitespace),
        ts.len() > 0 ==> !(ts[ts.len() - 1].spec_kind() == TokenKind::Punctuation && t.spec_kind()
            == TokenKind::Punctuation),
        ts.len() > 0 ==> !(spec_wordish(ts[ts.len() - 1]) && spec_wordish(t)),
        ts.len() > 1 ==> ((ts[ts.len() - 1].spec_kind() == TokenKind::Punctuation && spec_wordish(
            ts[ts.len() - 2],
        )) ==> t.spec_kind() == TokenKind::Whitespace),
    ensures
        tokens_separated(ts.push(t)),
{
    reveal(tokens_separated);
    let ts2 = ts.push(t);
    assert(forall|k: int| 0 <= k < ts.len() ==> ts2[k] == #[trigger] ts[k]);
    assert(ts2[ts2.len() - 1] == t);
}

/// The empty token sequence is separated.
proof fn lemma_sep_empty()
    ensures
        tokens_separated(Seq::<Token>::empty()),
{
    reveal(tokens_separated);
}

/// Append the token covering `[a, b)` of the text, with byte offset
/// `off`, extending the tiling from `a` to `b`.
fn push_tok(
    tokens: &mut Vec<Token>,
    Ghost(spans): Ghost<Seq<(int, int)>>,
    text: &str,
    off: usize,
    a: usize,
    b: usize,
    kind: TokenKind,
) -> (r: Ghost<Seq<(int, int)>>)
    requires
        tokens_wf(old(tokens)@, spans, text@, a as int),
        a < b <= text@.len(),
        blen(text@) <= usize::MAX,
        off == blen(text@.take(a as int)),
        token_kind_chars_ok(kind, text@.subrange(a as int, b as int)),
    ensures
        tokens_wf(final(tokens)@, r@, text@, b as int),
        final(tokens)@.len() == old(tokens)@.len() + 1,
        final(tokens)@ == old(tokens)@.push(final(tokens)@[final(tokens)@.len() - 1]),
        final(tokens)@[final(tokens)@.len() - 1].spec_kind() == kind,
{
    proof {
        lemma_blen_prefix_plus(text@, a as int, b as int);
        lemma_blen_take_le(text@, b as int);
    }
    let t = text.substring_char(a, b);
    let tok = Token::new(t, tokens.len(), off, kind);
    tokens.push(tok);
    let ghost spans2 = spans.push((a as int, b as int));
    proof {
        let ts = tokens@;
        let s = text@;
        assert forall|k: int| 0 <= k < ts.len() implies token_at_ok(
            #[trigger] ts[k],
            spans2[k],
            s,
            k,
        ) by {
            if k < ts.len() - 1 {
                assert(token_at_ok(ts[k], spans[k], s, k));
            }
        }
        assert(tokens_wf(ts, spans2, s, b as int));
    }
    Ghost(spans2)
}

/// The characters of `[a, b)` fit a punctuation token, given that none
/// of them is whitespace or alphabetic.
proof fn lemma_punct_chars(s: Seq<char>, a: int, b: int)
    requires
        0 <= a <= b <= s.len(),
        forall|k: int| a <= k < b ==> !spec_is_whitespace(#[trigger] s[k]),
        forall|k: int| a <= k < b ==> !alphabetic(#[trigger] s[k]),
    ensures
        token_kind_chars_ok(TokenKind::Punctuation, s.subrange(a, b)),
{
    let txt = s.subrange(a, b);
    assert forall|q: int| 0 <= q < txt.len() implies !spec_is_whitespace(#[trigger] txt[q])
        && !alphabetic(txt[q]) by {
        assert(txt[q] == s[a + q]);
    }
}

/// Handle one maximal whitespace run `[i, j)`: push its single token.
fn handle_ws_run(
    tokens: &mut Vec<Token>,
    Ghost(spans): Ghost<Seq<(int, int)>>,
    text: &str,
    off: usize,
    i: usize,
    j: usize,
) -> (r: Ghost<Seq<(int, int)>>)
    requires
        tokens_wf(old(tokens)@, spans, text@, i as int),
        tokens_separated(old(tokens)@),
        i < j <= text@.len(),
        blen(text@) <= usize::MAX,
        off == blen(text@.take(i as int)),
        forall|k: int| i <= k < j ==> spec_is_whitespace(#[trigger] text@[k]),
        old(tokens)@.len() > 0 ==> old(tokens)@[old(tokens)@.len() - 1].spec_kind()
            != TokenKind::Whitespace,
    ensures
        tokens_wf(final(tokens)@, r@, text@, j as int),
        tokens_separated(final(tokens)@),
        final(tokens)@.len() > 0,
        final(tokens)@[final(tokens)@.len() - 1].spec_kind() == TokenKind::Whitespace,
{
    proof {
        assert(token_kind_chars_ok(
            TokenKind::Whitespace,
            text@.subrange(i as int, j as int),
        )) by {
            assert forall|q: int|
                0 <= q < j - i implies spec_is_whitespace(
                #[trigger] text@.subrange(i as int, j as int)[q],
            ) by {
                assert(text@.subrange(i as int, j as int)[q] == text@[i + q]);
            }
        }
    }
    let ghost ts0 = tokens@;
    let r = push_tok(tokens, Ghost(spans), text, off, i, j, TokenKind::Whitespace);
    proof {
        let t = tokens@[tokens@.len() - 1];
        lemma_sep_push(ts0, t);
        assert(tokens@ =~= ts0.push(t));
    }
    r
}

/// Handle one maximal non-whitespace run `[i, j)`: a non-alphabetic
/// prefix and suffix become punctuation tokens around the span from the
/// first to the last alphabetic character, which becomes the word token;
/// a run without alphabetic characters is one punctuation token.
#[verifier::rlimit(100)]
fn handle_other_run(
    tokens: &mut Vec<Token>,
    Ghost(spans): Ghost<Seq<(int, int)>>,
    text: &str,
    chars: &Vec<char>,
    offs: &Vec<usize>,
    i: usize,
    j: usize,
) -> (r: Ghost<Seq<(int, int)>>)
    requires
        tokens_wf(old(tokens)@, spans, text@, i as int),
        tokens_separated(old(tokens)@),
        chars@ == text@,
        i < j <= text@.len(),
        blen(text@) <= usize::MAX,
        offs@.len() == text@.len() + 1,
        forall|k: int| 0 <= k <= text@.len() ==> #[trigger] offs@[k] == blen(text@.take(k)),
        forall|k: int| i <= k < j ==> !spec_is_whitespace(#[trigger] text@[k]),
        old(tokens)@.len() > 0 ==> old(tokens)@[old(tokens)@.len() - 1].spec_kind()
            == TokenKind::Whitespace,
    ensures
        tokens_wf(final(tokens)@, r@, text@, j as int),
        tokens_separated(final(tokens)@),
        final(tokens)@.len() > 0,
        final(tokens)@[final(tokens)@.len() - 1].spec_kind() != TokenKind::Whitespace,
{
    let mut spans = Ghost(spans);
    match first_alpha(chars, i, j) {
        None => {
            let ghost ts0 = tokens@;
            proof {
                lemma_punct_chars(text@, i as int, j as int);
            }
            spans = push_tok(tokens, spans, text, offs[i], i, j, TokenKind::Punctuation);
            proof {
                let t = tokens@[tokens@.len() - 1];
                lemma_sep_push(ts0, t);
                assert(tokens@ =~= ts0.push(t));
            }
        },
        Some(fa) => {
            let la = last_alpha(chars, fa, j);
            if fa > i {
                let ghost ts0 = tokens@;
                proof {
                    lemma_punct_chars(text@, i as int, fa as int);
                }
                spans = push_tok(tokens, spans, text, offs[i], i, fa, TokenKind::Punctuation);
                proof {
                    let t = tokens@[tokens@.len() - 1];
                    lemma_sep_push(ts0, t);
                    assert(tokens@ =~= ts0.push(t));
                }
            }
            proof {
                lemma_blen_prefix_plus(text@, fa as int, la + 1 as int);
                lemma_blen_take_le(text@, la + 1 as int);
            }
            let wt = text.substring_char(fa, la + 1);
            let kind = if crate::greek::is_greek_word(wt) {
                TokenKind::GreekWord
            } else {
                TokenKind::Word
            };
            proof {
                let txt = text@.subrange(fa as int, la + 1 as int);
                assert(txt[0] == text@[fa as int]);
                assert(txt[txt.len() - 1] == text@[la as int]);
                assert forall|q: int| 0 <= q < txt.len() implies !spec_is_whitespace(
                    #[trigger] txt[q],
                ) by {
                    assert(txt[q] == text@[fa + q]);
                }
                assert(word_chars_ok(txt));
            }
            let ghost ts1 = tokens@;
            spans = push_tok(tokens, spans, text, offs[fa], fa, la + 1, kind);
            proof {
                let t = tokens@[tokens@.len() - 1];
                if ts1.len() > 0 {
                    if fa > i {
                        assert(ts1[ts1.len() - 1].spec_kind() == TokenKind::Punctuation);
                        if ts1.len() > 1 {
                            assert(ts1[ts1.len() - 2] == old(tokens)@[old(tokens)@.len() - 1]);
                            assert(ts1[ts1.len() - 2].spec_kind() == TokenKind::Whitespace);
                        }
                    } else {
                        assert(ts1[ts1.len() - 1].spec_kind() == TokenKind::Whitespace);
                    }
                }
                lemma_sep_push(ts1, t);
                assert(tokens@ =~= ts1.push(t));
            }
            if la + 1 < j {
                let ghost ts2 = tokens@;
                proof {
                    lemma_punct_chars(text@, la + 1 as int, j as int);
                }
                spans = push_tok(
                    tokens,
                    spans,
                    text,
                    offs[la + 1],
                    la + 1,
                    j,
                    TokenKind::Punctuation,
                );
                proof {
                    let t = tokens@[tokens@.len() - 1];
                    lemma_sep_push(ts2, t);
                    assert(tokens@ =~= ts2.push(t));
                }
            }
        },
    }
    spans
}

/// Build a [`Doc`] from a source text.
///
/// The text is scanned as alternating maximal runs of whitespace and
/// non-whitespace characters. A whitespace run becomes one `Whitespace`
/// token. A non-whitespace run splits into a maximal non-alphabetic
/// prefix and suffix, each one `Punctuation` token when non-empty, around
/// a central span reaching from the first to the last alphabetic
/// character, which becomes one `Word` token — classified `GreekWord`
/// when every character belongs to the Greek alphabet (apostrophes
/// allowed inside elided forms). A run without any alphabetic character
/// is a single `Punctuation` token.
#[verifier::rlimit(60)]
pub fn tokenize(text: &str) -> (doc: Doc)
    ensures
        doc.wf(),
        doc.spec_text() == text@,
{
    let chars = str_to_chars(text);
    let total: usize = crate::chars::byte_len(text);
    let offs = byte_offsets(&chars);
    let n = chars.len();
    let mut tokens: Vec<Token> = Vec::new();
    let mut spans: Ghost<Seq<(int, int)>> = Ghost(Seq::empty());
    proof {
        lemma_sep_empty();
        assert(tokens@ =~= Seq::<Token>::empty());
    }
    let mut i: usize = 0;
    while i < n
        invariant
            n == chars@.len(),
            chars@ == text@,
            blen(text@) <= usize::MAX,
            offs@.len() == n + 1,
            forall|k: int| 0 <= k <= n ==> #[trigger] offs@[k] == blen(chars@.take(k)),
            i <= n,
            tokens_wf(tokens@, spans@, text@, i as int),
            tokens_separated(tokens@),
            0 < i < n ==> spec_is_whitespace(chars@[i - 1]) != spec_is_whitespace(
                chars@[i as int],
            ),
            tokens@.len() > 0 <==> i > 0,
            tokens@.len() > 0 && i > 0 ==> ((tokens@[tokens@.len() - 1].spec_kind()
                == TokenKind::Whitespace) <==> spec_is_whitespace(chars@[i - 1])),
        decreases n - i,
    {
        let ws = is_whitespace_char(chars[i]);
        let j = run_end(&chars, i, ws);
        if ws {
            spans = handle_ws_run(&mut tokens, spans, text, offs[i], i, j);
        } else {
            spans = handle_other_run(&mut tokens, spans, text, &chars, &offs, i, j);
        }
        i = j;
    }
    let doc = Doc { text: text.to_owned(), tokens, spans };
    doc
}


/// The concatenation of the tokens' texts, in order.
pub open spec fn concat_texts(ts: Seq<Token>) -> Seq<char>
    decreases ts.len(),
{
    if ts.len() == 0 {
        Seq::empty()
    } else {
        concat_texts(ts.drop_last()) + ts.last().spec_text()
    }
}

proof fn lemma_concat_upto(ts: Seq<Token>, sp: Seq<(int, int)>, s: Seq<char>, upto: int, m: int)
    requires
        tokens_wf(ts, sp, s, upto),
        0 <= m <= ts.len(),
    ensures
        concat_texts(ts.take(m)) =~= s.take(if m == 0 { 0int } else { sp[m - 1].1 }),
    decreases m,
{
    if m == 0 {
        assert(ts.take(0) =~= Seq::<Token>::empty());
    } else {
        lemma_concat_upto(ts, sp, s, upto, m - 1);
        assert(ts.take(m).drop_last() =~= ts.take(m - 1));
        assert(ts.take(m).last() == ts[m - 1]);
        assert(token_at_ok(ts[m - 1], sp[m - 1], s, m - 1));
        let a = sp[m - 1].0;
        let b = sp[m - 1].1;
        if m == 1 {
            assert(a == 0);
        } else {
            assert(sp[m - 2].1 == a);
        }
        assert(s.take(b) =~= s.take(a) + s.subrange(a, b));
    }
}

/// The partition law: the tokens of a well-formed document are contiguous
/// and non-overlapping, their texts concatenate back to the source text
/// exactly, and their byte ranges tile `[0, blen(text))`: the first starts
/// at byte zero, each next token starts where the previous one ends, and
/// the last ends at the byte length of the text.
pub proof fn lemma_doc_partition(doc: &Doc)
    requires
        doc.wf(),
    ensures
        concat_texts(doc.spec_tokens()) == doc.spec_text(),
        forall|k: int| 0 <= k < doc.spec_tokens().len() ==> (#[trigger] doc.spec_tokens()[k]).wf(),
        forall|k: int|
            0 <= k < doc.spec_tokens().len() - 1 ==> (#[trigger] doc.spec_tokens()[k]).spec_offset()
                + blen(doc.spec_tokens()[k].spec_text()) == doc.spec_tokens()[k
                + 1].spec_offset(),
        doc.spec_tokens().len() > 0 ==> doc.spec_tokens()[0].spec_offset() == 0,
        doc.spec_tokens().len() > 0 ==> doc.spec_tokens()[doc.spec_tokens().len()
            - 1].spec_offset() + blen(
            doc.spec_tokens()[doc.spec_tokens().len() - 1].spec_text(),
        ) == blen(doc.spec_text()),
        forall|k: int|
            0 <= k < doc.spec_tokens().len() ==> (#[trigger] doc.spec_tokens()[k]).spec_text().len()
                > 0,
{
    let ts = doc.spec_tokens();
    let sp = doc.spec_spans();
    let s = doc.spec_text();
    lemma_concat_upto(ts, sp, s, s.len() as int, ts.len() as int);
    assert(ts.take(ts.len() as int) =~= ts);
    if ts.len() > 0 {
        assert(s.take(sp[ts.len() - 1].1) =~= s);
        assert(s.take(0) =~= Seq::<char>::empty());
    }
    assert forall|k: int| 0 <= k < ts.len() implies (#[trigger] ts[k]).wf() && ts[
        k
    ].spec_text().len() > 0 && (k < ts.len() - 1 ==> ts[k].spec_offset() + blen(ts[k].spec_text())
        == ts[k + 1].spec_offset()) by {
        assert(token_at_ok(ts[k], sp[k], s, k));
        lemma_blen_prefix_plus(s, sp[k].0, sp[k].1);
        lemma_blen_take_le(s, sp[k].1);
        if k < ts.len() - 1 {
            assert(token_at_ok(ts[k + 1], sp[k + 1], s, k + 1));
            assert(sp[k].1 == sp[k + 1].0);
        }
    }
    if ts.len() > 0 {
        let last = ts.len() - 1;
        assert(token_at_ok(ts[last], sp[last], s, last));
        lemma_blen_prefix_plus(s, sp[last].0, sp[last].1);
        assert(s.take(sp[last].1) =~= s);
        assert(token_at_ok(ts[0], sp[0], s, 0));
        assert(s.take(0) =~= Seq::<char>::empty());
        assert(blen(Seq::<char>::empty()) == 0);
    }
}


/// The index of the nearest token after `i` that is not whitespace.
pub open spec fn next_non_ws(ts: Seq<Token>, i: int) -> Option<int>
    decreases ts.len() - i,
{
    if i + 1 >= ts.len() {
        None
    } else if ts[i + 1].spec_kind() != TokenKind::Whitespace {
        Some(i + 1)
    } else {
        next_non_ws(ts, i + 1)
    }
}

/// The index of the nearest token after `i` that is a Greek word.
pub open spec fn next_greek(ts: Seq<Token>, i: int) -> Option<int>
    decreases ts.len() - i,
{
    if i + 1 >= ts.len() {
        None
    } else if ts[i + 1].spec_kind() == TokenKind::GreekWord {
        Some(i + 1)
    } else {
        next_greek(ts, i + 1)
    }
}

/// The index of the nearest token before `i` that is not whitespace.
pub open spec fn prev_non_ws(ts: Seq<Token>, i: int) -> Option<int>
    decreases i,
{
    if i <= 0 || i > ts.len() {
        None
    } else if ts[i - 1].spec_kind() != TokenKind::Whitespace {
        Some(i - 1)
    } else {
        prev_non_ws(ts, i - 1)
    }
}

/// A number token: punctuation made of ASCII digits only.
pub open spec fn token_is_num(t: Token) -> bool {
    t.spec_kind() == TokenKind::Punctuation && forall|q: int|
        0 <= q < t.spec_text().len() ==> crate::chars::spec_is_ascii_digit(
            #[trigger] t.spec_text()[q],
        )
}

/// An apostrophe token: punctuation opening with an apostrophe-class
/// character.
pub open spec fn token_is_apostrophe(t: Token) -> bool {
    t.spec_kind() == TokenKind::Punctuation && t.spec_text().len() > 0
        && crate::greek::spec_is_apostrophe(t.spec_text()[0])
}

/// A dash-opening punctuation token.
pub open spec fn token_starts_dash(t: Token) -> bool {
    t.spec_kind() == TokenKind::Punctuation && t.spec_text().len() > 0 && (t.spec_text()[0]
        == '\u{2013}' || t.spec_text()[0] == '-')
}

/// Whether the immediately following token — no intervening whitespace —
/// is punctuation opening with a period, an ellipsis, or an
/// apostrophe-class character.
pub open spec fn spec_abbreviation_or_dot(ts: Seq<Token>, i: int) -> bool {
    &&& i + 1 < ts.len()
    &&& ts[i + 1].spec_kind() == TokenKind::Punctuation
    &&& ts[i + 1].spec_text().len() > 0
    &&& (ts[i + 1].spec_text()[0] == '.' || ts[i + 1].spec_text()[0] == '\u{2026}'
        || crate::greek::spec_is_apostrophe(ts[i + 1].spec_text()[0]))
}

/// The words the tokenizer leaves with their last dot removed that act as
/// an ellipsis, common misspellings included.
pub open spec fn spec_is_elliptic_abbreviation(txt: Seq<char>) -> bool {
    ||| txt == "κ.τ.λ"@
    ||| txt == "κτλ"@
    ||| txt == "κ.λπ"@
    ||| txt == "κ.λ.π"@
    ||| txt == "κ.τ.ό"@
    ||| txt == "κ.τ.ο"@
    ||| txt == "κ.τ.ρ"@
    ||| txt == "κ.τ.τ"@
    ||| txt == "κ.ά"@
    ||| txt == "κ.α"@
}

impl Token {
    /// Whether this is a plain (non-Greek) word token.
    pub fn is_word(&self) -> (r: bool)
        ensures
            r == (self.spec_kind() == TokenKind::Word),
    {
        self.kind == TokenKind::Word
    }

    /// Whether this is a whitespace token.
    pub fn is_whitespace(&self) -> (r: bool)
        ensures
            r == (self.spec_kind() == TokenKind::Whitespace),
    {
        self.kind == TokenKind::Whitespace
    }

    /// Whether this is a punctuation token.
    pub fn is_punctuation(&self) -> (r: bool)
        ensures
            r == (self.spec_kind() == TokenKind::Punctuation),
    {
        self.kind == TokenKind::Punctuation
    }

    /// Whether this is a Greek word token.
    pub fn is_greek_word(&self) -> (r: bool)
        ensures
            r == (self.spec_kind() == TokenKind::GreekWord),
    {
        self.kind == TokenKind::GreekWord
    }

    /// Whether this token is a number: punctuation of ASCII digits.
    pub fn is_num(&self) -> (r: bool)
        ensures
            r == token_is_num(*self),
    {
        if self.kind != TokenKind::Punctuation {
            return false;
        }
        let chars = crate::chars::str_to_chars(self.text.as_str());
        let mut q: usize = 0;
        while q < chars.len()
            invariant
                q <= chars@.len(),
                chars@ == self.spec_text(),
                forall|k: int|
                    0 <= k < q ==> crate::chars::spec_is_ascii_digit(
                        #[trigger] self.spec_text()[k],
                    ),
            decreases chars@.len() - q,
        {
            let c = chars[q];
            if !('0' <= c && c <= '9') {
                return false;
            }
            q += 1;
        }
        true
    }

    /// Whether this token is punctuation opening with an apostrophe.
    pub fn is_apostrophe_start(&self) -> (r: bool)
        ensures
            r == token_is_apostrophe(*self),
    {
        if self.kind != TokenKind::Punctuation {
            return false;
        }
        let chars = crate::chars::str_to_chars(self.text.as_str());
        if chars.len() == 0 {
            return false;
        }
        crate::greek::is_apostrophe(chars[0])
    }

    /// Whether this token is punctuation opening with a dash.
    pub fn starts_with_dash(&self) -> (r: bool)
        ensures
            r == token_starts_dash(*self),
    {
        if self.kind != TokenKind::Punctuation {
            return false;
        }
        let chars = crate::chars::str_to_chars(self.text.as_str());
        if chars.len() == 0 {
            return false;
        }
        chars[0] == '\u{2013}' || chars[0] == '-'
    }

    /// How many syllables the token's text has.
    pub fn num_syllables(&self) -> (r: usize)
        ensures
            self.spec_text().len() == 0 ==> r == 0,
            self.spec_text().len() > 0 ==> r > 0,
    {
        crate::syllables::num_syllables(self.text.as_str())
    }

    /// Returns `true` if this token is an abbreviation which fulfills the
    /// role of an ellipsis, its last dot removed by tokenization.
    pub fn is_elliptic_abbreviation(&self) -> (r: bool)
        ensures
            r == spec_is_elliptic_abbreviation(self.spec_text()),
    {
        let t = self.text.as_str();
        crate::chars::str_eq(t, "κ.τ.λ") || crate::chars::str_eq(t, "κτλ")
            || crate::chars::str_eq(t, "κ.λπ") || crate::chars::str_eq(t, "κ.λ.π")
            || crate::chars::str_eq(t, "κ.τ.ό") || crate::chars::str_eq(t, "κ.τ.ο")
            || crate::chars::str_eq(t, "κ.τ.ρ") || crate::chars::str_eq(t, "κ.τ.τ")
            || crate::chars::str_eq(t, "κ.ά") || crate::chars::str_eq(t, "κ.α")
    }
}

impl Doc {
    /// The nearest following token that is not whitespace.
    pub fn next_token_not_whitespace<'a>(&'a self, token: &Token) -> (r: Option<&'a Token>)
        requires
            self.wf(),
        ensures
            match r {
                Some(t) => next_non_ws(self.spec_tokens(), token.spec_index() as int) == Some(
                    t.spec_index() as int,
                ) && *t == self.spec_tokens()[t.spec_index() as int],
                None => next_non_ws(self.spec_tokens(), token.spec_index() as int) is None,
            },
    {
        let n = self.tokens.len();
        let mut idx = token.index();
        if idx >= n {
            return None;
        }
        loop
            invariant
                self.wf(),
                n == self.spec_tokens().len(),
                idx < n,
                next_non_ws(self.spec_tokens(), token.spec_index() as int) == next_non_ws(
                    self.spec_tokens(),
                    idx as int,
                ),
            decreases n - idx,
        {
            if idx + 1 >= n {
                return None;
            }
            idx = idx + 1;
            if !matches!(self.tokens[idx].kind(), TokenKind::Whitespace) {
                proof {
                    assert(token_at_ok(
                        self.spec_tokens()[idx as int],
                        self.spec_spans()[idx as int],
                        self.spec_text(),
                        idx as int,
                    ));
                }
                return Some(&self.tokens[idx]);
            }
        }
    }

    /// The nearest following token that is a Greek word.
    pub fn next_token_greek_word<'a>(&'a self, token: &Token) -> (r: Option<&'a Token>)
        requires
            self.wf(),
        ensures
            match r {
                Some(t) => next_greek(self.spec_tokens(), token.spec_index() as int) == Some(
                    t.spec_index() as int,
                ) && *t == self.spec_tokens()[t.spec_index() as int],
                None => next_greek(self.spec_tokens(), token.spec_index() as int) is None,
            },
    {
        let n = self.tokens.len();
        let mut idx = token.index();
        if idx >= n {
            return None;
        }
        loop
            invariant
                self.wf(),
                n == self.spec_tokens().len(),
                idx < n,
                next_greek(self.spec_tokens(), token.spec_index() as int) == next_greek(
                    self.spec_tokens(),
                    idx as int,
                ),
            decreases n - idx,
        {
            if idx + 1 >= n {
                return None;
            }
            idx = idx + 1;
            if matches!(self.tokens[idx].kind(), TokenKind::GreekWord) {
                proof {
                    assert(token_at_ok(
                        self.spec_tokens()[idx as int],
                        self.spec_spans()[idx as int],
                        self.spec_text(),
                        idx as int,
                    ));
                }
                return Some(&self.tokens[idx]);
            }
        }
    }

    /// The nearest preceding token that is not whitespace.
    pub fn prev_token_not_whitespace<'a>(&'a self, token: &Token) -> (r: Option<&'a Token>)
        requires
            self.wf(),
            token.spec_index() <= self.spec_tokens().len(),
        ensures
            match r {
                Some(t) => prev_non_ws(self.spec_tokens(), token.spec_index() as int) == Some(
                    t.spec_index() as int,
                ) && *t == self.spec_tokens()[t.spec_index() as int],
                None => prev_non_ws(self.spec_tokens(), token.spec_index() as int) is None,
            },
    {
        let mut idx = token.index();
        loop
            invariant
                self.wf(),
                idx <= self.spec_tokens().len(),
                prev_non_ws(self.spec_tokens(), token.spec_index() as int) == prev_non_ws(
                    self.spec_tokens(),
                    idx as int,
                ),
            decreases idx,
        {
            if idx == 0 {
                return None;
            }
            idx = idx - 1;
            if !matches!(self.tokens[idx].kind(), TokenKind::Whitespace) {
                proof {
                    assert(token_at_ok(
                        self.spec_tokens()[idx as int],
                        self.spec_spans()[idx as int],
                        self.spec_text(),
                        idx as int,
                    ));
                }
                return Some(&self.tokens[idx]);
            }
        }
    }

    /// Whether the nearest preceding non-whitespace token is a number.
    pub fn previous_token_is_num(&self, token: &Token) -> (r: bool)
        requires
            self.wf(),
            token.spec_index() <= self.spec_tokens().len(),
        ensures
            r == match prev_non_ws(self.spec_tokens(), token.spec_index() as int) {
                Some(m) => token_is_num(self.spec_tokens()[m]),
                None => false,
            },
    {
        match self.prev_token_not_whitespace(token) {
            Some(p) => p.is_num(),
            None => false,
        }
    }

    /// Whether the nearest preceding non-whitespace token opens with an
    /// apostrophe.
    pub fn previous_token_is_apostrophe(&self, token: &Token) -> (r: bool)
        requires
            self.wf(),
            token.spec_index() <= self.spec_tokens().len(),
        ensures
            r == match prev_non_ws(self.spec_tokens(), token.spec_index() as int) {
                Some(m) => token_is_apostrophe(self.spec_tokens()[m]),
                None => false,
            },
    {
        match self.prev_token_not_whitespace(token) {
            Some(p) => p.is_apostrophe_start(),
            None => false,
        }
    }

    /// A word is considered an abbreviation if the immediately following
    /// token — no intervening whitespace, so an elision like a bare
    /// apostrophe after a space does not count — is punctuation opening
    /// with a period, an ellipsis, or an apostrophe. A dot must be treated
    /// like a black box: there is no way to tell a period, an ellipsis and
    /// an abbreviation dot apart here.
    pub fn is_abbreviation_or_ends_with_dot(&self, token: &Token) -> (r: bool)
        requires
            self.wf(),
        ensures
            r == spec_abbreviation_or_dot(self.spec_tokens(), token.spec_index() as int),
    {
        let idx = token.index();
        if idx >= self.tokens.len() || idx + 1 >= self.tokens.len() {
            return false;
        }
        let nt = &self.tokens[idx + 1];
        if !nt.is_punctuation() {
            return false;
        }
        let chars = crate::chars::str_to_chars(nt.text());
        if chars.len() == 0 {
            return false;
        }
        let c = chars[0];
        c == '.' || c == '\u{2026}' || crate::greek::is_apostrophe(c)
    }
}


impl Doc {
    /// Whether `t` is (a copy of) the token at its index in this document.
    pub open spec fn has_token(&self, t: Token) -> bool {
        t.spec_index() < self.spec_tokens().len() && self.spec_tokens()[t.spec_index() as int] == t
    }
}

/// The byte range of a token of a well-formed document runs between
/// character boundaries of the source text and stays inside it.
pub proof fn lemma_token_boundaries(doc: &Doc, t: Token)
    requires
        doc.wf(),
        doc.has_token(t),
    ensures
        t.wf(),
        crate::chars::is_boundary(doc.spec_text(), t.spec_offset() as int),
        crate::chars::is_boundary(
            doc.spec_text(),
            t.spec_offset() + blen(t.spec_text()) as int,
        ),
        t.spec_offset() + blen(t.spec_text()) <= blen(doc.spec_text()),
        t.spec_text().len() > 0,
{
    let k = t.spec_index() as int;
    let ts = doc.spec_tokens();
    let sp = doc.spec_spans();
    let s = doc.spec_text();
    assert(token_at_ok(ts[k], sp[k], s, k));
    lemma_blen_prefix_plus(s, sp[k].0, sp[k].1);
    lemma_blen_take_le(s, sp[k].1);
    assert(blen(s.take(sp[k].0)) == t.spec_offset());
    assert(blen(s.take(sp[k].1)) == t.spec_offset() + blen(t.spec_text()));
    assert(crate::chars::is_boundary(s, t.spec_offset() as int)) by {
        assert(0 <= sp[k].0 <= s.len() && blen(s.take(sp[k].0)) == t.spec_offset() as int);
    }
    assert(crate::chars::is_boundary(s, t.spec_offset() + blen(t.spec_text()) as int)) by {
        assert(0 <= sp[k].1 <= s.len() && blen(s.take(sp[k].1)) == t.spec_offset() + blen(
            t.spec_text(),
        ) as int);
    }
}


/// Tokens earlier in the document end at or before where later tokens
/// start, in bytes.
pub proof fn lemma_token_order(doc: &Doc, i: int, j: int)
    requires
        doc.wf(),
        0 <= i < j < doc.spec_tokens().len(),
    ensures
        doc.spec_tokens()[i].spec_offset() + blen(doc.spec_tokens()[i].spec_text())
            <= doc.spec_tokens()[j].spec_offset(),
    decreases j - i,
{
    let ts = doc.spec_tokens();
    let sp = doc.spec_spans();
    let s = doc.spec_text();
    assert(token_at_ok(ts[i], sp[i], s, i));
    assert(token_at_ok(ts[j], sp[j], s, j));
    assert(token_at_ok(ts[j - 1], sp[j - 1], s, j - 1));
    assert(sp[j - 1].1 == sp[j].0);
    lemma_blen_prefix_plus(s, sp[i].0, sp[i].1);
    if i == j - 1 {
    } else {
        lemma_token_order(doc, i, j - 1);
        lemma_blen_prefix_plus(s, sp[j - 1].0, sp[j - 1].1);
    }
}


/// What a successful or failed search for the next non-whitespace token
/// means, spelled out.
pub proof fn lemma_next_non_ws(ts: Seq<Token>, i: int)
    ensures
        match next_non_ws(ts, i) {
            Some(m) => i < m < ts.len() && ts[m].spec_kind() != TokenKind::Whitespace && forall|
                q: int,
            | i < q < m ==> (#[trigger] ts[q].spec_kind()) == TokenKind::Whitespace,
            None => forall|q: int|
                i < q < ts.len() ==> (#[trigger] ts[q].spec_kind()) == TokenKind::Whitespace,
        },
    decreases ts.len() - i,
{
    if i + 1 >= ts.len() {
    } else if ts[i + 1].spec_kind() != TokenKind::Whitespace {
    } else {
        lemma_next_non_ws(ts, i + 1);
    }
}

/// What a successful or failed search for the next Greek word means.
pub proof fn lemma_next_greek(ts: Seq<Token>, i: int)
    ensures
        match next_greek(ts, i) {
            Some(m) => i < m < ts.len() && ts[m].spec_kind() == TokenKind::GreekWord,
            None => forall|q: int|
                i < q < ts.len() ==> (#[trigger] ts[q].spec_kind()) != TokenKind::GreekWord,
        },
    decreases ts.len() - i,
{
    if i + 1 >= ts.len() {
    } else if ts[i + 1].spec_kind() == TokenKind::GreekWord {
    } else {
        lemma_next_greek(ts, i + 1);
    }
}

/// What a successful or failed search for the previous non-whitespace
/// token means.
pub proof fn lemma_prev_non_ws(ts: Seq<Token>, i: int)
    ensures
        match prev_non_ws(ts, i) {
            Some(m) => 0 <= m < i <= ts.len() && ts[m].spec_kind() != TokenKind::Whitespace,
            None => true,
        },
    decreases i,
{
    if i <= 0 || i > ts.len() {
    } else if ts[i - 1].spec_kind() != TokenKind::Whitespace {
    } else {
        lemma_prev_non_ws(ts, i - 1);
    }
}


impl Doc {
    /// Debug helper: the texts of up to seven tokens on each side of
    /// `token`, with the token itself shown bold and line breaks made
    /// visible.
    pub fn context(&self, token: &Token) -> String {
        let start = if token.index() >= 7 {
            token.index() - 7
        } else {
            0
        };
        let n = self.tokens.len();
        let mut out = String::new();
        let mut idx = start;
        let mut cnt: usize = 0;
        while cnt < 15 && idx < n
            invariant
                n == self.spec_tokens().len(),
            decreases 15 - cnt,
        {
            let t = &self.tokens[idx];
            if idx == token.index() {
                let bolded = crate::paint::paint_bold(t.text());
                out.append(bolded.as_str());
            } else {
                out.append(t.text());
            }
            idx += 1;
            cnt += 1;
        }
        let chars = crate::chars::str_to_chars(out.as_str());
        let mut shown = String::new();
        let mut i: usize = 0;
        while i < chars.len()
            invariant
                i <= chars@.len(),
            decreases chars@.len() - i,
        {
            let c = chars[i];
            if c == '\n' {
                crate::chars::push_char(&mut shown, '\u{23CE}');
            } else {
                crate::chars::push_char(&mut shown, c);
            }
            i += 1;
        }
        shown
    }
}


/// Between any two word tokens of a separated sequence stands a
/// whitespace token: words never touch, directly or through punctuation
/// alone.
pub proof fn lemma_words_separated(ts: Seq<Token>, i: int, j: int)
    requires
        tokens_separated(ts),
        0 <= i < j < ts.len(),
        spec_wordish(ts[i]),
        spec_wordish(ts[j]),
    ensures
        exists|k: int| i < k < j && (#[trigger] ts[k].spec_kind()) == TokenKind::Whitespace,
{
    reveal(tokens_separated);
    assert(!(spec_wordish(ts[i]) && spec_wordish(ts[i + 1])));
    assert(j > i + 1);
    if ts[i + 1].spec_kind() == TokenKind::Whitespace {
        assert(ts[i + 1].spec_kind() == TokenKind::Whitespace && i < i + 1 < j);
    } else {
        // The neighbour is punctuation trailing a word, so whitespace
        // follows it.
        assert(ts[i + 1].spec_kind() == TokenKind::Punctuation);
        assert(ts[i + 2].spec_kind() == TokenKind::Whitespace);
        assert(i + 2 < j);
        assert(ts[i + 2].spec_kind() == TokenKind::Whitespace && i < i + 2 < j);
    }
}

} // verus!







