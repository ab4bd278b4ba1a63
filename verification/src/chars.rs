use vstd::prelude::*;

verus! {

use vstd::utf8::{encode_utf8, encode_scalar, char_is_scalar};
use vstd::std_specs::iter::IteratorSpec;

broadcast use vstd::string::group_string_axioms;

/// The UTF-8 byte length of one character.
pub open spec fn char_blen(c: char) -> nat {
    encode_scalar(c as u32).len()
}

/// The UTF-8 byte length of a character sequence.
pub open spec fn blen(s: Seq<char>) -> nat {
    encode_utf8(s).len()
}

/// A byte position `b` is a character boundary of `s` when some prefix of
/// `s` encodes to exactly `b` bytes.
pub open spec fn is_boundary(s: Seq<char>, b: int) -> bool {
    exists|j: int| 0 <= j <= s.len() && blen(s.take(j)) == b
}

/// The character index whose byte prefix length is `b` (meaningful only
/// when `is_boundary(s, b)` holds; unique by strict monotonicity).
pub open spec fn char_pos(s: Seq<char>, b: int) -> int {
    choose|j: int| 0 <= j <= s.len() && blen(s.take(j)) == b
}

/// UTF-8 encoding distributes over concatenation.
pub proof fn lemma_encode_concat(s1: Seq<char>, s2: Seq<char>)
    ensures
        encode_utf8(s1 + s2) =~= encode_utf8(s1) + encode_utf8(s2),
        blen(s1 + s2) == blen(s1) + blen(s2),
    decreases s1.len(),
{
    if s1.len() == 0 {
        assert(s1 + s2 =~= s2);
        assert(encode_utf8(s1) =~= Seq::<u8>::empty());
    } else {
        assert((s1 + s2).len() > 0);
        assert((s1 + s2)[0] == s1[0]);
        assert((s1 + s2).drop_first() =~= s1.drop_first() + s2);
        lemma_encode_concat(s1.drop_first(), s2);
    }
}

/// Byte length of a one-character extension of a prefix.
pub proof fn lemma_blen_step(s: Seq<char>, i: int)
    requires
        0 <= i < s.len(),
    ensures
        blen(s.take(i + 1)) == blen(s.take(i)) + char_blen(s[i]),
{
    assert(s.take(i + 1) =~= s.take(i) + seq![s[i]]);
    lemma_encode_concat(s.take(i), seq![s[i]]);
    assert(seq![s[i]].drop_first() =~= Seq::<char>::empty());
    assert(encode_utf8(Seq::<char>::empty()) =~= Seq::<u8>::empty());
    assert(encode_utf8(seq![s[i]]) =~= encode_scalar(s[i] as u32));
}

/// Every character encodes to between one and four bytes.
pub proof fn lemma_char_blen_bounds(c: char)
    ensures
        1 <= char_blen(c) <= 4,
{
    char_is_scalar(c);
}

/// A prefix never encodes to more bytes than the whole sequence.
pub proof fn lemma_blen_take_le(s: Seq<char>, i: int)
    requires
        0 <= i <= s.len(),
    ensures
        blen(s.take(i)) <= blen(s),
{
    assert(s =~= s.take(i) + s.skip(i));
    lemma_encode_concat(s.take(i), s.skip(i));
}

/// A prefix plus the following piece encodes to the same bytes as the
/// longer prefix.
pub proof fn lemma_blen_prefix_plus(s: Seq<char>, a: int, b: int)
    requires
        0 <= a <= b <= s.len(),
    ensures
        blen(s.take(a)) + blen(s.subrange(a, b)) == blen(s.take(b)),
{
    assert(s.take(b) =~= s.take(a) + s.subrange(a, b));
    lemma_encode_concat(s.take(a), s.subrange(a, b));
}

/// Prefix byte lengths grow strictly with the prefix.
pub proof fn lemma_blen_strict_mono(s: Seq<char>, i: int, j: int)
    requires
        0 <= i < j <= s.len(),
    ensures
        blen(s.take(i)) < blen(s.take(j)),
    decreases j - i,
{
    lemma_blen_step(s, i);
    lemma_char_blen_bounds(s[i]);
    if i + 1 < j {
        lemma_blen_strict_mono(s, i + 1, j);
    }
}

/// The UTF-8 width of one character, computed from its code point.
pub fn char_width(c: char) -> (n: usize)
    ensures
        n == char_blen(c),
        1 <= n <= 4,
{
    proof {
        char_is_scalar(c);
    }
    let u = c as u32;
    if u < 0x80 {
        1
    } else if u < 0x800 {
        2
    } else if u < 0x10000 {
        3
    } else {
        4
    }
}

/// The characters of `s`, in order.
pub fn str_to_chars(s: &str) -> (v: Vec<char>)
    ensures
        v@ == s@,
{
    let mut v: Vec<char> = Vec::new();
    let mut it = s.chars();
    loop
        invariant
            it.obeys_prophetic_iter_laws(),
            v@.len() <= s@.len(),
            v@ == s@.take(v@.len() as int),
            it.remaining() == s@.skip(v@.len() as int),
        ensures
            v@.len() == s@.len(),
        decreases s@.len() - v@.len(),
    {
        proof {
            assert(it.remaining().len() == s@.len() - v@.len());
        }
        match it.next() {
            Some(c) => {
                proof {
                    assert(s@.skip(v@.len() as int)[0] == s@[v@.len() as int]);
                    assert(s@.take(v@.len() as int).push(s@[v@.len() as int]) =~= s@.take(
                        v@.len() + 1 as int,
                    ));
                    assert(s@.skip(v@.len() as int).drop_first() =~= s@.skip(v@.len() + 1 as int));
                }
                v.push(c);
            },
            None => {
                proof {
                    assert(s@.skip(v@.len() as int).len() == 0);
                }
                break;
            },
        }
    }
    proof {
        assert(v@ =~= s@);
    }
    v
}

/// The cumulative byte offsets of the characters of `chars`: entry `i` is
/// the byte length of the first `i` characters, so the result has one more
/// entry than `chars` and ends at the total byte length.
pub fn byte_offsets(chars: &Vec<char>) -> (offs: Vec<usize>)
    requires
        blen(chars@) <= usize::MAX,
    ensures
        offs@.len() == chars@.len() + 1,
        forall|i: int| 0 <= i <= chars@.len() ==> #[trigger] offs@[i] == blen(chars@.take(i)),
        forall|i: int| 0 <= i < chars@.len() ==> #[trigger] offs@[i] < offs@[i + 1],
{
    let mut offs: Vec<usize> = Vec::new();
    let mut off: usize = 0;
    offs.push(0);
    proof {
        assert(chars@.take(0) =~= Seq::<char>::empty());
        assert(encode_utf8(Seq::<char>::empty()) =~= Seq::<u8>::empty());
    }
    let mut i: usize = 0;
    while i < chars.len()
        invariant
            i <= chars@.len(),
            blen(chars@) <= usize::MAX,
            offs@.len() == i + 1,
            off == blen(chars@.take(i as int)),
            forall|j: int| 0 <= j <= i ==> #[trigger] offs@[j] == blen(chars@.take(j)),
            forall|j: int| 0 <= j < i ==> #[trigger] offs@[j] < offs@[j + 1],
        decreases chars@.len() - i,
    {
        let w = char_width(chars[i]);
        proof {
            lemma_blen_step(chars@, i as int);
            lemma_blen_take_le(chars@, i + 1);
        }
        off = off + w;
        offs.push(off);
        i += 1;
    }
    offs
}

/// The UTF-8 byte length of a string slice.
///
/// Relies on `str::len` from std: it returns the slice's byte length,
/// which always fits in `usize`.
#[verifier::external_body]
pub fn byte_len(s: &str) -> (r: usize)
    ensures
        r == blen(s@),
{
    s.len()
}

/// Whether two string slices hold the same characters.
pub fn str_eq(a: &str, b: &str) -> (r: bool)
    ensures
        r == (a@ == b@),
{
    let sa = a.to_owned();
    let sb = b.to_owned();
    sa == sb
}

/// Appends exactly one character to a string.
///
/// Relies on `String::push` from std: it appends the given character and
/// changes nothing else.
#[verifier::external_body]
pub fn push_char(s: &mut String, c: char)
    ensures
        final(s)@ == old(s)@.push(c),
{
    s.push(c);
}

/// Whether `c` has the Unicode `Alphabetic` property, a pure function of
/// the character.
pub uninterp spec fn alphabetic(c: char) -> bool;

/// Relies on `char::is_alphabetic` from std: returns whether the character
/// has the Unicode `Alphabetic` property, which depends on the character
/// alone.
#[verifier::external_body]
pub fn is_alphabetic_char(c: char) -> (r: bool)
    ensures
        r == alphabetic(c),
{
    c.is_alphabetic()
}

/// The Unicode `White_Space` characters, written out as std documents
/// them.
pub open spec fn spec_is_whitespace(c: char) -> bool {
    ||| c == ' '
    ||| c == '\t'
    ||| c == '\n'
    ||| c == '\r'
    ||| c == '\u{0B}'
    ||| c == '\u{0C}'
    ||| c == '\u{85}'
    ||| c == '\u{A0}'
    ||| c == '\u{1680}'
    ||| ('\u{2000}' <= c && c <= '\u{200A}')
    ||| c == '\u{2028}'
    ||| c == '\u{2029}'
    ||| c == '\u{202F}'
    ||| c == '\u{205F}'
    ||| c == '\u{3000}'
}

/// Whether `c` is a whitespace character.
#[verifier::when_used_as_spec(spec_is_whitespace)]
pub fn is_whitespace_char(c: char) -> (r: bool)
    ensures
        r == spec_is_whitespace(c),
{
    c == ' ' || c == '\t' || c == '\n' || c == '\r' || c == '\u{0B}' || c == '\u{0C}'
        || c == '\u{85}' || c == '\u{A0}' || c == '\u{1680}' || ('\u{2000}' <= c && c
        <= '\u{200A}') || c == '\u{2028}' || c == '\u{2029}' || c == '\u{202F}' || c == '\u{205F}'
        || c == '\u{3000}'
}

/// Whether `c` is an ASCII decimal digit.
pub open spec fn spec_is_ascii_digit(c: char) -> bool {
    '0' <= c <= '9'
}

/// Whether `c` is an ASCII decimal digit.
#[verifier::when_used_as_spec(spec_is_ascii_digit)]
pub fn is_ascii_digit_char(c: char) -> (r: bool)
    ensures
        r == spec_is_ascii_digit(c),
{
    '0' <= c && c <= '9'
}


/// Whether `a` begins with the characters of `b`.
pub fn str_starts_with(a: &str, b: &str) -> (r: bool)
    ensures
        r == (b@.len() <= a@.len() && a@.take(b@.len() as int) == b@),
{
    let ca = str_to_chars(a);
    let cb = str_to_chars(b);
    if cb.len() > ca.len() {
        return false;
    }
    let mut i: usize = 0;
    while i < cb.len()
        invariant
            i <= cb@.len() <= ca@.len(),
            ca@ == a@,
            cb@ == b@,
            forall|q: int| 0 <= q < i ==> a@[q] == b@[q],
        decreases cb@.len() - i,
    {
        if ca[i] != cb[i] {
            proof {
                assert(a@.take(b@.len() as int)[i as int] != b@[i as int]);
            }
            return false;
        }
        i += 1;
    }
    proof {
        assert(a@.take(b@.len() as int) =~= b@);
    }
    true
}

/// Whether `a` ends with the characters of `b`.
pub fn str_ends_with(a: &str, b: &str) -> (r: bool)
    ensures
        r == (b@.len() <= a@.len() && a@.skip(a@.len() - b@.len()) == b@),
{
    let ca = str_to_chars(a);
    let cb = str_to_chars(b);
    if cb.len() > ca.len() {
        return false;
    }
    let na = ca.len();
    let base = na - cb.len();
    let mut i: usize = 0;
    while i < cb.len()
        invariant
            i <= cb@.len() <= ca@.len(),
            na == ca@.len(),
            base == ca@.len() - cb@.len(),
            ca@ == a@,
            cb@ == b@,
            forall|q: int| 0 <= q < i ==> a@[base + q] == b@[q],
        decreases cb@.len() - i,
    {
        if ca[base + i] != cb[i] {
            proof {
                assert(a@.skip(a@.len() - b@.len())[i as int] != b@[i as int]);
            }
            return false;
        }
        i += 1;
    }
    proof {
        assert(a@.skip(a@.len() - b@.len()) =~= b@);
    }
    true
}

} // verus!
