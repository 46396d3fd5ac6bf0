//! Character-level helpers: whitespace stripping for the signing
//! canonicalization, and character-count bounds for request validation.

use vstd::prelude::*;

verus! {

/// Whether `c` has the Unicode `White_Space` property, the set of
/// characters that the signing canonicalization removes.
pub open spec fn is_whitespace_char(c: char) -> bool {
    let u = c as u32;
    (0x09 <= u && u <= 0x0D) || u == 0x20 || u == 0x85 || u == 0xA0 || u == 0x1680 || (0x2000
        <= u && u <= 0x200A) || u == 0x2028 || u == 0x2029 || u == 0x202F || u == 0x205F || u
        == 0x3000
}

/// Decides `is_whitespace_char` on a concrete character.
pub fn char_is_whitespace(c: char) -> (b: bool)
    ensures
        b == is_whitespace_char(c),
{
    let u = c as u32;
    (0x09 <= u && u <= 0x0D) || u == 0x20 || u == 0x85 || u == 0xA0 || u == 0x1680 || (0x2000
        <= u && u <= 0x200A) || u == 0x2028 || u == 0x2029 || u == 0x202F || u == 0x205F || u
        == 0x3000
}

/// `s` with every whitespace character removed, in order.
pub open spec fn spec_strip_ws(s: Seq<char>) -> Seq<char>
    decreases s.len(),
{
    if s.len() == 0 {
        Seq::empty()
    } else if is_whitespace_char(s[0]) {
        spec_strip_ws(s.drop_first())
    } else {
        seq![s[0]] + spec_strip_ws(s.drop_first())
    }
}

/// Stripping distributes over appending one character at the end.
proof fn lemma_strip_ws_snoc(s: Seq<char>, c: char)
    ensures
        spec_strip_ws(s.push(c)) == spec_strip_ws(s) + (if is_whitespace_char(c) {
            Seq::<char>::empty()
        } else {
            seq![c]
        }),
    decreases s.len(),
{
    let tail: Seq<char> = if is_whitespace_char(c) {
        Seq::<char>::empty()
    } else {
        seq![c]
    };
    if s.len() == 0 {
        assert(s.push(c)[0] == c);
        assert(s.push(c).drop_first() =~= Seq::<char>::empty());
        assert(spec_strip_ws(Seq::<char>::empty()) =~= Seq::<char>::empty());
        assert(spec_strip_ws(s) =~= Seq::<char>::empty());
        assert(spec_strip_ws(s.push(c)) =~= spec_strip_ws(s) + tail);
    } else {
        assert(s.push(c).drop_first() =~= s.drop_first().push(c));
        lemma_strip_ws_snoc(s.drop_first(), c);
        assert(spec_strip_ws(s.push(c)) =~= spec_strip_ws(s) + tail);
    }
}

/// Relies on `String::push`: appends one character at the end.
#[verifier::external_body]
fn push_char(s: &mut String, c: char)
    ensures
        final (s)@ == old(s)@.push(c),
{
    s.push(c);
}

/// Copies `s` without its whitespace characters.
pub fn strip_whitespace(s: &str) -> (out: String)
    ensures
        out@ == spec_strip_ws(s@),
{
    let mut out = String::new();
    for c in it: s.chars()
        invariant
            it.seq() == s@,
            out@ == spec_strip_ws(it.seq().take(it.index() as int)),
    {
        proof {
            let prefix = it.seq().take(it.index() as int);
            assert(it.seq().take(it.index() + 1) =~= prefix.push(c));
            lemma_strip_ws_snoc(prefix, c);
        }
        if !char_is_whitespace(c) {
            push_char(&mut out, c);
        }
    }
    proof {
        assert(s@.take(s@.len() as int) =~= s@);
    }
    out
}

/// Whether the character count of `s` lies in `[lo, hi]`.
pub fn char_len_in_range(s: &str, lo: usize, hi: usize) -> (b: bool)
    requires
        hi < usize::MAX,
    ensures
        b == (lo <= s@.len() <= hi),
{
    let mut n: usize = 0;
    for c in it: s.chars()
        invariant
            it.seq() == s@,
            n == if it.index() <= usize::MAX {
                it.index() as int
            } else {
                usize::MAX as int
            },
    {
        if n < usize::MAX {
            n = n + 1;
        }
    }
    lo <= n && n <= hi
}

} // verus!
