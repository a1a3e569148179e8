//! Text helpers built on std's string functions.

use vstd::prelude::*;
use vstd::string::StringSliceAdditionalSpecFns;
use vstd::utf8::*;

verus! {

/// What `String::from_utf8_lossy` makes of a byte sequence: the decoded text,
/// with each invalid sequence replaced by U+FFFD.
pub uninterp spec fn lossy_text(b: Seq<u8>) -> Seq<char>;

/// What `str::to_lowercase` makes of a text.
pub uninterp spec fn lower_of(s: Seq<char>) -> Seq<char>;

/// Relies on `String::push`: appends one character at the end.
#[verifier::external_body]
pub(crate) fn push_char(s: &mut String, c: char)
    ensures
        final(s)@ == old(s)@.push(c),
{
    s.push(c)
}

/// Relies on `String::from_utf8_lossy`: valid UTF-8 is decoded as it is;
/// otherwise each invalid sequence becomes U+FFFD.
#[verifier::external_body]
pub(crate) fn decode_lossy(b: &Vec<u8>) -> (r: String)
    ensures
        r@ == lossy_text(b@),
        valid_utf8(b@) ==> r@ == decode_utf8(b@),
{
    String::from_utf8_lossy(b.as_slice()).into_owned()
}

/// Relies on `str::to_lowercase`: the lowercase form of the text, which
/// depends on its characters alone.
#[verifier::external_body]
pub(crate) fn lowercase(s: &str) -> (r: String)
    ensures
        r@ == lower_of(s@),
{
    s.to_lowercase()
}

/// `s` without its NUL characters.
pub open spec fn without_nul(s: Seq<char>) -> Seq<char> {
    s.filter(|c: char| c != '\0')
}

/// Returns `s` with every NUL character removed.
pub fn strip_nul(s: &str) -> (r: String)
    ensures
        r@ == without_nul(s@),
{
    broadcast use vstd::string::group_string_axioms;
    let mut out = String::new();
    for c in it: s.chars()
        invariant
            it.seq() == s@,
            out@ == without_nul(it.seq().take(it.index() as int)),
    {
        let ghost i = it.index() as int;
        if c != '\0' {
            push_char(&mut out, c);
        }
        proof {
            let t = it.seq().take(i + 1);
            assert(t.drop_last() =~= it.seq().take(i));
            assert(t.last() == c);
            reveal_with_fuel(Seq::filter, 1);
            assert(out@ == without_nul(t));
        }
    }
    proof {
        assert(s@.take(s@.len() as int) =~= s@);
    }
    out
}

/// The pieces of `s` between occurrences of `sep`, as `str::split` yields
/// them: always at least one piece, possibly empty.
pub open spec fn split_on(s: Seq<char>, sep: char) -> Seq<Seq<char>>
    decreases s.len(),
{
    if s.len() == 0 {
        seq![Seq::empty()]
    } else {
        let p = split_on(s.drop_last(), sep);
        if s.last() == sep {
            p.push(Seq::empty())
        } else {
            p.update(p.len() - 1, p.last().push(s.last()))
        }
    }
}

/// The views of a vector of character vectors.
pub open spec fn pieces_view(v: Seq<Vec<char>>) -> Seq<Seq<char>> {
    v.map_values(|p: Vec<char>| p@)
}

proof fn lemma_split_on_nonempty(s: Seq<char>, sep: char)
    ensures
        split_on(s, sep).len() >= 1,
    decreases s.len(),
{
    if s.len() > 0 {
        lemma_split_on_nonempty(s.drop_last(), sep);
    }
}

/// Splits `s` at every `sep`; empty pieces, a trailing one included, are
/// kept.
pub fn split_chars(s: &str, sep: char) -> (r: Vec<Vec<char>>)
    ensures
        pieces_view(r@) == split_on(s@, sep),
        r@.len() >= 1,
{
    broadcast use vstd::string::group_string_axioms;
    let mut done: Vec<Vec<char>> = Vec::new();
    let mut cur: Vec<char> = Vec::new();
    for c in it: s.chars()
        invariant
            it.seq() == s@,
            pieces_view(done@).push(cur@) == split_on(it.seq().take(it.index() as int), sep),
    {
        let ghost i = it.index() as int;
        let ghost old_done = done@;
        let ghost old_cur = cur@;
        if c == sep {
            let finished = cur;
            cur = Vec::new();
            done.push(finished);
        } else {
            cur.push(c);
        }
        proof {
            let t = it.seq().take(i + 1);
            assert(t.drop_last() =~= it.seq().take(i));
            assert(t.last() == c);
            lemma_split_on_nonempty(t.drop_last(), sep);
            let p = split_on(t.drop_last(), sep);
            if c == sep {
                assert(pieces_view(done@) =~= pieces_view(old_done).push(old_cur));
                assert(pieces_view(done@).push(cur@) =~= p.push(Seq::empty()));
            } else {
                assert(pieces_view(done@) =~= pieces_view(old_done));
                assert(pieces_view(done@).push(cur@) =~= p.update(
                    p.len() - 1,
                    p.last().push(c),
                ));
            }
        }
    }
    proof {
        assert(s@.take(s@.len() as int) =~= s@);
    }
    done.push(cur);
    proof {
        assert(pieces_view(done@) =~= split_on(s@, sep));
    }
    done
}

/// Builds a string from a vector of characters.
pub fn string_of(chars: &Vec<char>) -> (r: String)
    ensures
        r@ == chars@,
{
    let mut out = String::new();
    let mut i: usize = 0;
    while i < chars.len()
        invariant
            i <= chars@.len(),
            out@ == chars@.take(i as int),
        decreases chars@.len() - i,
    {
        push_char(&mut out, chars[i]);
        i += 1;
        assert(out@ =~= chars@.take(i as int));
    }
    assert(out@ =~= chars@);
    out
}

/// The UTF-8 bytes of `s`.
pub fn text_bytes(s: &str) -> (r: Vec<u8>)
    ensures
        r@ == s.spec_bytes(),
{
    let b = s.as_bytes();
    let mut out: Vec<u8> = Vec::new();
    let mut i: usize = 0;
    while i < b.len()
        invariant
            i <= b@.len(),
            b@ == s.spec_bytes(),
            out@ == b@.take(i as int),
        decreases b@.len() - i,
    {
        out.push(b[i]);
        i += 1;
        assert(out@ =~= b@.take(i as int));
    }
    assert(out@ =~= b@);
    out
}

} // verus!
