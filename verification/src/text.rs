//! Byte-level text surgery and the small text measures the rest of the
//! library relies on: splicing a replacement into a byte range, comparing
//! snippets, counting characters and lines.
use vstd::prelude::*;

verus! {

/// The sequence that results from replacing `s[start..end]` with `r`,
/// keeping every other byte unchanged.
pub open spec fn splice_seq(s: Seq<u8>, start: int, end: int, r: Seq<u8>) -> Seq<u8>
    recommends
        0 <= start <= end <= s.len(),
{
    s.subrange(0, start) + r + s.subrange(end, s.len() as int)
}

/// Replace `source[start..end]` with `replacement`, keeping all other
/// bytes unchanged: the substitution primitive that every mutation
/// strategy shares.
pub fn splice(source: &Vec<u8>, start: usize, end: usize, replacement: &Vec<u8>) -> (r: Vec<u8>)
    requires
        start <= end <= source@.len(),
    ensures
        r@ == splice_seq(source@, start as int, end as int, replacement@),
{
    let mut out: Vec<u8> = Vec::new();
    let mut i: usize = 0;
    while i < start
        invariant
            i <= start <= end <= source@.len(),
            out@ == source@.subrange(0, i as int),
        decreases start - i,
    {
        out.push(source[i]);
        i += 1;
    }
    let mut j: usize = 0;
    while j < replacement.len()
        invariant
            start <= end <= source@.len(),
            j <= replacement@.len(),
            out@ == source@.subrange(0, start as int) + replacement@.subrange(0, j as int),
        decreases replacement@.len() - j,
    {
        out.push(replacement[j]);
        j += 1;
    }
    let mut k: usize = end;
    while k < source.len()
        invariant
            start <= end <= k <= source@.len(),
            out@ == source@.subrange(0, start as int) + replacement@ + source@.subrange(
                end as int,
                k as int,
            ),
        decreases source@.len() - k,
    {
        out.push(source[k]);
        k += 1;
    }
    proof {
        assert(replacement@.subrange(0, replacement@.len() as int) == replacement@);
        assert(out@ == splice_seq(source@, start as int, end as int, replacement@));
    }
    out
}

/// Deleting a zero-length span gives back the source unchanged: deletion
/// is a no-op on empty spans.
pub proof fn lemma_delete_empty_span_noop(s: Seq<u8>, i: int)
    requires
        0 <= i <= s.len(),
    ensures
        splice_seq(s, i, i, Seq::<u8>::empty()) == s,
{
    assert(splice_seq(s, i, i, Seq::<u8>::empty()) =~= s);
}

/// A copy of `source[start..end]`: the exact text a span covers.
pub fn bytes_range(source: &Vec<u8>, start: usize, end: usize) -> (r: Vec<u8>)
    requires
        start <= end <= source@.len(),
    ensures
        r@ == source@.subrange(start as int, end as int),
{
    let mut out: Vec<u8> = Vec::new();
    let mut i: usize = start;
    while i < end
        invariant
            start <= i <= end <= source@.len(),
            out@ == source@.subrange(start as int, i as int),
        decreases end - i,
    {
        out.push(source[i]);
        i += 1;
    }
    out
}

/// An owned copy of a snippet.
pub fn bytes_copy(source: &Vec<u8>) -> (r: Vec<u8>)
    ensures
        r@ == source@,
{
    let r = bytes_range(source, 0, source.len());
    proof {
        assert(source@.subrange(0, source@.len() as int) == source@);
    }
    r
}

/// Exact byte-for-byte equality of two snippets.
pub fn bytes_eq(a: &Vec<u8>, b: &Vec<u8>) -> (r: bool)
    ensures
        r == (a@ == b@),
{
    if a.len() != b.len() {
        return false;
    }
    let mut i: usize = 0;
    while i < a.len()
        invariant
            i <= a@.len() == b@.len(),
            forall|k: int| 0 <= k < i ==> a@[k] == b@[k],
        decreases a@.len() - i,
    {
        if a[i] != b[i] {
            return false;
        }
        i += 1;
    }
    proof {
        assert(a@ =~= b@);
    }
    true
}

/// Whether a byte is a UTF-8 continuation byte, which starts no character.
pub open spec fn is_continuation_byte(b: u8) -> bool {
    b & 0xC0 == 0x80
}

/// The number of characters in a UTF-8 text: its bytes that begin a
/// character, that is, all but the continuation bytes.
pub open spec fn char_count_seq(s: Seq<u8>) -> nat
    decreases s.len(),
{
    if s.len() == 0 {
        0
    } else {
        char_count_seq(s.drop_last()) + if is_continuation_byte(s.last()) {
            0nat
        } else {
            1nat
        }
    }
}

/// A text has at most as many characters as bytes.
pub proof fn lemma_char_count_le_len(s: Seq<u8>)
    ensures
        char_count_seq(s) <= s.len(),
    decreases s.len(),
{
    if s.len() > 0 {
        lemma_char_count_le_len(s.drop_last());
    }
}

/// Count the characters of a UTF-8 text by its bytes.
pub fn char_count(source: &Vec<u8>) -> (r: usize)
    ensures
        r == char_count_seq(source@),
{
    let mut count: usize = 0;
    let mut i: usize = 0;
    while i < source.len()
        invariant
            i <= source@.len(),
            count == char_count_seq(source@.subrange(0, i as int)),
            count <= i,
        decreases source@.len() - i,
    {
        proof {
            assert(source@.subrange(0, i + 1).drop_last() == source@.subrange(0, i as int));
            assert(source@.subrange(0, i + 1).last() == source@[i as int]);
        }
        if (source[i] & 0xC0) != 0x80 {
            count += 1;
        }
        i += 1;
    }
    proof {
        assert(source@.subrange(0, source@.len() as int) == source@);
    }
    count
}

/// The number of newline bytes in a text.
pub open spec fn newline_count_seq(s: Seq<u8>) -> nat
    decreases s.len(),
{
    if s.len() == 0 {
        0
    } else {
        newline_count_seq(s.drop_last()) + if s.last() == 10u8 {
            1nat
        } else {
            0nat
        }
    }
}

/// The number of lines of a text, counted as the standard library counts
/// them: one line per newline byte, plus a final unterminated line when
/// the text does not end in a newline. An empty text has no lines.
pub open spec fn line_count_seq(s: Seq<u8>) -> nat {
    if s.len() == 0 {
        0
    } else if s.last() == 10u8 {
        newline_count_seq(s)
    } else {
        newline_count_seq(s) + 1
    }
}

/// Count the lines of a text; files over the line ceiling are skipped by
/// the driver.
pub fn line_count(source: &Vec<u8>) -> (r: usize)
    ensures
        r == line_count_seq(source@),
{
    let mut count: usize = 0;
    let mut i: usize = 0;
    while i < source.len()
        invariant
            i <= source@.len(),
            count == newline_count_seq(source@.subrange(0, i as int)),
            count <= i,
        decreases source@.len() - i,
    {
        proof {
            assert(source@.subrange(0, i + 1).drop_last() == source@.subrange(0, i as int));
            assert(source@.subrange(0, i + 1).last() == source@[i as int]);
        }
        if source[i] == 10u8 {
            count += 1;
        }
        i += 1;
    }
    proof {
        assert(source@.subrange(0, source@.len() as int) == source@);
    }
    if source.len() == 0 {
        0
    } else if source[source.len() - 1] == 10u8 {
        count
    } else {
        proof {
            lemma_newline_count_le_len(source@.drop_last());
            assert(source@.last() != 10u8);
            assert(newline_count_seq(source@) == newline_count_seq(source@.drop_last()));
        }
        count + 1
    }
}

/// A text has at most as many newlines as bytes.
proof fn lemma_newline_count_le_len(s: Seq<u8>)
    ensures
        newline_count_seq(s) <= s.len(),
    decreases s.len(),
{
    if s.len() > 0 {
        lemma_newline_count_le_len(s.drop_last());
    }
}

} // verus!

