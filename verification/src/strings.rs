//! Lossy UTF-8 decoding for wire strings.
//!
//! Strings on the wire are raw byte runs that may hold invalid UTF-8. The
//! decoders never fail on bad text: every byte that does not begin a
//! well-formed scalar encoding becomes one replacement character. The
//! intended result is pinned down by [`lossy_decode`], and the executable
//! [`lossy_string`] is verified against it.

use vstd::prelude::*;
use vstd::slice::slice_index_get;
use vstd::string::StrSliceExecFns;
use vstd::utf8::*;

verus! {

/// The characters denoted by `bytes` when read as UTF-8, with each byte that
/// does not begin a well-formed scalar encoding replaced by U+FFFD.
pub open spec fn lossy_decode(bytes: Seq<u8>) -> Seq<char>
    decreases bytes.len(),
{
    if bytes.len() == 0 {
        Seq::<char>::empty()
    } else if valid_first_scalar(bytes) {
        seq![decode_first_scalar(bytes) as char] + lossy_decode(pop_first_scalar(bytes))
    } else {
        seq!['\u{fffd}'] + lossy_decode(bytes.drop_first())
    }
}

/// True when no character of `s` is the NUL character. Only such strings can
/// be written as a null-terminated field and read back intact.
pub open spec fn no_nul(s: Seq<char>) -> bool {
    forall|i: int| 0 <= i < s.len() ==> s[i] != '\0'
}

/// On valid UTF-8 input, lossy decoding is exactly UTF-8 decoding.
pub proof fn lemma_lossy_decode_valid(bytes: Seq<u8>)
    requires
        valid_utf8(bytes),
    ensures
        lossy_decode(bytes) == decode_utf8(bytes),
    decreases bytes.len(),
{
    if bytes.len() != 0 {
        lemma_lossy_decode_valid(pop_first_scalar(bytes));
    }
}

/// Decoding the encoding of a NUL-free string gives the string back; this is
/// the string half of the record round-trip laws.
pub proof fn lemma_lossy_decode_encode(s: Seq<char>)
    ensures
        lossy_decode(encode_utf8(s)) == s,
{
    broadcast use encode_utf8_valid_utf8, encode_utf8_decode_utf8;

    lemma_lossy_decode_valid(encode_utf8(s));
}

/// The UTF-8 encoding of a scalar other than 0 contains no zero byte.
proof fn lemma_encode_scalar_no_zero(v: u32)
    requires
        is_scalar(v),
        v != 0,
    ensures
        forall|i: int| 0 <= i < encode_scalar(v).len() ==> encode_scalar(v)[i] != 0,
{
    if has_width_1_encoding(v) {
        assert(leading_byte_width_1(v) != 0) by (bit_vector)
            requires
                v <= 0x7f && v != 0,
        ;
    } else if has_width_2_encoding(v) {
        assert(leading_byte_width_2(v) != 0 && last_continuation_byte(v) != 0) by (bit_vector);
    } else if has_width_3_encoding(v) {
        assert(leading_byte_width_3(v) != 0 && second_last_continuation_byte(v) != 0
            && last_continuation_byte(v) != 0) by (bit_vector);
    } else {
        assert(leading_byte_width_4(v) != 0 && third_last_continuation_byte(v) != 0
            && second_last_continuation_byte(v) != 0 && last_continuation_byte(v) != 0)
            by (bit_vector);
    }
}

/// The UTF-8 encoding of a NUL-free string contains no zero byte, so a
/// null terminator after it is found where it was written.
pub proof fn lemma_encode_no_zero(s: Seq<char>)
    requires
        no_nul(s),
    ensures
        forall|i: int| 0 <= i < encode_utf8(s).len() ==> encode_utf8(s)[i] != 0,
    decreases s.len(),
{
    if s.len() != 0 {
        char_is_scalar(s[0]);
        assert(s[0] as u32 != 0) by {
            char_u32_cast(s[0], s[0] as u32);
        }
        lemma_encode_scalar_no_zero(s[0] as u32);
        assert(no_nul(s.drop_first()));
        lemma_encode_no_zero(s.drop_first());
        let head = encode_scalar(s[0] as u32);
        let tail = encode_utf8(s.drop_first());
        assert forall|i: int| 0 <= i < encode_utf8(s).len() implies encode_utf8(s)[i] != 0 by {
            if i < head.len() {
                assert(encode_utf8(s)[i] == head[i]);
            } else {
                assert(encode_utf8(s)[i] == tail[i - head.len()]);
            }
        }
    }
}

/// Width of the well-formed UTF-8 scalar encoding that starts at `i`, or 0
/// when the bytes from `i` on do not begin with one.
fn scalar_width_at(b: &[u8], i: usize) -> (w: usize)
    requires
        i < b@.len(),
    ensures
        w == 0 ==> !valid_first_scalar(b@.skip(i as int)),
        w != 0 ==> valid_first_scalar(b@.skip(i as int)) && w == length_of_first_scalar(
            b@.skip(i as int),
        ) && i + w <= b@.len(),
{
    let ghost s = b@.skip(i as int);
    let n = b.len();
    let b0 = *slice_index_get(b, i);
    assert(s[0] == b@[i as int]);
    if b0 <= 0x7f {
        assert(codepoint_width_1(b0) == b0 as u32 && b0 as u32 <= 0x7f) by (bit_vector)
            requires
                b0 <= 0x7f,
        ;
        1
    } else if 0xc0 <= b0 && b0 <= 0xdf {
        if n - i < 2 {
            return 0;
        }
        let b1 = *slice_index_get(b, i + 1);
        assert(s[1] == b@[i as int + 1]);
        if !(0x80 <= b1 && b1 <= 0xbf) {
            return 0;
        }
        let c: u32 = (((b0 & 0x1f) as u32) << 6u32) | ((b1 & 0x3f) as u32);
        assert(c == codepoint_width_2(b0, b1));
        assert(c <= 0x7ff) by (bit_vector)
            requires
                c == (((b0 & 0x1f) as u32) << 6u32) | ((b1 & 0x3f) as u32),
        ;
        if c >= 0x80 {
            2
        } else {
            0
        }
    } else if 0xe0 <= b0 && b0 <= 0xef {
        if n - i < 3 {
            return 0;
        }
        let b1 = *slice_index_get(b, i + 1);
        let b2 = *slice_index_get(b, i + 2);
        assert(s[1] == b@[i as int + 1] && s[2] == b@[i as int + 2]);
        if !(0x80 <= b1 && b1 <= 0xbf) || !(0x80 <= b2 && b2 <= 0xbf) {
            return 0;
        }
        let c: u32 = (((b0 & 0x0f) as u32) << 12u32) | (((b1 & 0x3f) as u32) << 6u32) | ((b2
            & 0x3f) as u32);
        assert(c == codepoint_width_3(b0, b1, b2));
        if c >= 0x800 && !(0xd800 <= c && c <= 0xdfff) {
            3
        } else {
            0
        }
    } else if 0xf0 <= b0 && b0 <= 0xf7 {
        if n - i < 4 {
            return 0;
        }
        let b1 = *slice_index_get(b, i + 1);
        let b2 = *slice_index_get(b, i + 2);
        let b3 = *slice_index_get(b, i + 3);
        assert(s[1] == b@[i as int + 1] && s[2] == b@[i as int + 2] && s[3] == b@[i as int + 3]);
        if !(0x80 <= b1 && b1 <= 0xbf) || !(0x80 <= b2 && b2 <= 0xbf) || !(0x80 <= b3 && b3
            <= 0xbf) {
            return 0;
        }
        let c: u32 = (((b0 & 0x07) as u32) << 18u32) | (((b1 & 0x3f) as u32) << 12u32) | (((b2
            & 0x3f) as u32) << 6u32) | ((b3 & 0x3f) as u32);
        assert(c == codepoint_width_4(b0, b1, b2, b3));
        if 0x10000 <= c && c <= 0x10ffff {
            4
        } else {
            0
        }
    } else {
        0
    }
}

/// Relies on `String::from_utf8`: for bytes that are valid UTF-8 it returns
/// `Ok` of the string those bytes encode.
#[verifier::external_body]
fn string_from_utf8(v: Vec<u8>) -> (r: String)
    requires
        valid_utf8(v@),
    ensures
        r@ == decode_utf8(v@),
{
    match String::from_utf8(v) {
        Ok(s) => s,
        Err(_) => String::new(),
    }
}

/// The string denoted by `b` read as UTF-8, with a replacement character for
/// every byte that does not begin a well-formed scalar encoding.
pub fn lossy_string(b: &[u8]) -> (r: String)
    ensures
        r@ == lossy_decode(b@),
{
    let mut out: Vec<u8> = Vec::new();
    let mut i: usize = 0;
    let n = b.len();
    proof {
        assert(b@.skip(0) =~= b@);
    }
    while i < n
        invariant
            i <= n,
            n == b@.len(),
            valid_utf8(out@),
            lossy_decode(b@) == decode_utf8(out@) + lossy_decode(b@.skip(i as int)),
        decreases n - i,
    {
        let ghost s = b@.skip(i as int);
        let ghost out0 = out@;
        let w = scalar_width_at(b, i);
        if w > 0 {
            let ghost chunk = b@.subrange(i as int, i + w);
            proof {
                assert(chunk =~= take_first_scalar(s));
                lemma_chunk_is_scalar(s, chunk);
            }
            let end: usize = i + w;
            let mut k: usize = i;
            while k < end
                invariant
                    i <= k <= end,
                    end == i + w,
                    end <= b@.len(),
                    chunk == b@.subrange(i as int, i + w),
                    out@ == out0 + b@.subrange(i as int, k as int),
                decreases end - k,
            {
                out.push(*slice_index_get(b, k));
                k = k + 1;
                proof {
                    assert(b@.subrange(i as int, k as int) =~= b@.subrange(
                        i as int,
                        k - 1,
                    ).push(b@[k - 1]));
                }
            }
            assert(out@ == out0 + chunk);
            i = i + w;
            proof {
                lemma_extend_decode(out0, chunk);
                assert(s.len() > 0);
                assert(lossy_decode(s) == seq![decode_first_scalar(s) as char] + lossy_decode(
                    pop_first_scalar(s),
                ));
                assert(pop_first_scalar(s) =~= b@.skip(i as int));
                assert(lossy_decode(b@) =~= decode_utf8(out@) + lossy_decode(b@.skip(i as int)));
            }
        } else {
            out.push(0xef);
            out.push(0xbf);
            out.push(0xbd);
            i = i + 1;
            proof {
                let chunk = seq![0xefu8, 0xbfu8, 0xbdu8];
                assert(out@ =~= out0 + chunk);
                lemma_replacement_chunk(chunk);
                lemma_extend_decode(out0, chunk);
                assert(s.len() > 0);
                assert(!valid_first_scalar(s));
                assert(lossy_decode(s) == seq!['\u{fffd}'] + lossy_decode(s.drop_first()));
                assert(s.drop_first() =~= b@.skip(i as int));
                assert(lossy_decode(b@) =~= decode_utf8(out@) + lossy_decode(b@.skip(i as int)));
            }
        }
    }
    proof {
        assert(b@.skip(n as int) =~= Seq::<u8>::empty());
        assert(lossy_decode(b@) =~= decode_utf8(out@));
    }
    string_from_utf8(out)
}

/// The wire form of a string field: its UTF-8 bytes and a null terminator.
pub open spec fn cstr_wire(s: Seq<char>) -> Seq<u8> {
    encode_utf8(s) + seq![0u8]
}

/// The wire bytes of one string field: its UTF-8 bytes and a null
/// terminator.
pub fn c_string_bytes(s: &str) -> (r: Vec<u8>)
    ensures
        r@ == cstr_wire(s@),
{
    let mut b = s.as_bytes_vec();
    b.push(0);
    proof {
        assert(b@ =~= cstr_wire(s@));
    }
    b
}

/// Appends the UTF-8 bytes of `s` and a null terminator to `dst`: the form
/// every wire string takes.
pub fn push_c_string(dst: &mut Vec<u8>, s: &str)
    ensures
        final(dst)@ == old(dst)@ + encode_utf8(s@) + seq![0u8],
{
    let mut b = s.as_bytes_vec();
    dst.append(&mut b);
    dst.push(0);
    proof {
        assert(final(dst)@ =~= old(dst)@ + encode_utf8(s@) + seq![0u8]);
    }
}

/// A byte run that is exactly one well-formed scalar encoding is valid UTF-8
/// and decodes to that one scalar.
proof fn lemma_chunk_is_scalar(s: Seq<u8>, chunk: Seq<u8>)
    requires
        valid_first_scalar(s),
        chunk =~= take_first_scalar(s),
    ensures
        valid_utf8(chunk),
        decode_utf8(chunk) =~= seq![decode_first_scalar(s) as char],
        chunk.len() > 0,
        !is_continuation_byte(chunk[0]),
{
    assert(valid_first_scalar(chunk));
    assert(decode_first_codepoint(chunk) == decode_first_codepoint(s));
    assert(length_of_first_codepoint(chunk) == length_of_first_codepoint(s));
    assert(pop_first_scalar(chunk) =~= Seq::<u8>::empty());
    reveal_with_fuel(valid_utf8, 2);
    reveal_with_fuel(decode_utf8, 2);
}

/// The three-byte run EF BB BD is the valid UTF-8 encoding of U+FFFD alone.
proof fn lemma_replacement_chunk(chunk: Seq<u8>)
    requires
        chunk =~= seq![0xefu8, 0xbfu8, 0xbdu8],
    ensures
        valid_utf8(chunk),
        decode_utf8(chunk) =~= seq!['\u{fffd}'],
        chunk.len() > 0,
        !is_continuation_byte(chunk[0]),
{
    assert(is_leading_byte_width_3(0xef) && is_continuation_byte(0xbf) && is_continuation_byte(
        0xbd,
    ));
    assert(((((0xefu8 & 0x0f) as u32) << 12u32) | (((0xbfu8 & 0x3f) as u32) << 6u32) | ((0xbdu8
        & 0x3f) as u32)) == 0xfffd) by (bit_vector);
    assert(codepoint_width_3(0xef, 0xbf, 0xbd) == 0xfffd);
    assert(valid_first_scalar(chunk));
    assert(pop_first_scalar(chunk) =~= Seq::<u8>::empty());
    reveal_with_fuel(valid_utf8, 2);
    reveal_with_fuel(decode_utf8, 2);
    assert('\u{fffd}' as u32 == 0xfffd);
    char_u32_cast('\u{fffd}', 0xfffd);
}

/// Appending one valid scalar run to a valid UTF-8 buffer keeps it valid and
/// appends the decoded character.
proof fn lemma_extend_decode(out: Seq<u8>, chunk: Seq<u8>)
    requires
        valid_utf8(out),
        valid_utf8(chunk),
        chunk.len() > 0,
        !is_continuation_byte(chunk[0]),
    ensures
        valid_utf8(out + chunk),
        decode_utf8(out + chunk) =~= decode_utf8(out) + decode_utf8(chunk),
{
    valid_utf8_concat(out, chunk);
    let whole = out + chunk;
    let k = out.len() as int;
    assert(whole[k] == chunk[0]);
    is_char_boundary_iff_not_is_continuation_byte(whole, k);
    decode_utf8_split(whole, k);
    assert(whole.subrange(0, k) =~= out);
    assert(whole.subrange(k, whole.len() as int) =~= chunk);
}

} // verus!
