//! Reading and writing the fixed-width big-endian fields of the binary
//! format.

use vstd::prelude::*;
use vstd::utf8::{
    decode_utf8,
    encode_utf8,
    encode_utf8_decode_utf8,
    encode_utf8_valid_utf8,
    valid_utf8,
};

verus! {

/// The number that four bytes spell, most significant first.
pub open spec fn spec_u32_from_be(b: Seq<u8>) -> u32 {
    ((b[0] as u32) << 24) | ((b[1] as u32) << 16) | ((b[2] as u32) << 8) | (b[3] as u32)
}

/// The number that eight bytes spell, most significant first.
pub open spec fn spec_u64_from_be(b: Seq<u8>) -> u64 {
    ((b[0] as u64) << 56) | ((b[1] as u64) << 48) | ((b[2] as u64) << 40) | ((b[3] as u64) << 32)
        | ((b[4] as u64) << 24) | ((b[5] as u64) << 16) | ((b[6] as u64) << 8) | (b[7] as u64)
}

/// The signed number that eight bytes spell in two's complement.
pub open spec fn spec_i64_from_be(b: Seq<u8>) -> i64 {
    spec_u64_from_be(b) as i64
}

/// The four bytes of a number, most significant first.
pub open spec fn spec_u32_be(value: u32) -> Seq<u8> {
    seq![(value >> 24) as u8, (value >> 16) as u8, (value >> 8) as u8, value as u8]
}

/// The eight bytes of a number, most significant first.
pub open spec fn spec_u64_be(value: u64) -> Seq<u8> {
    seq![
        (value >> 56) as u8,
        (value >> 48) as u8,
        (value >> 40) as u8,
        (value >> 32) as u8,
        (value >> 24) as u8,
        (value >> 16) as u8,
        (value >> 8) as u8,
        value as u8,
    ]
}

/// The eight bytes of a signed number in two's complement.
pub open spec fn spec_i64_be(value: i64) -> Seq<u8> {
    spec_u64_be(value as u64)
}

/// The `len` bytes that start at `at`; no bytes where `len` is 0, wherever
/// `at` stands.
pub open spec fn spec_window(bytes: Seq<u8>, at: int, len: nat) -> Seq<u8> {
    if len == 0 {
        Seq::empty()
    } else {
        bytes.subrange(at, at + len)
    }
}

/// Whether a text of `len` bytes stands at `at`: the bytes are there, and
/// they are UTF-8.
pub open spec fn is_text_at(bytes: Seq<u8>, at: int, len: nat) -> bool {
    &&& len == 0 || (0 <= at && at + len <= bytes.len())
    &&& valid_utf8(spec_window(bytes, at, len))
}

/// The text that the `len` bytes from `at` on spell in UTF-8.
pub open spec fn spec_text_at(bytes: Seq<u8>, at: int, len: nat) -> Seq<char> {
    decode_utf8(spec_window(bytes, at, len))
}

/// Whether `n` bytes can be read at `cursor`.
pub open spec fn can_read(bytes: Seq<u8>, cursor: usize, n: nat) -> bool {
    cursor + n <= bytes.len()
}

/// Reads eight bytes at the cursor as a signed big-endian number and moves
/// the cursor past them. With fewer than eight bytes left nothing is read.
pub fn read_i64(bytes: &[u8], cursor: &mut usize) -> (r: Option<i64>)
    ensures
        r is Some <==> can_read(bytes@, *old(cursor), 8),
        r matches Some(v) ==> v == spec_i64_from_be(
            bytes@.subrange(*old(cursor) as int, *old(cursor) + 8),
        ) && *final(cursor) == *old(cursor) + 8,
        r is None ==> *final(cursor) == *old(cursor),
{
    let at = *cursor;
    if at > bytes.len() || bytes.len() - at < 8 {
        return None;
    }
    let ghost b = bytes@.subrange(at as int, at + 8);
    let value: u64 = ((bytes[at] as u64) << 56) | ((bytes[at + 1] as u64) << 48) | ((bytes[at
        + 2] as u64) << 40) | ((bytes[at + 3] as u64) << 32) | ((bytes[at + 4] as u64) << 24) | ((
    bytes[at + 5] as u64) << 16) | ((bytes[at + 6] as u64) << 8) | (bytes[at + 7] as u64);
    assert(value == spec_u64_from_be(b));
    *cursor = at + 8;
    Some(#[verifier::truncate] (value as i64))
}

/// Reads four bytes at the cursor as a big-endian number and moves the cursor
/// past them. With fewer than four bytes left nothing is read.
pub fn read_u32(bytes: &[u8], cursor: &mut usize) -> (r: Option<u32>)
    ensures
        r is Some <==> can_read(bytes@, *old(cursor), 4),
        r matches Some(v) ==> v == spec_u32_from_be(
            bytes@.subrange(*old(cursor) as int, *old(cursor) + 4),
        ) && *final(cursor) == *old(cursor) + 4,
        r is None ==> *final(cursor) == *old(cursor),
{
    let at = *cursor;
    if at > bytes.len() || bytes.len() - at < 4 {
        return None;
    }
    let ghost b = bytes@.subrange(at as int, at + 4);
    let value: u32 = ((bytes[at] as u32) << 24) | ((bytes[at + 1] as u32) << 16) | ((bytes[at
        + 2] as u32) << 8) | (bytes[at + 3] as u32);
    assert(value == spec_u32_from_be(b));
    *cursor = at + 4;
    Some(value)
}

/// Reads the byte at the cursor and moves the cursor past it. At the end of
/// the bytes nothing is read.
pub fn read_u8(bytes: &[u8], cursor: &mut usize) -> (r: Option<u8>)
    ensures
        r is Some <==> can_read(bytes@, *old(cursor), 1),
        r matches Some(v) ==> v == bytes@[*old(cursor) as int] && *final(cursor) == *old(cursor)
            + 1,
        r is None ==> *final(cursor) == *old(cursor),
{
    let at = *cursor;
    if at >= bytes.len() {
        return None;
    }
    *cursor = at + 1;
    Some(bytes[at])
}

/// Whether two texts hold the same characters. Two texts do so exactly
/// where their bytes are the same.
pub(crate) fn str_equal(a: &str, b: &str) -> (r: bool)
    ensures
        r == (a@ == b@),
{
    broadcast use encode_utf8_decode_utf8;

    let left = a.as_bytes();
    let right = b.as_bytes();
    if left.len() != right.len() {
        return false;
    }
    let mut i: usize = 0;
    while i < left.len()
        invariant
            i <= left@.len(),
            left@.len() == right@.len(),
            left@ == encode_utf8(a@),
            right@ == encode_utf8(b@),
            forall|j: int| 0 <= j < i ==> left@[j] == right@[j],
        decreases left@.len() - i,
    {
        if left[i] != right[i] {
            return false;
        }
        i += 1;
    }
    assert(left@ =~= right@);
    assert(decode_utf8(encode_utf8(a@)) == a@);
    assert(decode_utf8(encode_utf8(b@)) == b@);
    true
}

/// The character of a decimal digit.
pub open spec fn spec_digit(d: int) -> char {
    ((48 + d) as u8) as char
}

/// The decimal text of a natural number, without leading zeros.
pub open spec fn spec_nat_text(n: nat) -> Seq<char>
    decreases n,
{
    if n < 10 {
        seq![spec_digit(n as int)]
    } else {
        spec_nat_text(n / 10).push(spec_digit((n % 10) as int))
    }
}

/// The decimal text of a number, with a minus sign before a negative one.
pub open spec fn spec_i64_text(value: i64) -> Seq<char> {
    if value < 0 {
        seq!['-'] + spec_nat_text((-value) as nat)
    } else {
        spec_nat_text(value as nat)
    }
}

/// Appends the decimal text of a natural number.
fn push_nat_text(s: &mut String, n: u64)
    ensures
        final(s)@ == old(s)@ + spec_nat_text(n as nat),
    decreases n,
{
    if n >= 10 {
        push_nat_text(s, n / 10);
    }
    let digit: u8 = (n % 10) as u8;
    string_push(s, (48 + digit) as char);
    assert(s@ =~= old(s)@ + spec_nat_text(n as nat));
}

/// Writes a number in decimal, with a minus sign before a negative one.
pub(crate) fn i64_to_text(value: i64) -> (r: String)
    ensures
        r@ == spec_i64_text(value),
{
    let mut text = String::new();
    if value < 0 {
        string_push(&mut text, '-');
        let size: u64 = (-(value + 1)) as u64 + 1;
        push_nat_text(&mut text, size);
        assert(text@ =~= seq!['-'] + spec_nat_text((-value) as nat));
    } else {
        push_nat_text(&mut text, value as u64);
        assert(text@ =~= spec_nat_text(value as nat));
    }
    text
}

/// Appends a character to a string, as `String::push` does.
#[verifier::external_body]
pub(crate) fn string_push(s: &mut String, c: char)
    ensures
        final(s)@ == old(s)@.push(c),
{
    s.push(c)
}

/// A text that was written in UTF-8 between two runs of bytes is the text
/// that stands where the first run ends.
pub proof fn lemma_text_reads(pre: Seq<u8>, text: Seq<char>, post: Seq<u8>)
    ensures
        is_text_at(pre + encode_utf8(text) + post, pre.len() as int, encode_utf8(text).len()),
        spec_text_at(pre + encode_utf8(text) + post, pre.len() as int, encode_utf8(text).len())
            == text,
{
    let written = encode_utf8(text);
    let bytes = pre + written + post;
    encode_utf8_valid_utf8(text);
    encode_utf8_decode_utf8(text);
    if written.len() > 0 {
        assert(bytes.subrange(pre.len() as int, (pre.len() + written.len()) as int) =~= written);
    } else {
        assert(written =~= Seq::<u8>::empty());
    }
}

/// The text that bytes spell in UTF-8, as `String::from_utf8` reads it:
/// there is one exactly where the bytes are UTF-8, and its bytes are those
/// that were handed in.
#[verifier::external_body]
fn text_from_utf8(bytes: Vec<u8>) -> (r: Option<String>)
    ensures
        r is Some <==> valid_utf8(bytes@),
        r matches Some(s) ==> encode_utf8(s@) == bytes@,
{
    match String::from_utf8(bytes) {
        Ok(s) => Some(s),
        Err(_) => None,
    }
}

/// Reads the text of `str_len` bytes at the cursor and moves the cursor past
/// it. The bytes of a text are UTF-8. Where the bytes end before that, or
/// are not UTF-8, there is no text, and the cursor stands at the end of the
/// bytes if it stood before it.
pub fn read_str_with_len(bytes: &[u8], cursor: &mut usize, str_len: usize) -> (r: Option<String>)
    ensures
        r is Some <==> is_text_at(bytes@, *old(cursor) as int, str_len as nat),
        r matches Some(s) ==> s@ == spec_text_at(bytes@, *old(cursor) as int, str_len as nat)
            && encode_utf8(s@) == spec_window(bytes@, *old(cursor) as int, str_len as nat)
            && *final(cursor) == *old(cursor) + str_len,
        r is None ==> *final(cursor) == (if *old(cursor) <= bytes@.len() {
            bytes@.len() as usize
        } else {
            *old(cursor)
        }),
{
    broadcast use encode_utf8_decode_utf8;

    if str_len == 0 {
        let text = String::new();
        assert(encode_utf8(text@) =~= Seq::<u8>::empty());
        return Some(text);
    }
    let end = bytes.len();
    let window = match read_n_bytes_from_cursor(bytes, *cursor, str_len) {
        Some(window) => window,
        None => {
            if *cursor <= end {
                *cursor = end;
            }
            return None;
        },
    };
    assert(can_read(bytes@, *cursor, str_len as nat));
    assert(window@ == spec_window(bytes@, *cursor as int, str_len as nat));
    match text_from_utf8(window) {
        Some(text) => {
            *cursor = *cursor + str_len;
            Some(text)
        },
        None => {
            *cursor = end;
            None
        },
    }
}

/// Copies `n` bytes that start at `cursor`, if the bytes hold that many
/// there.
pub fn read_n_bytes_from_cursor(bytes: &[u8], cursor: usize, n: usize) -> (r: Option<Vec<u8>>)
    ensures
        r is Some <==> can_read(bytes@, cursor, n as nat),
        r matches Some(v) ==> v@ == bytes@.subrange(cursor as int, cursor + n),
{
    if cursor > bytes.len() || bytes.len() - cursor < n {
        return None;
    }
    let mut out: Vec<u8> = Vec::new();
    let mut i: usize = 0;
    while i < n
        invariant
            i <= n,
            cursor + n <= bytes@.len() <= usize::MAX,
            out@ == bytes@.subrange(cursor as int, cursor + i),
        decreases n - i,
    {
        out.push(bytes[cursor + i]);
        i += 1;
        assert(out@ =~= bytes@.subrange(cursor as int, cursor + i));
    }
    Some(out)
}

/// Appends one byte.
pub fn write_u8(bytes: &mut Vec<u8>, value: u8)
    ensures
        final(bytes)@ == old(bytes)@.push(value),
{
    bytes.push(value);
}

/// The characters of a text, in their order.
pub fn chars_of(s: &str) -> (v: Vec<char>)
    ensures
        v@ == s@,
{
    let mut v: Vec<char> = Vec::new();
    for c in it: s.chars()
        invariant
            v@ == it.seq().take(it.index() as int),
            it.seq() == s@,
    {
        v.push(c);
    }
    v
}

/// The parts of a text between the dots in it, from place `i` on, where
/// `cur` is the part read so far.
pub open spec fn spec_split_from(s: Seq<char>, i: int, cur: Seq<char>) -> Seq<Seq<char>>
    decreases s.len() - i,
{
    if i < 0 || i >= s.len() {
        seq![cur]
    } else if s[i] == '.' {
        seq![cur] + spec_split_from(s, i + 1, Seq::empty())
    } else {
        spec_split_from(s, i + 1, cur.push(s[i]))
    }
}

/// The parts of a dotted path: the texts between its dots. A path without a
/// dot has one part, the empty path too.
pub open spec fn spec_split_path(s: Seq<char>) -> Seq<Seq<char>> {
    spec_split_from(s, 0, Seq::empty())
}

/// Splits a dotted path into its parts.
pub fn split_path(path: &str) -> (r: Vec<String>)
    ensures
        r@.len() == spec_split_path(path@).len(),
        forall|i: int| 0 <= i < r@.len() ==> (#[trigger] r@[i])@ == spec_split_path(path@)[i],
{
    let chars = chars_of(path);
    let mut parts: Vec<String> = Vec::new();
    let mut cur = String::new();
    let mut i: usize = 0;
    let ghost done: Seq<Seq<char>> = Seq::empty();
    while i < chars.len()
        invariant
            i <= chars@.len(),
            chars@ == path@,
            parts@.len() == done.len(),
            forall|k: int| 0 <= k < parts@.len() ==> (#[trigger] parts@[k])@ == done[k],
            spec_split_path(path@) == done + spec_split_from(path@, i as int, cur@),
        decreases chars@.len() - i,
    {
        if chars[i] == '.' {
            proof {
                assert(done + (seq![cur@] + spec_split_from(path@, i + 1, Seq::empty()))
                    =~= done.push(cur@) + spec_split_from(path@, i + 1, Seq::empty()));
                done = done.push(cur@);
            }
            parts.push(cur);
            cur = String::new();
        } else {
            string_push(&mut cur, chars[i]);
        }
        i += 1;
    }
    proof {
        assert(done + seq![cur@] =~= done.push(cur@));
        done = done.push(cur@);
    }
    parts.push(cur);
    parts
}

/// Appends a run of bytes.
pub fn write_bytes(bytes: &mut Vec<u8>, data: &[u8])
    ensures
        final(bytes)@ == old(bytes)@ + data@,
{
    bytes.extend_from_slice(data);
    assert(bytes@ =~= old(bytes)@ + data@);
}

/// Appends the four bytes of a number, most significant first.
pub fn write_u32(bytes: &mut Vec<u8>, value: u32)
    ensures
        final(bytes)@ == old(bytes)@ + spec_u32_be(value),
{
    bytes.push((value >> 24) as u8);
    bytes.push((value >> 16) as u8);
    bytes.push((value >> 8) as u8);
    bytes.push(value as u8);
    assert(bytes@ =~= old(bytes)@ + spec_u32_be(value));
}

/// Appends the eight bytes of a signed number in two's complement, most
/// significant first.
pub fn write_i64(bytes: &mut Vec<u8>, value: i64)
    ensures
        final(bytes)@ == old(bytes)@ + spec_i64_be(value),
{
    let bits: u64 = #[verifier::truncate] (value as u64);
    bytes.push((bits >> 56) as u8);
    bytes.push((bits >> 48) as u8);
    bytes.push((bits >> 40) as u8);
    bytes.push((bits >> 32) as u8);
    bytes.push((bits >> 24) as u8);
    bytes.push((bits >> 16) as u8);
    bytes.push((bits >> 8) as u8);
    bytes.push(bits as u8);
    assert(bytes@ =~= old(bytes)@ + spec_i64_be(value));
}

proof fn lemma_u32_bits(v: u32)
    by (bit_vector)
    ensures
        ((((v >> 24) as u8) as u32) << 24) | ((((v >> 16) as u8) as u32) << 16) | ((((v >> 8) as u8) as u32)
            << 8) | ((v as u8) as u32) == v,
{
}

proof fn lemma_u64_bits(v: u64)
    by (bit_vector)
    ensures
        ((((v >> 56) as u8) as u64) << 56) | ((((v >> 48) as u8) as u64) << 48) | ((((v >> 40) as u8) as u64)
            << 40) | ((((v >> 32) as u8) as u64) << 32) | ((((v >> 24) as u8) as u64) << 24) | ((((v
            >> 16) as u8) as u64) << 16) | ((((v >> 8) as u8) as u64) << 8) | ((v as u8) as u64) == v,
{
}

proof fn lemma_i64_bits(v: i64)
    by (bit_vector)
    ensures
        ((v as u64) as i64) == v,
{
}

/// Reading the four bytes that were written for a number gives the number.
pub proof fn lemma_u32_roundtrip(value: u32)
    ensures
        spec_u32_be(value).len() == 4,
        spec_u32_from_be(spec_u32_be(value)) == value,
{
    lemma_u32_bits(value);
}

/// Reading the eight bytes that were written for a signed number gives the
/// number.
pub proof fn lemma_i64_roundtrip(value: i64)
    ensures
        spec_i64_be(value).len() == 8,
        spec_i64_from_be(spec_i64_be(value)) == value,
{
    lemma_u64_bits(value as u64);
    lemma_i64_bits(value);
}

} // verus!

verus! {

/// The eight binary digits of a byte, the most significant first.
pub open spec fn spec_byte_bits(byte: u8) -> Seq<char> {
    Seq::new(
        8,
        |k: int|
            if (byte >> ((7 - k) as u8)) & 1 == 1 {
                '1'
            } else {
                '0'
            },
    )
}

/// The binary digits of the first `n` bytes, eight for each byte, with a
/// space between one byte and the next.
pub open spec fn spec_binary_text(bytes: Seq<u8>, n: int) -> Seq<char>
    decreases n,
{
    if n <= 0 {
        Seq::empty()
    } else if n == 1 {
        spec_byte_bits(bytes[0])
    } else {
        spec_binary_text(bytes, n - 1) + seq![' '] + spec_byte_bits(bytes[n - 1])
    }
}

/// Writes bytes in binary: eight digits for each byte, with a space between
/// one byte and the next.
pub fn u8_slice_to_binary_string(bytes: &[u8]) -> (r: String)
    ensures
        r@ == spec_binary_text(bytes@, bytes@.len() as int),
{
    let mut text = String::new();
    let mut i: usize = 0;
    while i < bytes.len()
        invariant
            i <= bytes@.len(),
            text@ == spec_binary_text(bytes@, i as int),
        decreases bytes@.len() - i,
    {
        if i > 0 {
            string_push(&mut text, ' ');
        }
        let byte = bytes[i];
        let ghost before = text@;
        let mut k: u8 = 0;
        while k < 8
            invariant
                k <= 8,
                text@ == before + spec_byte_bits(byte).take(k as int),
            decreases 8 - k,
        {
            let bit = (byte >> (7 - k)) & 1;
            string_push(
                &mut text,
                if bit == 1 {
                    '1'
                } else {
                    '0'
                },
            );
            k += 1;
            assert(text@ =~= before + spec_byte_bits(byte).take(k as int));
        }
        assert(spec_byte_bits(byte).take(8) =~= spec_byte_bits(byte));
        i += 1;
        assert(text@ =~= spec_binary_text(bytes@, i as int));
    }
    text
}

/// The number that the last four bytes spell, if there are four.
pub open spec fn spec_trailing_length(bytes: Seq<u8>) -> Option<u32> {
    if bytes.len() >= 4 {
        Some(spec_u32_from_be(bytes.subrange(bytes.len() - 4, bytes.len() as int)))
    } else {
        None
    }
}

/// Reads the last four bytes as a big-endian number: the length that a
/// program or an archive ends with.
pub fn read_u32_from_end_of_bytes(bytes: &[u8]) -> (r: Option<u32>)
    ensures
        r == spec_trailing_length(bytes@),
{
    if bytes.len() < 4 {
        return None;
    }
    let mut cursor: usize = bytes.len() - 4;
    read_u32(bytes, &mut cursor)
}

/// Copies the last `n` bytes, if there are that many.
pub fn read_n_bytes_from_end_of_bytes(bytes: &[u8], n: usize) -> (r: Option<Vec<u8>>)
    ensures
        r is Some <==> n <= bytes@.len(),
        r matches Some(v) ==> v@ == bytes@.subrange(bytes@.len() - n, bytes@.len() as int),
{
    if n > bytes.len() {
        return None;
    }
    read_n_bytes_from_cursor(bytes, bytes.len() - n, n)
}

/// The payload that a file ends with: the file's last four bytes give the
/// length of the payload, and the payload is that many bytes at the end of
/// the file, the four included.
pub fn payload_at_end(file: &[u8]) -> (r: Option<Vec<u8>>)
    ensures
        match spec_trailing_length(file@) {
            Some(n) => if n <= file@.len() {
                r matches Some(v) && v@ == file@.subrange(file@.len() - n, file@.len() as int)
            } else {
                r is None
            },
            None => r is None,
        },
{
    match read_u32_from_end_of_bytes(file) {
        Some(n) => read_n_bytes_from_end_of_bytes(file, n as usize),
        None => None,
    }
}

} // verus!
