//! Hexadecimal encoding and decoding of byte strings.
use vstd::prelude::*;
use vstd::utf8::{encode_utf8, is_ascii_chars, is_ascii_chars_encode_utf8, is_continuation_byte};
use crate::error::{param_err, Error};
use crate::text::string_from_chars;

verus! {

/// ASCII code of the lowercase hexadecimal digit for `d`, which is below
/// sixteen.
pub open spec fn hex_digit_byte(d: nat) -> u8 {
    if d < 10 {
        (48 + d) as u8
    } else {
        (87 + d) as u8
    }
}

/// ASCII codes of `{:02x}` applied to every byte of `b`, concatenated.
pub open spec fn hex_bytes(b: Seq<u8>) -> Seq<u8>
    decreases b.len(),
{
    if b.len() == 0 {
        seq![]
    } else {
        seq![hex_digit_byte(b[0] as nat / 16), hex_digit_byte(b[0] as nat % 16)] + hex_bytes(
            b.drop_first(),
        )
    }
}

/// The text `hex_encode` makes of `b`: two lowercase hexadecimal digits per
/// byte, most significant first.
pub open spec fn hex_chars(b: Seq<u8>) -> Seq<char> {
    hex_bytes(b).map_values(|x: u8| x as char)
}

/// Value of the ASCII hexadecimal digit `c` (either case), or -1 when `c`
/// is not one.
pub open spec fn hex_value(c: u8) -> int {
    if 48 <= c <= 57 {
        c - 48
    } else if 97 <= c <= 102 {
        c - 87
    } else if 65 <= c <= 70 {
        c - 55
    } else {
        -1
    }
}

/// What `u8::from_str_radix(chunk, 16)` gives for the two-byte chunk
/// `c0 c1`: an optional `+` sign followed by digits; `None` when the chunk
/// is not such a number.
pub open spec fn hex_pair(c0: u8, c1: u8) -> Option<u8> {
    if c0 == 43 {
        if hex_value(c1) >= 0 {
            Some(hex_value(c1) as u8)
        } else {
            None
        }
    } else if hex_value(c0) >= 0 && hex_value(c1) >= 0 {
        Some((16 * hex_value(c0) + hex_value(c1)) as u8)
    } else {
        None
    }
}

/// How decoding a hexadecimal string ends.
pub enum HexOutcome {
    /// Every chunk was a number; these are the bytes.
    Decoded(Seq<u8>),
    /// The digits (after any `0x` prefixes) have odd length.
    OddLength,
    /// A chunk is not a hexadecimal number.
    InvalidDigit,
    /// A chunk boundary falls inside a multi-byte character, where slicing
    /// the string panics.
    Unsliceable,
}

/// `acc` followed by what `o` decoded, or `o` when it failed.
pub open spec fn prepend_decoded(acc: Seq<u8>, o: HexOutcome) -> HexOutcome {
    match o {
        HexOutcome::Decoded(rest) => HexOutcome::Decoded(acc + rest),
        _ => o,
    }
}

/// Decodes the even-length digit bytes `r` two at a time, in order,
/// stopping at the first chunk that cannot be sliced or parsed.
pub open spec fn hex_chunks(r: Seq<u8>) -> HexOutcome
    decreases r.len(),
{
    if r.len() < 2 {
        HexOutcome::Decoded(seq![])
    } else if is_continuation_byte(r[0]) || (r.len() > 2 && is_continuation_byte(r[2])) {
        HexOutcome::Unsliceable
    } else {
        match hex_pair(r[0], r[1]) {
            None => HexOutcome::InvalidDigit,
            Some(v) => prepend_decoded(seq![v], hex_chunks(r.skip(2))),
        }
    }
}

/// `b` without every leading `0x` (`str::trim_start_matches("0x")`).
pub open spec fn strip_0x(b: Seq<u8>) -> Seq<u8>
    decreases b.len(),
{
    if b.len() >= 2 && b[0] == 48 && b[1] == 120 {
        strip_0x(b.skip(2))
    } else {
        b
    }
}

/// How `hex_decode` ends on a string whose UTF-8 bytes are `b`.
pub open spec fn hex_decode_outcome(b: Seq<u8>) -> HexOutcome {
    let t = strip_0x(b);
    if t.len() % 2 != 0 {
        HexOutcome::OddLength
    } else {
        hex_chunks(t)
    }
}

proof fn lemma_prepend_decoded(a: Seq<u8>, b: Seq<u8>, o: HexOutcome)
    ensures
        prepend_decoded(a, prepend_decoded(b, o)) == prepend_decoded(a + b, o),
{
    match o {
        HexOutcome::Decoded(rest) => {
            assert(a + (b + rest) =~= (a + b) + rest);
        },
        _ => {},
    }
}

proof fn lemma_prepend_empty(o: HexOutcome)
    ensures
        prepend_decoded(seq![], o) == o,
{
    match o {
        HexOutcome::Decoded(rest) => {
            assert(Seq::<u8>::empty() + rest =~= rest);
        },
        _ => {},
    }
}

proof fn lemma_hex_bytes_push(b: Seq<u8>, x: u8)
    ensures
        hex_bytes(b.push(x)) == hex_bytes(b) + seq![
            hex_digit_byte(x as nat / 16),
            hex_digit_byte(x as nat % 16),
        ],
    decreases b.len(),
{
    if b.len() == 0 {
        assert(b.push(x).drop_first() =~= Seq::<u8>::empty());
        assert(hex_bytes(b) == Seq::<u8>::empty());
        assert(hex_bytes(b.push(x).drop_first()) == Seq::<u8>::empty());
        assert(hex_bytes(b.push(x)) =~= hex_bytes(b) + seq![
            hex_digit_byte(x as nat / 16),
            hex_digit_byte(x as nat % 16),
        ]);
    } else {
        assert(b.push(x).drop_first() =~= b.drop_first().push(x));
        lemma_hex_bytes_push(b.drop_first(), x);
        assert(hex_bytes(b.push(x)) =~= hex_bytes(b) + seq![
            hex_digit_byte(x as nat / 16),
            hex_digit_byte(x as nat % 16),
        ]);
    }
}

fn hex_digit_char(d: u8) -> (c: char)
    requires
        d < 16,
    ensures
        c == hex_digit_byte(d as nat) as char,
{
    if d < 10 {
        (48u8 + d) as char
    } else {
        (87u8 + d) as char
    }
}

/// Encode bytes as a hex string
pub fn hex_encode(data: &[u8]) -> (s: String)
    ensures
        s@ == hex_chars(data@),
{
    let mut v: Vec<char> = Vec::new();
    let mut i: usize = 0;
    while i < data.len()
        invariant
            i <= data@.len(),
            v@ == hex_chars(data@.take(i as int)),
        decreases data@.len() - i,
    {
        let x = data[i];
        proof {
            assert(data@.take(i + 1) =~= data@.take(i as int).push(x));
            lemma_hex_bytes_push(data@.take(i as int), x);
        }
        v.push(hex_digit_char(x / 16));
        v.push(hex_digit_char(x % 16));
        i += 1;
        assert(v@ =~= hex_chars(data@.take(i as int)));
    }
    assert(data@.take(data@.len() as int) =~= data@);
    string_from_chars(v.as_slice())
}

fn hex_value_of(c: u8) -> (v: i16)
    ensures
        v == hex_value(c),
{
    if 48 <= c && c <= 57 {
        c as i16 - 48
    } else if 97 <= c && c <= 102 {
        c as i16 - 87
    } else if 65 <= c && c <= 70 {
        c as i16 - 55
    } else {
        -1
    }
}

fn parse_hex_pair(c0: u8, c1: u8) -> (r: Option<u8>)
    ensures
        r == hex_pair(c0, c1),
{
    let lo = hex_value_of(c1);
    if c0 == 43 {
        if lo >= 0 {
            Some(lo as u8)
        } else {
            None
        }
    } else {
        let hi = hex_value_of(c0);
        if hi >= 0 && lo >= 0 {
            Some((16 * hi + lo) as u8)
        } else {
            None
        }
    }
}

/// Encode a hex string to bytes
///
/// Leading `0x` prefixes are skipped; the remaining digits are decoded two
/// at a time, each pair as `u8::from_str_radix(pair, 16)` reads it.
pub fn hex_decode(s: &str) -> (r: Result<Vec<u8>, Error>)
    requires
        hex_decode_outcome(encode_utf8(s@)) != HexOutcome::Unsliceable,
    ensures
        match hex_decode_outcome(encode_utf8(s@)) {
            HexOutcome::Decoded(v) => r matches Ok(out) && out@ == v,
            HexOutcome::OddLength => param_err(
                r,
                "Hex string must have even length"@,
            ),
            _ => param_err(r, "Invalid hex character"@),
        },
{
    let bytes = s.as_bytes();
    let mut start: usize = 0;
    assert(bytes@.skip(0) =~= bytes@);
    while bytes.len() - start >= 2 && bytes[start] == 48 && bytes[start + 1] == 120
        invariant
            start <= bytes@.len(),
            strip_0x(bytes@) == strip_0x(bytes@.skip(start as int)),
        decreases bytes@.len() - start,
    {
        assert(bytes@.skip(start as int).skip(2) =~= bytes@.skip(start + 2));
        start += 2;
    }
    let t = &bytes[start..bytes.len()];
    assert(t@ =~= bytes@.skip(start as int));
    assert(strip_0x(t@) == t@);
    if t.len() % 2 != 0 {
        return Err(Error::invalid_param("Hex string must have even length"));
    }
    let mut out: Vec<u8> = Vec::new();
    let mut i: usize = 0;
    proof {
        assert(t@.skip(0) =~= t@);
        lemma_prepend_empty(hex_chunks(t@));
    }
    while i < t.len()
        invariant
            i <= t@.len(),
            i % 2 == 0,
            t@.len() % 2 == 0,
            hex_decode_outcome(encode_utf8(s@)) == hex_chunks(t@),
            hex_chunks(t@) != HexOutcome::Unsliceable,
            hex_chunks(t@) == prepend_decoded(out@, hex_chunks(t@.skip(i as int))),
        decreases t@.len() - i,
    {
        let ghost r = t@.skip(i as int);
        assert(r[0] == t@[i as int] && r[1] == t@[i + 1]);
        assert(r.len() >= 2);
        assert(hex_chunks(r) != HexOutcome::Unsliceable) by {
            if hex_chunks(r) == HexOutcome::Unsliceable {
                assert(prepend_decoded(out@, hex_chunks(r)) == HexOutcome::Unsliceable);
            }
        }
        match parse_hex_pair(t[i], t[i + 1]) {
            None => {
                assert(hex_chunks(r) == HexOutcome::InvalidDigit);
                assert(hex_chunks(t@) == HexOutcome::InvalidDigit);
                return Err(Error::invalid_param("Invalid hex character"));
            },
            Some(v) => {
                proof {
                    assert(hex_chunks(r) == prepend_decoded(seq![v], hex_chunks(r.skip(2))));
                    assert(r.skip(2) =~= t@.skip(i + 2));
                    lemma_prepend_decoded(out@, seq![v], hex_chunks(r.skip(2)));
                }
                let ghost before = out@;
                out.push(v);
                assert(out@ =~= before + seq![v]);
                i += 2;
            },
        }
    }
    assert(t@.skip(i as int) =~= Seq::<u8>::empty());
    assert(out@ =~= out@ + Seq::<u8>::empty());
    Ok(out)
}

proof fn lemma_hex_value_digit(d: nat)
    requires
        d < 16,
    ensures
        hex_value(hex_digit_byte(d)) == d,
        hex_digit_byte(d) < 0x80,
        hex_digit_byte(d) != 120,
        hex_digit_byte(d) != 43,
{
}

/// Hexadecimal text decodes back to the bytes it encodes.
proof fn lemma_hex_chunks_of_hex_bytes(d: Seq<u8>)
    ensures
        hex_chunks(hex_bytes(d)) == HexOutcome::Decoded(d),
        hex_bytes(d).len() == 2 * d.len(),
        forall|i: int| 0 <= i < hex_bytes(d).len() ==> #[trigger] hex_bytes(d)[i] < 0x80 && hex_bytes(d)[i] != 120,
    decreases d.len(),
{
    if d.len() > 0 {
        let rest = d.drop_first();
        lemma_hex_chunks_of_hex_bytes(rest);
        let hi = d[0] as nat / 16;
        let lo = d[0] as nat % 16;
        lemma_hex_value_digit(hi);
        lemma_hex_value_digit(lo);
        let r = hex_bytes(d);
        assert(r[0] == hex_digit_byte(hi));
        assert(r[1] == hex_digit_byte(lo));
        assert(r.len() == 2 + hex_bytes(rest).len());
        assert(r.skip(2) =~= hex_bytes(rest));
        assert(16 * hi + lo == d[0]);
        assert(!is_continuation_byte(r[0]));
        assert(hex_pair(r[0], r[1]) == Some(d[0]));
        if r.len() > 2 {
            assert(r[2] == hex_bytes(rest)[0]);
        }
        assert(seq![d[0]] + rest =~= d);
        assert forall|i: int| 0 <= i < r.len() implies #[trigger] r[i] < 0x80 && r[i] != 120 by {
            if i >= 2 {
                assert(r[i] == hex_bytes(rest)[i - 2]);
            }
        }
        assert(hex_chunks(r) == prepend_decoded(seq![d[0]], hex_chunks(r.skip(2))));
        assert(hex_chunks(r.skip(2)) == HexOutcome::Decoded(rest));
        assert(prepend_decoded(seq![d[0]], HexOutcome::Decoded(rest)) == HexOutcome::Decoded(
            seq![d[0]] + rest,
        ));
    } else {
        assert(hex_bytes(d) =~= Seq::<u8>::empty());
        assert(d =~= Seq::<u8>::empty());
    }
}

/// Decoding what `hex_encode` produced gives back the bytes it encoded:
/// for every byte sequence `d`, `hex_decode(&hex_encode(d))` is `Ok(d)`.
pub proof fn lemma_hex_roundtrip(d: Seq<u8>)
    ensures
        hex_decode_outcome(encode_utf8(hex_chars(d))) == HexOutcome::Decoded(d),
{
    lemma_hex_chunks_of_hex_bytes(d);
    let cs = hex_chars(d);
    let b = hex_bytes(d);
    assert(is_ascii_chars(cs)) by {
        assert forall|i| 0 <= i < cs.len() implies '\0' <= #[trigger] cs[i] <= '\u{7f}' by {
            assert(cs[i] == b[i] as char);
        }
    }
    is_ascii_chars_encode_utf8(cs);
    assert(encode_utf8(cs) =~= b) by {
        assert forall|i| 0 <= i < b.len() implies encode_utf8(cs)[i] == b[i] by {
            assert(cs[i] == b[i] as char);
            assert(cs[i] as u8 == encode_utf8(cs)[i]);
        }
    }
    if b.len() >= 2 {
        assert(b[1] != 120);
    }
    assert(strip_0x(b) == b);
}

} // verus!
