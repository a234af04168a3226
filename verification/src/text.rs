//! Text on the wire: decimal rendering and UTF-8 decoding of name fields
//! and message bodies.
use vstd::prelude::*;
use vstd::utf8::*;

verus! {

/// The ASCII digit for `d`, which is below ten.
pub open spec fn digit_char(d: nat) -> char {
    (('0' as nat) + d) as char
}

/// Decimal rendering of `n` without leading zeros, as `Display` prints an
/// unsigned integer.
pub open spec fn decimal(n: nat) -> Seq<char>
    decreases n,
{
    if n < 10 {
        seq![digit_char(n)]
    } else {
        decimal(n / 10).push(digit_char(n % 10))
    }
}

/// Builds a `String` from a slice of characters by collecting them
/// (`String`'s `FromIterator<char>`).
///
/// Trusted: the contract claims that the string holds exactly these
/// characters, in order, as the standard library documents.
#[verifier::external_body]
pub(crate) fn string_from_chars(chars: &[char]) -> (s: String)
    ensures
        s@ == chars@,
{
    chars.iter().collect()
}

fn push_decimal(n: usize, out: &mut Vec<char>)
    ensures
        final(out)@ == old(out)@ + decimal(n as nat),
    decreases n,
{
    if n >= 10 {
        push_decimal(n / 10, out);
    }
    let d: u8 = (n % 10) as u8;
    let c: char = (48u8 + d) as char;
    assert(c == digit_char((n % 10) as nat));
    out.push(c);
}

/// `prefix`, then `n` in decimal, then `suffix`: the message of an error
/// that reports a length.
pub(crate) fn message_with_count(prefix: &str, n: usize, suffix: &str) -> (m: String)
    ensures
        m@ == prefix@ + decimal(n as nat) + suffix@,
{
    let mut digits: Vec<char> = Vec::new();
    push_decimal(n, &mut digits);
    assert(digits@ =~= decimal(n as nat));
    let mut m = prefix.to_owned();
    let d = string_from_chars(digits.as_slice());
    m.append(d.as_str());
    m.append(suffix);
    m
}


/// Number of leading elements of `s` for which `keep` holds.
pub open spec fn run_len<A>(s: Seq<A>, keep: spec_fn(A) -> bool) -> nat
    decreases s.len(),
{
    if s.len() == 0 || !keep(s[0]) {
        0
    } else {
        1 + run_len(s.drop_first(), keep)
    }
}

/// Number of trailing elements of `s` for which `keep` holds.
pub open spec fn trailing_run_len<A>(s: Seq<A>, keep: spec_fn(A) -> bool) -> nat
    decreases s.len(),
{
    if s.len() == 0 || !keep(s.last()) {
        0
    } else {
        1 + trailing_run_len(s.drop_last(), keep)
    }
}

/// A run that holds on the first `i` elements and stops at element `i`
/// has length `i`.
pub proof fn lemma_run_len<A>(s: Seq<A>, keep: spec_fn(A) -> bool, i: int)
    requires
        0 <= i <= s.len(),
        forall|j: int| 0 <= j < i ==> keep(#[trigger] s[j]),
        i == s.len() || !keep(s[i]),
    ensures
        run_len(s, keep) == i,
    decreases i,
{
    if i > 0 {
        let t = s.drop_first();
        assert forall|j: int| 0 <= j < i - 1 implies keep(#[trigger] t[j]) by {
            assert(t[j] == s[j + 1]);
        }
        if i < s.len() {
            assert(t[i - 1] == s[i]);
        }
        lemma_run_len(t, keep, i - 1);
    }
}

/// A trailing run that holds on the last `i` elements and stops before
/// them has length `i`.
pub proof fn lemma_trailing_run_len<A>(s: Seq<A>, keep: spec_fn(A) -> bool, i: int)
    requires
        0 <= i <= s.len(),
        forall|j: int| s.len() - i <= j < s.len() ==> keep(#[trigger] s[j]),
        i == s.len() || !keep(s[s.len() - 1 - i]),
    ensures
        trailing_run_len(s, keep) == i,
    decreases i,
{
    if i > 0 {
        let t = s.drop_last();
        assert forall|j: int| t.len() - (i - 1) <= j < t.len() implies keep(#[trigger] t[j]) by {
            assert(t[j] == s[j]);
        }
        if i < s.len() {
            assert(t[t.len() - 1 - (i - 1)] == s[s.len() - 1 - i]);
        }
        assert(keep(s[s.len() - 1]));
        lemma_trailing_run_len(t, keep, i - 1);
    }
}

/// `char::is_control`: the characters of Unicode general category Cc.
pub open spec fn is_control(c: char) -> bool {
    (c as u32) <= 0x1f || (0x7f <= (c as u32) && (c as u32) <= 0x9f)
}

/// `char::is_whitespace`: the characters with the Unicode White_Space
/// property.
pub open spec fn is_whitespace(c: char) -> bool {
    let u = c as u32;
    ||| 0x09 <= u <= 0x0d
    ||| u == 0x20
    ||| u == 0x85
    ||| u == 0xa0
    ||| u == 0x1680
    ||| 0x2000 <= u <= 0x200a
    ||| u == 0x2028
    ||| u == 0x2029
    ||| u == 0x202f
    ||| u == 0x205f
    ||| u == 0x3000
}

/// The replacement character that lossy UTF-8 decoding puts in place of an
/// invalid sequence.
pub open spec fn replacement_char() -> char {
    '\u{FFFD}'
}

/// A character that can be part of a name field: it is neither a control
/// character nor the replacement character.
pub open spec fn name_char(c: char) -> bool {
    !is_control(c) && c != replacement_char()
}

/// Bytes before the first NUL.
pub open spec fn keep_nonzero() -> spec_fn(u8) -> bool {
    |b: u8| b != 0
}

/// Characters before the first control or replacement character.
pub open spec fn keep_name_char() -> spec_fn(char) -> bool {
    |c: char| name_char(c)
}

/// Whitespace characters, as `str::trim` removes them.
pub open spec fn keep_whitespace() -> spec_fn(char) -> bool {
    |c: char| is_whitespace(c)
}

/// `cs` without leading and trailing whitespace (`str::trim`).
pub open spec fn trim_ws(cs: Seq<char>) -> Seq<char> {
    let t = cs.skip(run_len(cs, keep_whitespace()) as int);
    t.take(t.len() - trailing_run_len(t, keep_whitespace()))
}

/// Length of the longest prefix of `b` that is well-formed UTF-8, found by
/// decoding scalar after scalar until one is malformed.
pub open spec fn utf8_valid_prefix_len(b: Seq<u8>) -> nat
    decreases b.len(),
{
    if b.len() > 0 && valid_first_scalar(b) {
        (length_of_first_scalar(b) + utf8_valid_prefix_len(pop_first_scalar(b))) as nat
    } else {
        0
    }
}

/// The characters of the longest well-formed UTF-8 prefix of `b`.
pub open spec fn utf8_valid_prefix(b: Seq<u8>) -> Seq<char> {
    decode_utf8(b.take(utf8_valid_prefix_len(b) as int))
}

/// The prefix that `utf8_valid_prefix_len` measures is well-formed, and
/// what follows it (if anything) does not start with a well-formed scalar.
pub proof fn lemma_utf8_valid_prefix(b: Seq<u8>)
    ensures
        utf8_valid_prefix_len(b) <= b.len(),
        valid_utf8(b.take(utf8_valid_prefix_len(b) as int)),
        utf8_valid_prefix_len(b) < b.len() ==> !valid_first_scalar(
            b.skip(utf8_valid_prefix_len(b) as int),
        ),
    decreases b.len(),
{
    let p = utf8_valid_prefix_len(b) as int;
    if b.len() > 0 && valid_first_scalar(b) {
        let l = length_of_first_scalar(b);
        let rest = pop_first_scalar(b);
        lemma_utf8_valid_prefix(rest);
        let q = utf8_valid_prefix_len(rest) as int;
        assert(p == l + q);
        let t = b.take(p);
        assert(t[0] == b[0]);
        assert(l >= 2 ==> t[1] == b[1]);
        assert(l >= 3 ==> t[2] == b[2]);
        assert(l >= 4 ==> t[3] == b[3]);
        assert(valid_first_scalar(t));
        assert(length_of_first_scalar(t) == l);
        assert(pop_first_scalar(t) =~= rest.take(q));
        assert(b.skip(p) =~= rest.skip(q));
    } else {
        assert(b.take(0) =~= Seq::<u8>::empty());
    }
}

/// Decoding never yields more characters than there are bytes.
pub proof fn lemma_decode_utf8_len(b: Seq<u8>)
    requires
        valid_utf8(b),
    ensures
        decode_utf8(b).len() <= b.len(),
    decreases b.len(),
{
    if b.len() > 0 {
        lemma_decode_utf8_len(pop_first_scalar(b));
    }
}

/// Well-formed UTF-8 is its own longest well-formed prefix.
pub proof fn lemma_valid_prefix_of_valid(b: Seq<u8>)
    requires
        valid_utf8(b),
    ensures
        utf8_valid_prefix_len(b) == b.len(),
        utf8_valid_prefix(b) == decode_utf8(b),
    decreases b.len(),
{
    if b.len() > 0 {
        lemma_valid_prefix_of_valid(pop_first_scalar(b));
    }
    assert(b.take(b.len() as int) =~= b);
}

/// A name for the text that `String::from_utf8_lossy` makes of `bytes`.
pub uninterp spec fn utf8_lossy(bytes: Seq<u8>) -> Seq<char>;

/// Decodes `bytes` with `String::from_utf8_lossy`.
///
/// Trusted: the standard library documents that valid UTF-8 is decoded
/// unchanged and that each invalid sequence becomes U+FFFD. The contract
/// states that the longest well-formed prefix of `bytes` is decoded
/// unchanged and, when bytes remain after it, is followed by U+FFFD; what
/// the rest of the text holds is left unsaid beyond the name `utf8_lossy`.
#[verifier::external_body]
pub(crate) fn decode_utf8_lossy(bytes: &[u8]) -> (s: String)
    ensures
        s@ == utf8_lossy(bytes@),
        utf8_valid_prefix(bytes@).len() <= s@.len(),
        s@.take(utf8_valid_prefix(bytes@).len() as int) == utf8_valid_prefix(bytes@),
        utf8_valid_prefix_len(bytes@) == bytes@.len() ==> s@ == utf8_valid_prefix(bytes@),
        utf8_valid_prefix_len(bytes@) < bytes@.len() ==> s@[utf8_valid_prefix(bytes@).len() as int]
            == replacement_char(),
{
    String::from_utf8_lossy(bytes).into_owned()
}

/// The text of a message body that starts at `start`: the lossy UTF-8
/// decoding of everything from `start` on, or nothing when no byte follows.
pub open spec fn tail_text(d: Seq<u8>, start: int) -> Seq<char> {
    if d.len() > start {
        utf8_lossy(d.subrange(start, d.len() as int))
    } else {
        seq![]
    }
}

/// Decodes `data[start..]` lossily, as message bodies are read.
pub(crate) fn text_from(data: &[u8], start: usize) -> (s: String)
    requires
        start <= data.len(),
    ensures
        s@ == tail_text(data@, start as int),
        valid_utf8(data@.subrange(start as int, data.len() as int)) ==> s@ == decode_utf8(
            data@.subrange(start as int, data.len() as int),
        ),
{
    if data.len() > start {
        let s = decode_utf8_lossy(&data[start..data.len()]);
        proof {
            let b = data@.subrange(start as int, data.len() as int);
            if valid_utf8(b) {
                lemma_valid_prefix_of_valid(b);
            }
        }
        s
    } else {
        proof {
            let b = data@.subrange(start as int, data.len() as int);
            assert(b =~= Seq::<u8>::empty());
            assert(decode_utf8(b) =~= Seq::<char>::empty());
        }
        String::new()
    }
}

/// The characters of `s`, in order.
pub(crate) fn chars_of(s: &str) -> (v: Vec<char>)
    ensures
        v@ == s@,
{
    let mut v: Vec<char> = Vec::new();
    for c in it: s.chars()
        invariant
            v@ == it.seq().take(it.index() as int),
    {
        v.push(c);
    }
    v
}

fn is_whitespace_char(c: char) -> (b: bool)
    ensures
        b == is_whitespace(c),
{
    let u = c as u32;
    (0x09 <= u && u <= 0x0d) || u == 0x20 || u == 0x85 || u == 0xa0 || u == 0x1680 || (0x2000
        <= u && u <= 0x200a) || u == 0x2028 || u == 0x2029 || u == 0x202f || u == 0x205f || u
        == 0x3000
}

fn is_name_char(c: char) -> (b: bool)
    ensures
        b == name_char(c),
{
    let u = c as u32;
    !(u <= 0x1f || (0x7f <= u && u <= 0x9f)) && u != 0xfffd
}

/// Where the name characters of a lossy decoding end, they end in the
/// well-formed prefix too.
proof fn lemma_name_run(decoded: Seq<char>, raw: Seq<u8>, k: int)
    requires
        utf8_valid_prefix_len(raw) <= raw.len(),
        utf8_valid_prefix(raw).len() <= decoded.len(),
        decoded.take(utf8_valid_prefix(raw).len() as int) == utf8_valid_prefix(raw),
        utf8_valid_prefix_len(raw) == raw.len() ==> decoded == utf8_valid_prefix(raw),
        utf8_valid_prefix_len(raw) < raw.len() ==> decoded[utf8_valid_prefix(raw).len() as int]
            == replacement_char(),
        0 <= k <= decoded.len(),
        forall|j: int| 0 <= j < k ==> name_char(#[trigger] decoded[j]),
        k == decoded.len() || !name_char(decoded[k]),
    ensures
        k <= utf8_valid_prefix(raw).len(),
        run_len(utf8_valid_prefix(raw), keep_name_char()) == k,
        utf8_valid_prefix(raw).take(k) == decoded.take(k),
{
    let valid = utf8_valid_prefix(raw);
    if k > valid.len() {
        if utf8_valid_prefix_len(raw) < raw.len() {
            assert(name_char(decoded[valid.len() as int]));
        }
    }
    assert(k <= valid.len());
    assert forall|j: int| 0 <= j < k implies keep_name_char()(#[trigger] valid[j]) by {
        assert(valid[j] == decoded.take(valid.len() as int)[j]);
    }
    if k < valid.len() {
        assert(valid[k] == decoded.take(valid.len() as int)[k]);
    }
    lemma_run_len(valid, keep_name_char(), k);
    assert(valid.take(k) =~= decoded.take(k)) by {
        assert forall|j: int| 0 <= j < k implies valid.take(k)[j] == decoded.take(k)[j] by {
            assert(valid[j] == decoded.take(valid.len() as int)[j]);
        }
    }
}

/// Trimming `cs` keeps `cs[a..z]` when everything before `a` and from `z`
/// on is whitespace and the characters at `a` and `z - 1` are not.
proof fn lemma_trim_bounds(cs: Seq<char>, a: int, z: int)
    requires
        0 <= a <= z <= cs.len(),
        forall|j: int| 0 <= j < a ==> is_whitespace(#[trigger] cs[j]),
        a == z || !is_whitespace(cs[a]),
        forall|j: int| z <= j < cs.len() ==> is_whitespace(#[trigger] cs[j]),
        z == a || !is_whitespace(cs[z - 1]),
    ensures
        trim_ws(cs) == cs.subrange(a, z),
{
    if a == z {
        assert forall|j: int| 0 <= j < cs.len() implies keep_whitespace()(#[trigger] cs[j]) by {
            if j >= z {
            }
        }
        lemma_run_len(cs, keep_whitespace(), cs.len() as int);
        assert(trim_ws(cs) =~= cs.subrange(a, z));
    } else {
        assert forall|j: int| 0 <= j < a implies keep_whitespace()(#[trigger] cs[j]) by {}
        lemma_run_len(cs, keep_whitespace(), a);
        let t = cs.skip(a);
        assert forall|j: int| t.len() - (cs.len() - z) <= j < t.len() implies keep_whitespace()(
            #[trigger] t[j],
        ) by {
            assert(t[j] == cs[a + j]);
        }
        assert(t[t.len() - 1 - (cs.len() - z)] == cs[z - 1]);
        lemma_trailing_run_len(t, keep_whitespace(), cs.len() - z);
        assert(trim_ws(cs) =~= cs.subrange(a, z));
    }
}

/// The name a fixed-width field holds: the bytes before the first NUL,
/// decoded as UTF-8 up to the first control character or malformed
/// sequence, with surrounding whitespace trimmed.
pub open spec fn field_text(field: Seq<u8>) -> Seq<char> {
    let raw = field.take(run_len(field, keep_nonzero()) as int);
    let valid = utf8_valid_prefix(raw);
    trim_ws(valid.take(run_len(valid, keep_name_char()) as int))
}

/// The text `read_string` returns: the field of at most `max_len` bytes at
/// `offset`, cut short by the end of `data`.
pub open spec fn read_string_spec(data: Seq<u8>, offset: int, max_len: int) -> Seq<char> {
    let end = if offset + max_len < data.len() {
        offset + max_len
    } else {
        data.len() as int
    };
    field_text(data.subrange(offset, end))
}

/// Read a null-terminated or fixed-length UTF-8 string.
///
/// A device's name/label field is not always null-terminated or
/// zero-padded within its fixed-size slot on the wire (observed on real
/// advertisement pushes) — bytes past the logical end of the string can
/// be leftover garbage. Stop at the first NUL byte, control character, or
/// invalid-UTF-8 byte, whichever comes first — a legitimate name never
/// contains any of those.
pub fn read_string(data: &[u8], offset: usize, max_len: usize) -> (s: String)
    requires
        offset <= data.len(),
        offset + max_len <= usize::MAX,
    ensures
        s@ == read_string_spec(data@, offset as int, max_len as int),
        forall|i: int| 0 <= i < s@.len() ==> name_char(#[trigger] s@[i]),
        s@.len() > 0 ==> !is_whitespace(s@[0]) && !is_whitespace(s@.last()),
        s@.len() <= max_len,
{
    let end = if offset + max_len < data.len() {
        offset + max_len
    } else {
        data.len()
    };
    let field = &data[offset..end];
    let mut n: usize = 0;
    while n < field.len() && field[n] != 0
        invariant
            n <= field@.len(),
            forall|j: int| 0 <= j < n ==> field@[j] != 0,
        decreases field@.len() - n,
    {
        n += 1;
    }
    proof {
        lemma_run_len(field@, keep_nonzero(), n as int);
    }
    let raw = &field[0..n];
    let decoded = decode_utf8_lossy(raw);
    let ghost valid = utf8_valid_prefix(raw@);
    proof {
        lemma_utf8_valid_prefix(raw@);
        lemma_decode_utf8_len(raw@.take(utf8_valid_prefix_len(raw@) as int));
    }
    let chars = chars_of(decoded.as_str());
    let mut k: usize = 0;
    while k < chars.len() && is_name_char(chars[k])
        invariant
            k <= chars@.len(),
            forall|j: int| 0 <= j < k ==> name_char(#[trigger] chars@[j]),
        decreases chars@.len() - k,
    {
        k += 1;
    }
    proof {
        lemma_name_run(decoded@, raw@, k as int);
    }
    let mut a: usize = 0;
    while a < k && is_whitespace_char(chars[a])
        invariant
            a <= k <= chars@.len(),
            forall|j: int| 0 <= j < a ==> is_whitespace(#[trigger] chars@[j]),
        decreases k - a,
    {
        a += 1;
    }
    let mut z: usize = k;
    while z > a && is_whitespace_char(chars[z - 1])
        invariant
            a <= z <= k <= chars@.len(),
            forall|j: int| z <= j < k ==> is_whitespace(#[trigger] chars@[j]),
        decreases z - a,
    {
        z -= 1;
    }
    proof {
        lemma_trim_bounds(chars@.take(k as int), a as int, z as int);
        assert(chars@.take(k as int).subrange(a as int, z as int) =~= chars@.subrange(
            a as int,
            z as int,
        ));
    }
    let out = string_from_chars(&chars.as_slice()[a..z]);
    out
}

/// Law: a name field whose bytes up to the first NUL (or the end of the
/// field) are well-formed UTF-8 holding no control character (U+0000 to
/// U+001F, U+007F to U+009F) and no U+FFFD reads back as exactly their
/// decoding, trimmed of surrounding whitespace. Every other scalar value,
/// those above U+FFFF included, is kept; a name that neither starts nor
/// ends with whitespace reads back unchanged.
pub proof fn lemma_plain_name_field(data: Seq<u8>, offset: int, max_len: int, n: int)
    requires
        0 <= offset,
        0 <= n <= max_len,
        offset + n <= data.len(),
        forall|j: int| offset <= j < offset + n ==> data[j] != 0,
        n < max_len && offset + n < data.len() ==> data[offset + n] == 0,
        valid_utf8(data.subrange(offset, offset + n)),
        forall|i: int|
            0 <= i < decode_utf8(data.subrange(offset, offset + n)).len() ==> {
                let u = (#[trigger] decode_utf8(data.subrange(offset, offset + n))[i]) as u32;
                &&& u > 0x1f
                &&& !(0x7f <= u && u <= 0x9f)
                &&& u != 0xfffd
            },
    ensures
        read_string_spec(data, offset, max_len) == trim_ws(
            decode_utf8(data.subrange(offset, offset + n)),
        ),
        ({
            let text = decode_utf8(data.subrange(offset, offset + n));
            text.len() > 0 && !is_whitespace(text[0]) && !is_whitespace(text.last())
                ==> read_string_spec(data, offset, max_len) == text
        }),
{
    let end = if offset + max_len < data.len() {
        offset + max_len
    } else {
        data.len() as int
    };
    let field = data.subrange(offset, end);
    assert forall|j: int| 0 <= j < n implies keep_nonzero()(#[trigger] field[j]) by {
        assert(field[j] == data[offset + j]);
    }
    if n < field.len() {
        assert(field[n] == data[offset + n]);
    }
    lemma_run_len(field, keep_nonzero(), n);
    let raw = field.take(n);
    assert(raw =~= data.subrange(offset, offset + n));
    lemma_valid_prefix_of_valid(raw);
    let text = decode_utf8(raw);
    assert forall|j: int| 0 <= j < text.len() implies keep_name_char()(#[trigger] text[j]) by {
        let c = text[j];
        let u = c as u32;
        assert(u > 0x1f && !(0x7f <= u && u <= 0x9f) && u != 0xfffd);
        assert(c != replacement_char());
    }
    lemma_run_len(text, keep_name_char(), text.len() as int);
    assert(text.take(text.len() as int) =~= text);
    assert(read_string_spec(data, offset, max_len) == trim_ws(text));
    if text.len() > 0 && !is_whitespace(text[0]) && !is_whitespace(text.last()) {
        lemma_trim_bounds(text, 0, text.len() as int);
        assert(text.subrange(0, text.len() as int) =~= text);
    }
}

} // verus!
