//! Envelope codec for `AnalysisInput`: four string fields in the tagged,
//! length-delimited binary layout (field tag + wire type + value).

use vstd::prelude::*;
use vstd::utf8::*;

verus! {

broadcast use {encode_utf8_valid_utf8, encode_utf8_decode_utf8};

/// Exclusive bound on a varint value decoded with `r` bytes still allowed
/// (the last allowed byte may only carry one bit).
pub open spec fn varint_cap(r: nat) -> nat
    decreases r,
{
    if r <= 1 {
        2
    } else {
        128 * varint_cap((r - 1) as nat)
    }
}

/// Reads a little-endian base-128 varint from the front of `b`, where `k`
/// bytes of it were already read; at most ten bytes in all, and the tenth
/// byte may only be 0 or 1. Gives the value and the number of bytes used.
pub open spec fn read_varint(b: Seq<u8>, k: nat) -> Option<(nat, nat)>
    decreases b.len(),
{
    if b.len() == 0 || k > 9 {
        None
    } else if k == 9 {
        if b[0] <= 1 {
            Some((b[0] as nat, 1))
        } else {
            None
        }
    } else if b[0] < 128 {
        Some((b[0] as nat, 1))
    } else {
        match read_varint(b.drop_first(), k + 1) {
            Some((v, n)) => Some(((b[0] - 128) as nat + 128 * v, n + 1)),
            None => None,
        }
    }
}

/// The canonical varint encoding of `n`.
pub open spec fn varint_bytes(n: nat) -> Seq<u8>
    decreases n,
{
    if n < 128 {
        seq![n as u8]
    } else {
        seq![(n % 128 + 128) as u8] + varint_bytes(n / 128)
    }
}

proof fn lemma_cap_bound(r: nat)
    requires
        r <= 10,
    ensures
        varint_cap(r) <= 0x1_0000_0000_0000_0000,
        r >= 2 ==> varint_cap(r) >= 256,
        r == 10 ==> varint_cap(r) == 0x1_0000_0000_0000_0000,
    decreases 10 - r,
{
    reveal_with_fuel(varint_cap, 11);
    if r < 10 {
        lemma_cap_bound(r + 1);
        if r >= 1 {
            assert(varint_cap(r + 1) == 128 * varint_cap(r));
        } else {
            assert(varint_cap(0) == 2);
        }
    }
}

proof fn lemma_varint_round_trip(n: nat, k: nat, rest: Seq<u8>)
    requires
        k <= 9,
        n < varint_cap((10 - k) as nat),
    ensures
        read_varint(varint_bytes(n) + rest, k) == Some((n, varint_bytes(n).len())),
    decreases n,
{
    let b = varint_bytes(n) + rest;
    if n < 128 {
        assert(b[0] == n as u8);
        if k == 9 {
            assert(n < 2);
        }
    } else {
        let r = (10 - k) as nat;
        if k == 9 {
            assert(false);
        }
        assert(varint_cap(r) == 128 * varint_cap((r - 1) as nat));
        assert(n / 128 < varint_cap((r - 1) as nat)) by (nonlinear_arith)
            requires
                n < 128 * varint_cap((r - 1) as nat),
        ;
        lemma_varint_round_trip(n / 128, k + 1, rest);
        assert(b.drop_first() =~= varint_bytes(n / 128) + rest);
        assert(b[0] == (n % 128 + 128) as u8);
        assert(n == n % 128 + 128 * (n / 128)) by (nonlinear_arith);
    }
}

/// Model of an `AnalysisInput`: the four fields as character sequences.
pub ghost struct InputView {
    pub content_hash: Seq<char>,
    pub content_text: Seq<char>,
    pub source_id: Seq<char>,
    pub image_url: Seq<char>,
}

/// The value with every field absent.
pub open spec fn empty_view() -> InputView {
    InputView {
        content_hash: Seq::empty(),
        content_text: Seq::empty(),
        source_id: Seq::empty(),
        image_url: Seq::empty(),
    }
}

/// `acc` with the field of tag `tag` (1 to 4) set to `s`.
pub open spec fn with_field(acc: InputView, tag: nat, s: Seq<char>) -> InputView {
    if tag == 1 {
        InputView { content_hash: s, ..acc }
    } else if tag == 2 {
        InputView { content_text: s, ..acc }
    } else if tag == 3 {
        InputView { source_id: s, ..acc }
    } else {
        InputView { image_url: s, ..acc }
    }
}

/// Nesting allowed when skipping unknown fields: each field inside a
/// group takes one level.
pub const SKIP_DEPTH: u32 = 100;

/// Number of bytes that the value of an unknown field of wire type `wire`
/// and tag `tag` occupies at the front of `rest`: varint (0), 64-bit (1),
/// length-delimited (2), group (3, up to its matching end key) and 32-bit
/// (5). `c` levels of nesting are left; none left is an error.
pub open spec fn field_len(wire: nat, tag: nat, rest: Seq<u8>, c: nat) -> Option<nat>
    decreases rest.len(), 1nat,
{
    if c == 0 {
        None
    } else if wire == 0 {
        match read_varint(rest, 0) {
            Some((v, n)) => Some(n),
            None => None,
        }
    } else if wire == 1 {
        Some(8)
    } else if wire == 5 {
        Some(4)
    } else if wire == 2 {
        match read_varint(rest, 0) {
            Some((len, n)) => Some(n + len),
            None => None,
        }
    } else if wire == 3 {
        group_len(tag, rest, c)
    } else {
        None
    }
}

/// Number of bytes from the front of `b` to the end of the end key of a
/// group opened with `tag`, skipping the fields inside it.
pub open spec fn group_len(tag: nat, b: Seq<u8>, c: nat) -> Option<nat>
    decreases b.len(), 0nat,
{
    if c == 0 {
        None
    } else {
        match read_varint(b, 0) {
            None => None,
            Some((key, n)) => {
                if key > u32::MAX || key / 8 == 0 || key % 8 > 5 || n == 0 || n > b.len() {
                    None
                } else if key % 8 == 4 {
                    if key / 8 == tag {
                        Some(n)
                    } else {
                        None
                    }
                } else {
                    let rest = b.subrange(n as int, b.len() as int);
                    match field_len(key % 8, key / 8, rest, (c - 1) as nat) {
                        None => None,
                        Some(v) => {
                            if v > rest.len() {
                                None
                            } else {
                                match group_len(tag, rest.subrange(v as int, rest.len() as int), c) {
                                    None => None,
                                    Some(w) => Some(n + v + w),
                                }
                            }
                        }
                    }
                }
            }
        }
    }
}

/// Decodes the fields in `b` on top of `acc`: a later occurrence of a field
/// replaces an earlier one, unknown fields are skipped, and `None` means
/// that `b` is not a well-formed envelope.
pub open spec fn parse_fields(b: Seq<u8>, acc: InputView) -> Option<InputView>
    decreases b.len(),
{
    if b.len() == 0 {
        Some(acc)
    } else {
        match read_varint(b, 0) {
            None => None,
            Some((key, n)) => {
                let wire = key % 8;
                let tag = key / 8;
                let rest = b.subrange(n as int, b.len() as int);
                if key > u32::MAX || tag == 0 || n == 0 || n > b.len() {
                    None
                } else if tag <= 4 {
                    if wire != 2 {
                        None
                    } else {
                        match read_varint(rest, 0) {
                            None => None,
                            Some((len, m)) => {
                                if m + len > rest.len() {
                                    None
                                } else {
                                    let body = rest.subrange(m as int, (m + len) as int);
                                    if !valid_utf8(body) {
                                        None
                                    } else {
                                        parse_fields(
                                            rest.subrange((m + len) as int, rest.len() as int),
                                            with_field(acc, tag, decode_utf8(body)),
                                        )
                                    }
                                }
                            }
                        }
                    }
                } else {
                    match field_len(wire, tag, rest, SKIP_DEPTH as nat) {
                        None => None,
                        Some(s) => {
                            if s > rest.len() {
                                None
                            } else {
                                parse_fields(rest.subrange(s as int, rest.len() as int), acc)
                            }
                        }
                    }
                }
            }
        }
    }
}

/// What a byte sequence decodes to; `None` when it is malformed.
pub open spec fn decode_spec(b: Seq<u8>) -> Option<InputView> {
    parse_fields(b, empty_view())
}

/// The encoding of one string field: nothing when the string is empty,
/// else the key byte, the byte length as a varint, and the UTF-8 bytes.
pub open spec fn field_bytes(tag: nat, s: Seq<char>) -> Seq<u8> {
    if s.len() == 0 {
        Seq::empty()
    } else {
        seq![(tag * 8 + 2) as u8] + varint_bytes(encode_utf8(s).len()) + encode_utf8(s)
    }
}

/// The encoding of a whole value: its fields in tag order.
pub open spec fn encode_spec(v: InputView) -> Seq<u8> {
    field_bytes(1, v.content_hash) + field_bytes(2, v.content_text) + field_bytes(3, v.source_id)
        + field_bytes(4, v.image_url)
}

/// One analysis job: immutable once decoded.
#[derive(Clone, Debug, PartialEq, Eq)]
pub struct AnalysisInput {
    pub content_hash: String,
    pub content_text: String,
    pub source_id: String,
    pub image_url: String,
}

/// The envelope is not a well-formed encoding of an `AnalysisInput`.
#[derive(Clone, Copy, Debug, PartialEq, Eq)]
pub struct DecodeError;

impl View for AnalysisInput {
    type V = InputView;

    open spec fn view(&self) -> InputView {
        InputView {
            content_hash: self.content_hash@,
            content_text: self.content_text@,
            source_id: self.source_id@,
            image_url: self.image_url@,
        }
    }
}

/// Relies on `String::from_utf8`: it succeeds exactly on valid UTF-8 and
/// then holds the characters those bytes encode.
#[verifier::external_body]
fn string_from_utf8(bytes: Vec<u8>) -> (r: Option<String>)
    ensures
        r is Some <==> valid_utf8(bytes@),
        r matches Some(s) ==> s@ == decode_utf8(bytes@),
{
    String::from_utf8(bytes).ok()
}

/// Reads a varint at `pos`, `k` of its bytes being already read.
fn decode_varint(b: &[u8], pos: usize, k: u8) -> (r: Option<(u64, usize)>)
    requires
        pos <= b@.len(),
        k <= 9,
    ensures
        match read_varint(b@.subrange(pos as int, b@.len() as int), k as nat) {
            Some((v, n)) => r matches Some((x, y)) && x == v && y == n && v < varint_cap(
                (10 - k) as nat,
            ) && 1 <= n && pos + n <= b@.len(),
            None => r is None,
        },
    decreases b@.len() - pos,
{
    let ghost tail = b@.subrange(pos as int, b@.len() as int);
    if pos >= b.len() {
        return None;
    }
    let byte = b[pos];
    assert(tail[0] == byte);
    proof {
        lemma_cap_bound((10 - k) as nat);
    }
    if k == 9 {
        if byte <= 1 {
            Some((byte as u64, 1))
        } else {
            None
        }
    } else if byte < 128 {
        Some((byte as u64, 1))
    } else {
        assert(tail.drop_first() =~= b@.subrange(pos + 1, b@.len() as int));
        match decode_varint(b, pos + 1, k + 1) {
            None => None,
            Some((v, n)) => {
                let ghost c = varint_cap((9 - k) as nat);
                assert(varint_cap((10 - k) as nat) == 128 * c);
                assert((byte - 128) + 128 * v < 128 * c) by (nonlinear_arith)
                    requires
                        v < c,
                        byte < 256,
                        byte >= 128,
                ;
                Some(((byte - 128) as u64 + 128 * v, n + 1))
            },
        }
    }
}

/// Appends the varint encoding of `n`.
fn encode_varint(n: u64, out: &mut Vec<u8>)
    ensures
        final(out)@ == old(out)@ + varint_bytes(n as nat),
{
    let mut v: u64 = n;
    while v >= 128
        invariant
            out@ + varint_bytes(v as nat) == old(out)@ + varint_bytes(n as nat),
        decreases v,
    {
        let ghost before = out@;
        out.push((v % 128 + 128) as u8);
        assert(varint_bytes(v as nat) == seq![(v % 128 + 128) as u8] + varint_bytes((v / 128) as nat));
        assert(out@ + varint_bytes((v / 128) as nat) =~= before + varint_bytes(v as nat));
        v = v / 128;
    }
    out.push(v as u8);
    assert(out@ =~= old(out)@ + varint_bytes(n as nat));
}

/// Appends the encoding of one string field.
fn encode_field(tag: u8, s: &String, out: &mut Vec<u8>)
    requires
        1 <= tag <= 4,
    ensures
        final(out)@ == old(out)@ + field_bytes(tag as nat, s@),
        encode_utf8(s@).len() < 0x1_0000_0000_0000_0000,
{
    let bytes = s.as_str().as_bytes();
    let n: usize = bytes.len();
    assert(n as int == bytes@.len());
    if bytes.len() == 0 {
        assert(s@.len() == 0) by {
            if s@.len() > 0 {
                assert(encode_utf8(s@).len() > 0);
            }
        }
        assert(out@ =~= old(out)@ + field_bytes(tag as nat, s@));
        return;
    }
    assert(s@.len() > 0);
    out.push(tag * 8 + 2);
    encode_varint(bytes.len() as u64, out);
    let ghost start = out@;
    let mut i: usize = 0;
    while i < bytes.len()
        invariant
            i <= bytes@.len(),
            out@ == start + bytes@.subrange(0, i as int),
        decreases bytes@.len() - i,
    {
        out.push(bytes[i]);
        assert(bytes@.subrange(0, i + 1) =~= bytes@.subrange(0, i as int).push(bytes@[i as int]));
        i = i + 1;
    }
    assert(bytes@.subrange(0, i as int) =~= bytes@);
    assert(out@ =~= old(out)@ + field_bytes(tag as nat, s@));
}

/// Encodes `input`: each non-empty field, in tag order.
pub fn encode(input: &AnalysisInput) -> (r: Vec<u8>)
    ensures
        r@ == encode_spec(input@),
        decode_spec(r@) == Some(input@),
{
    let mut out: Vec<u8> = Vec::new();
    encode_field(1, &input.content_hash, &mut out);
    encode_field(2, &input.content_text, &mut out);
    encode_field(3, &input.source_id, &mut out);
    encode_field(4, &input.image_url, &mut out);
    assert(out@ =~= encode_spec(input@));
    proof {
        lemma_decode_encode(input@);
    }
    out
}

/// Skips the value of an unknown field that starts at `p`: the number of
/// bytes it takes, when it is well-formed and fits in `b`.
fn skip_value(b: &[u8], p: usize, wire: u64, tag: u64, c: u32) -> (r: Option<usize>)
    requires
        p <= b@.len(),
    ensures
        r is Some <==> (field_len(wire as nat, tag as nat, b@.subrange(p as int, b@.len() as int), c as nat) matches Some(v)
            && p + v <= b@.len()),
        r matches Some(x) ==> field_len(wire as nat, tag as nat, b@.subrange(p as int, b@.len() as int), c as nat) == Some(x as nat),
    decreases b@.len() - p, 1nat,
{
    if c == 0 {
        return None;
    }
    let rest_len = b.len() - p;
    if wire == 0 {
        match decode_varint(b, p, 0) {
            Some((_, k)) => Some(k),
            None => None,
        }
    } else if wire == 1 {
        if 8 <= rest_len {
            Some(8)
        } else {
            None
        }
    } else if wire == 5 {
        if 4 <= rest_len {
            Some(4)
        } else {
            None
        }
    } else if wire == 2 {
        match decode_varint(b, p, 0) {
            Some((len, m)) => {
                if len > (rest_len - m) as u64 {
                    None
                } else {
                    Some(m + len as usize)
                }
            },
            None => None,
        }
    } else if wire == 3 {
        skip_group(b, p, tag, c)
    } else {
        None
    }
}

/// Skips the rest of a group opened with `tag`, from `start` up to and
/// including its end key: the number of bytes, when well-formed.
fn skip_group(b: &[u8], start: usize, tag: u64, c: u32) -> (r: Option<usize>)
    requires
        start <= b@.len(),
    ensures
        r is Some <==> (group_len(tag as nat, b@.subrange(start as int, b@.len() as int), c as nat) matches Some(v)
            && start + v <= b@.len()),
        r matches Some(x) ==> group_len(tag as nat, b@.subrange(start as int, b@.len() as int), c as nat) == Some(x as nat),
    decreases b@.len() - start, 0nat,
{
    if c == 0 {
        return None;
    }
    let mut pos: usize = start;
    while pos < b.len()
        invariant
            start <= pos <= b@.len(),
            c > 0,
            group_len(tag as nat, b@.subrange(start as int, b@.len() as int), c as nat) == (match group_len(
                tag as nat,
                b@.subrange(pos as int, b@.len() as int),
                c as nat,
            ) {
                Some(w) => Some(((pos - start) + w) as nat),
                None => None,
            }),
        decreases b@.len() - pos,
    {
        let ghost tail = b@.subrange(pos as int, b@.len() as int);
        let (key, n) = match decode_varint(b, pos, 0) {
            Some(x) => x,
            None => return None,
        };
        if key > 0xffff_ffff || key / 8 == 0 || key % 8 > 5 {
            return None;
        }
        if key % 8 == 4 {
            if key / 8 == tag {
                return Some(pos + n - start);
            } else {
                return None;
            }
        }
        let p2 = pos + n;
        assert(tail.subrange(n as int, tail.len() as int) =~= b@.subrange(p2 as int, b@.len() as int));
        match skip_value(b, p2, key % 8, key / 8, c - 1) {
            None => return None,
            Some(v) => {
                assert(b@.subrange((p2 + v) as int, b@.len() as int) =~= b@.subrange(
                    p2 as int,
                    b@.len() as int,
                ).subrange(v as int, b@.len() - p2));
                pos = p2 + v;
            },
        }
    }
    None
}

/// Copies `b[start..end]` into a new vector.
fn copy_range(b: &[u8], start: usize, end: usize) -> (r: Vec<u8>)
    requires
        start <= end <= b@.len(),
    ensures
        r@ == b@.subrange(start as int, end as int),
{
    let mut out: Vec<u8> = Vec::new();
    let mut i: usize = start;
    while i < end
        invariant
            start <= i <= end,
            end <= b@.len(),
            out@ == b@.subrange(start as int, i as int),
        decreases end - i,
    {
        out.push(b[i]);
        assert(b@.subrange(start as int, i + 1) =~= b@.subrange(start as int, i as int).push(
            b@[i as int],
        ));
        i = i + 1;
    }
    out
}

#[verifier::rlimit(50)]
/// Decodes an envelope. Fields may come in any order and a repeated field
/// keeps its last value; absent fields stay empty; unknown fields are
/// skipped. Fails exactly on malformed input.
pub fn decode(b: &[u8]) -> (r: Result<AnalysisInput, DecodeError>)
    ensures
        match decode_spec(b@) {
            Some(v) => r matches Ok(x) && x@ == v,
            None => r is Err,
        },
{
    let mut acc = AnalysisInput {
        content_hash: String::new(),
        content_text: String::new(),
        source_id: String::new(),
        image_url: String::new(),
    };
    assert(acc@ == empty_view());
    let mut pos: usize = 0;
    assert(b@.subrange(0, b@.len() as int) =~= b@);
    while pos < b.len()
        invariant
            pos <= b@.len(),
            parse_fields(b@.subrange(pos as int, b@.len() as int), acc@) == decode_spec(b@),
        decreases b@.len() - pos,
    {
        let ghost tail = b@.subrange(pos as int, b@.len() as int);
        let (key, n) = match decode_varint(b, pos, 0) {
            Some(x) => x,
            None => return Err(DecodeError),
        };
        if key > 0xffff_ffff || key / 8 == 0 {
            return Err(DecodeError);
        }
        let wire = key % 8;
        let tag = key / 8;
        let p = pos + n;
        let ghost rest = b@.subrange(p as int, b@.len() as int);
        assert(tail.subrange(n as int, tail.len() as int) =~= rest);
        if tag <= 4 {
            if wire != 2 {
                return Err(DecodeError);
            }
            let (len, m) = match decode_varint(b, p, 0) {
                Some(x) => x,
                None => return Err(DecodeError),
            };
            if len > (b.len() - p - m) as u64 {
                return Err(DecodeError);
            }
            let start = p + m;
            let end = start + len as usize;
            let bytes = copy_range(b, start, end);
            assert(bytes@ =~= rest.subrange(m as int, (m + len) as int));
            assert(b@.subrange(end as int, b@.len() as int) =~= rest.subrange(
                (m + len) as int,
                rest.len() as int,
            ));
            let s = match string_from_utf8(bytes) {
                Some(s) => s,
                None => return Err(DecodeError),
            };
            let ghost before = acc@;
            if tag == 1 {
                acc.content_hash = s;
            } else if tag == 2 {
                acc.content_text = s;
            } else if tag == 3 {
                acc.source_id = s;
            } else {
                acc.image_url = s;
            }
            assert(acc@ == with_field(before, tag as nat, s@));
            assert(parse_fields(tail, before) == parse_fields(
                b@.subrange(end as int, b@.len() as int),
                acc@,
            ));
            pos = end;
        } else {
            let skip: usize = match skip_value(b, p, wire, tag, SKIP_DEPTH) {
                Some(v) => v,
                None => return Err(DecodeError),
            };
            if skip > b.len() - p {
                return Err(DecodeError);
            }
            assert(b@.subrange((p + skip) as int, b@.len() as int) =~= rest.subrange(
                skip as int,
                rest.len() as int,
            ));
            assert(parse_fields(tail, acc@) == parse_fields(
                b@.subrange((p + skip) as int, b@.len() as int),
                acc@,
            ));
            pos = p + skip;
        }
    }
    assert(b@.subrange(pos as int, b@.len() as int) =~= Seq::<u8>::empty());
    Ok(acc)
}

proof fn lemma_parse_field(tag: nat, s: Seq<char>, rest: Seq<u8>, acc: InputView)
    requires
        1 <= tag <= 4,
        encode_utf8(s).len() < 0x1_0000_0000_0000_0000,
        with_field(acc, tag, Seq::empty()) == acc,
    ensures
        parse_fields(field_bytes(tag, s) + rest, acc) == parse_fields(rest, with_field(acc, tag, s)),
{
    if s.len() == 0 {
        assert(field_bytes(tag, s) + rest =~= rest);
        assert(s =~= Seq::<char>::empty());
    } else {
        let e = encode_utf8(s);
        let len = e.len();
        let b = field_bytes(tag, s) + rest;
        let key = tag * 8 + 2;
        assert(b[0] == key as u8);
        assert(read_varint(b, 0) == Some((key, 1nat)));
        let rest1 = b.subrange(1, b.len() as int);
        assert(rest1 =~= varint_bytes(len) + (e + rest));
        lemma_cap_bound(10);
        lemma_varint_round_trip(len, 0, e + rest);
        let m = varint_bytes(len).len();
        assert(rest1.subrange(m as int, (m + len) as int) =~= e);
        assert(rest1.subrange((m + len) as int, rest1.len() as int) =~= rest);
        assert(key / 8 == tag);
        assert(key % 8 == 2);
    }
}

/// Decoding what `encode` produced, followed by more bytes, continues
/// from the encoded value.
proof fn lemma_decode_encode_then(v: InputView, rest: Seq<u8>)
    requires
        encode_utf8(v.content_hash).len() < 0x1_0000_0000_0000_0000,
        encode_utf8(v.content_text).len() < 0x1_0000_0000_0000_0000,
        encode_utf8(v.source_id).len() < 0x1_0000_0000_0000_0000,
        encode_utf8(v.image_url).len() < 0x1_0000_0000_0000_0000,
    ensures
        decode_spec(encode_spec(v) + rest) == parse_fields(rest, v),
{
    let f1 = field_bytes(1, v.content_hash);
    let f2 = field_bytes(2, v.content_text);
    let f3 = field_bytes(3, v.source_id);
    let f4 = field_bytes(4, v.image_url);
    let a1 = with_field(empty_view(), 1, v.content_hash);
    let a2 = with_field(a1, 2, v.content_text);
    let a3 = with_field(a2, 3, v.source_id);
    let a4 = with_field(a3, 4, v.image_url);
    assert(encode_spec(v) + rest =~= f1 + (f2 + (f3 + (f4 + rest))));
    lemma_parse_field(1, v.content_hash, f2 + (f3 + (f4 + rest)), empty_view());
    lemma_parse_field(2, v.content_text, f3 + (f4 + rest), a1);
    lemma_parse_field(3, v.source_id, f4 + rest, a2);
    lemma_parse_field(4, v.image_url, rest, a3);
    assert(a4 == v);
}

/// Decoding what `encode` produced gives back the same value, field for
/// field (each field's UTF-8 length being a possible varint value).
pub proof fn lemma_decode_encode(v: InputView)
    requires
        encode_utf8(v.content_hash).len() < 0x1_0000_0000_0000_0000,
        encode_utf8(v.content_text).len() < 0x1_0000_0000_0000_0000,
        encode_utf8(v.source_id).len() < 0x1_0000_0000_0000_0000,
        encode_utf8(v.image_url).len() < 0x1_0000_0000_0000_0000,
    ensures
        decode_spec(encode_spec(v)) == Some(v),
{
    lemma_decode_encode_then(v, Seq::empty());
    assert(encode_spec(v) + Seq::<u8>::empty() =~= encode_spec(v));
}

/// An unknown length-delimited field (tag 5 to 15) appended to an encoded
/// value is skipped: the value decodes as without it.
pub proof fn lemma_unknown_field_ignored(v: InputView, tag: nat, body: Seq<u8>)
    requires
        5 <= tag <= 15,
        body.len() < 0x1_0000_0000_0000_0000,
        encode_utf8(v.content_hash).len() < 0x1_0000_0000_0000_0000,
        encode_utf8(v.content_text).len() < 0x1_0000_0000_0000_0000,
        encode_utf8(v.source_id).len() < 0x1_0000_0000_0000_0000,
        encode_utf8(v.image_url).len() < 0x1_0000_0000_0000_0000,
    ensures
        decode_spec(encode_spec(v) + (seq![(tag * 8 + 2) as u8] + varint_bytes(body.len()) + body))
            == Some(v),
{
    let u = seq![(tag * 8 + 2) as u8] + varint_bytes(body.len()) + body;
    lemma_decode_encode_then(v, u);
    let key = tag * 8 + 2;
    assert(u[0] == key as u8);
    assert(read_varint(u, 0) == Some((key, 1nat)));
    let rest = u.subrange(1, u.len() as int);
    assert(rest =~= varint_bytes(body.len()) + body);
    lemma_cap_bound(10);
    lemma_varint_round_trip(body.len(), 0, body);
    assert(key / 8 == tag);
    assert(key % 8 == 2);
    let m = varint_bytes(body.len()).len();
    assert(rest.subrange((m + body.len()) as int, rest.len() as int) =~= Seq::<u8>::empty());
    assert(field_len(2, tag, rest, SKIP_DEPTH as nat) == Some(m + body.len()));
    assert(parse_fields(Seq::<u8>::empty(), v) == Some(v));
    assert(parse_fields(u, v) == Some(v));
}

} // verus!
