use vstd::prelude::*;
use vstd::utf8::{
    encode_utf8, encode_utf8_decode_utf8, encode_utf8_valid_utf8, is_ascii_chars_encode_utf8,
};

use crate::container::{outcome, Container};
use crate::cursor::{le_value, string_at, take, MAX_STRING_LEN};
use crate::error::DecodeError;
use crate::grammar::{
    codes_of, container_of, font_at, id_header_at, payload_at, sections_at, SpecContainer, SpecEnding, SpecFont, SpecIdHeader,
    SpecPayload, SpecSection, BLOCK_COUNT_LEN, FONT_GLYPHS, MAGIC, SECTION_COUNT_LEN,
};

verus! {

/// `256` to the power `w`: one more than the largest number that `w` bytes
/// hold.
pub open spec fn byte_bound(w: nat) -> nat
    decreases w,
{
    if w == 0 {
        1
    } else {
        256 * byte_bound((w - 1) as nat)
    }
}

/// The `w` little-endian bytes of `n`.
pub open spec fn le_bytes(n: nat, w: nat) -> Seq<u8>
    decreases w,
{
    if w == 0 {
        seq![]
    } else {
        seq![(n % 256) as u8] + le_bytes(n / 256, (w - 1) as nat)
    }
}

/// A little-endian value is smaller than the bound of its width.
pub proof fn lemma_le_value_bound(b: Seq<u8>)
    ensures
        le_value(b) < byte_bound(b.len()),
    decreases b.len(),
{
    if b.len() > 0 {
        lemma_le_value_bound(b.drop_first());
        let x = b[0] as nat;
        let r = le_value(b.drop_first());
        let k = byte_bound((b.len() - 1) as nat);
        assert(x + 256 * r < 256 * k) by (nonlinear_arith)
            requires
                x < 256,
                r < k,
        ;
    }
}

/// Reading back the little-endian bytes of a number that fits gives the
/// number.
pub proof fn lemma_le_round_trip(n: nat, w: nat)
    requires
        n < byte_bound(w),
    ensures
        le_bytes(n, w).len() == w,
        le_value(le_bytes(n, w)) == n,
    decreases w,
{
    if w > 0 {
        let k = byte_bound((w - 1) as nat);
        assert(n / 256 < k) by (nonlinear_arith)
            requires
                n < 256 * k,
        ;
        lemma_le_round_trip(n / 256, (w - 1) as nat);
        assert(le_bytes(n, w).drop_first() =~= le_bytes(n / 256, (w - 1) as nat));
    }
}

/// An input shorter than the sentinel and the block count together fails as
/// truncated, unless it starts with a wrong sentinel.
pub proof fn lemma_short_input_truncated(s: Seq<u8>)
    requires
        s.len() < 1 + BLOCK_COUNT_LEN,
        s.len() > 0 ==> s[0] == MAGIC,
    ensures
        container_of(s) == Err::<SpecContainer, DecodeError>(
            DecodeError::TruncatedInput { offset: if s.len() == 0 { 0 } else { 1 } },
        ),
{
}

/// An input whose first byte is not the sentinel fails with `BadMagic`,
/// before any section is read.
pub proof fn lemma_bad_magic(s: Seq<u8>)
    requires
        s.len() > 0,
        s[0] != MAGIC,
    ensures
        container_of(s) == Err::<SpecContainer, DecodeError>(DecodeError::BadMagic { found: s[0] }),
{
}

proof fn lemma_take_middle(a: Seq<u8>, b: Seq<u8>, c: Seq<u8>)
    ensures
        take(a + b + c, a.len() as int, b.len() as int) == Ok::<(Seq<u8>, int), DecodeError>(
            (b, (a.len() + b.len()) as int),
        ),
{
    assert((a + b + c).subrange(a.len() as int, (a.len() + b.len()) as int) =~= b);
}

/// The bytes of a length-prefixed string holding `t`.
pub open spec fn string_bytes(t: Seq<char>) -> Seq<u8> {
    le_bytes(encode_utf8(t).len(), 8) + encode_utf8(t)
}

proof fn lemma_string_at_middle(before: Seq<u8>, t: Seq<char>, rest: Seq<u8>)
    requires
        encode_utf8(t).len() <= MAX_STRING_LEN,
    ensures
        string_at(before + string_bytes(t) + rest, before.len() as int) == Ok::<
            (Seq<char>, int),
            DecodeError,
        >((t, (before.len() + string_bytes(t).len()) as int)),
        string_bytes(t).len() == 8 + encode_utf8(t).len(),
{
    broadcast use encode_utf8_valid_utf8, encode_utf8_decode_utf8;

    let b = encode_utf8(t);
    let l = b.len();
    let n = le_bytes(l, 8);
    reveal_with_fuel(byte_bound, 9);
    lemma_le_round_trip(l, 8);
    assert(before + string_bytes(t) + rest =~= before + n + (b + rest));
    lemma_take_middle(before, n, b + rest);
    assert(before + string_bytes(t) + rest =~= (before + n) + b + rest);
    lemma_take_middle(before + n, b, rest);
}

/// A string written as its 8-byte little-endian length and its UTF-8 bytes
/// reads back unchanged, ending just past those bytes, whatever follows.
pub proof fn lemma_string_round_trip(t: Seq<char>, rest: Seq<u8>)
    requires
        encode_utf8(t).len() <= MAX_STRING_LEN,
    ensures
        string_at(string_bytes(t) + rest, 0) == Ok::<(Seq<char>, int), DecodeError>(
            (t, 8 + encode_utf8(t).len() as int),
        ),
{
    lemma_string_at_middle(seq![], t, rest);
    assert(seq![] + string_bytes(t) + rest =~= string_bytes(t) + rest);
}

/// A string whose declared length exceeds the ceiling is refused, whatever
/// bytes follow the length.
pub proof fn lemma_oversized_string(s: Seq<u8>, p: int)
    requires
        0 <= p,
        p + 8 <= s.len(),
        le_value(s.subrange(p, p + 8)) > MAX_STRING_LEN,
    ensures
        string_at(s, p) == Err::<(Seq<char>, int), DecodeError>(
            DecodeError::OversizedString {
                offset: p as usize,
                length: le_value(s.subrange(p, p + 8)) as u64,
            },
        ),
{
    lemma_le_value_bound(s.subrange(p, p + 8));
    reveal_with_fuel(byte_bound, 9);
}

/// Decoding depends on the bytes alone: two decodes of buffers with the same
/// contents give the same result.
pub proof fn lemma_decode_deterministic(
    a: Seq<u8>,
    b: Seq<u8>,
    r1: Result<Container, DecodeError>,
    r2: Result<Container, DecodeError>,
)
    requires
        a == b,
        outcome(r1) == container_of(a),
        outcome(r2) == container_of(b),
    ensures
        outcome(r1) == outcome(r2),
{
}

/// The bytes of a container's preamble: the sentinel and the two opaque
/// count fields.
pub open spec fn preamble_bytes(block_count: Seq<u8>, section_count: Seq<u8>) -> Seq<u8> {
    seq![MAGIC] + block_count + section_count
}

/// The bytes of an id-header.
pub open spec fn id_header_bytes(h: SpecIdHeader) -> Seq<u8> {
    le_bytes(h.id as nat, 2) + h.trailer
}

proof fn lemma_preamble(block_count: Seq<u8>, section_count: Seq<u8>, rest: Seq<u8>)
    requires
        block_count.len() == BLOCK_COUNT_LEN,
        section_count.len() == SECTION_COUNT_LEN,
    ensures
        ({
            let s = preamble_bytes(block_count, section_count) + rest;
            container_of(s) == match sections_at(s, 13) {
                Ok((sections, ending)) => Ok(
                    SpecContainer { block_count, section_count, sections, ending },
                ),
                Err(e) => Err(e),
            }
        }),
{
    let s = preamble_bytes(block_count, section_count) + rest;
    lemma_take_middle(seq![], seq![MAGIC], block_count + section_count + rest);
    assert(s =~= seq![] + seq![MAGIC] + (block_count + section_count + rest));
    lemma_take_middle(seq![MAGIC], block_count, section_count + rest);
    assert(s =~= seq![MAGIC] + block_count + (section_count + rest));
    lemma_take_middle(seq![MAGIC] + block_count, section_count, rest);
    assert(s =~= (seq![MAGIC] + block_count) + section_count + rest);
}

proof fn lemma_section_head(a: Seq<u8>, header: SpecIdHeader, tag: Seq<char>, rest: Seq<u8>)
    requires
        header.trailer.len() == 2,
        encode_utf8(tag).len() <= MAX_STRING_LEN,
    ensures
        ({
            let s = a + id_header_bytes(header) + string_bytes(tag) + rest;
            &&& id_header_at(s, a.len() as int) == Ok::<(SpecIdHeader, int), DecodeError>(
                (header, a.len() + 4 as int),
            )
            &&& id_header_bytes(header).len() == 4
            &&& string_at(s, a.len() + 4 as int) == Ok::<(Seq<char>, int), DecodeError>(
                (tag, (a.len() + 4 + string_bytes(tag).len()) as int),
            )
        }),
{
    let hb = id_header_bytes(header);
    let s = a + hb + string_bytes(tag) + rest;
    reveal_with_fuel(byte_bound, 3);
    lemma_le_round_trip(header.id as nat, 2);
    let n = le_bytes(header.id as nat, 2);
    lemma_take_middle(a, n, header.trailer + string_bytes(tag) + rest);
    assert(s =~= a + n + (header.trailer + string_bytes(tag) + rest));
    lemma_take_middle(a + n, header.trailer, string_bytes(tag) + rest);
    assert(s =~= (a + n) + header.trailer + (string_bytes(tag) + rest));
    lemma_string_at_middle(a + hb, tag, rest);
}

/// A first section whose tag is none of the recognized kinds ends decoding
/// with no section decoded and the tag reported, whatever follows it.
pub proof fn lemma_unrecognized_first_tag(
    block_count: Seq<u8>,
    section_count: Seq<u8>,
    header: SpecIdHeader,
    tag: Seq<char>,
    rest: Seq<u8>,
)
    requires
        block_count.len() == BLOCK_COUNT_LEN,
        section_count.len() == SECTION_COUNT_LEN,
        header.trailer.len() == 2,
        encode_utf8(tag).len() <= MAX_STRING_LEN,
        tag != "Video"@,
        tag != "VideoSurface"@,
        tag != "Font"@,
    ensures
        container_of(
            preamble_bytes(block_count, section_count) + id_header_bytes(header) + string_bytes(tag)
                + rest,
        ) == Ok::<SpecContainer, DecodeError>(
            SpecContainer {
                block_count,
                section_count,
                sections: seq![],
                ending: SpecEnding::UnrecognizedSectionType(tag),
            },
        ),
{
    let pre = preamble_bytes(block_count, section_count);
    let hb = id_header_bytes(header);
    let s = pre + hb + string_bytes(tag) + rest;
    lemma_preamble(block_count, section_count, hb + string_bytes(tag) + rest);
    assert(s =~= pre + (hb + string_bytes(tag) + rest));
    lemma_section_head(pre, header, tag, rest);
}

/// The bytes of a run of character codes, two little-endian bytes each.
pub open spec fn codes_bytes(codes: Seq<u16>) -> Seq<u8> {
    Seq::new(
        2 * codes.len(),
        |j: int|
            if j % 2 == 0 {
                (codes[j / 2] % 256) as u8
            } else {
                (codes[j / 2] / 256) as u8
            },
    )
}

proof fn lemma_codes_round_trip(codes: Seq<u16>)
    ensures
        codes_of(codes_bytes(codes)) == codes,
{
    let b = codes_bytes(codes);
    reveal_with_fuel(le_value, 3);
    assert forall|i: int| 0 <= i < codes.len() implies le_value(b.subrange(2 * i, 2 * i + 2))
        as u16 == codes[i] by {
        let lo = (codes[i] % 256) as u8;
        let hi = (codes[i] / 256) as u8;
        assert((2 * i) / 2 == i && (2 * i) % 2 == 0 && (2 * i + 1) / 2 == i && (2 * i + 1) % 2
            == 1);
        assert(b.subrange(2 * i, 2 * i + 2) =~= seq![lo, hi]);
        assert(seq![lo, hi].drop_first() =~= seq![hi]);
        assert(seq![hi].drop_first() =~= Seq::<u8>::empty());
    }
    assert(codes_of(b) =~= codes);
}

proof fn lemma_font_payload(
    a: Seq<u8>,
    lead: Seq<u8>,
    name: Seq<char>,
    gap: Seq<u8>,
    codes: Seq<u16>,
)
    requires
        lead.len() == 16,
        encode_utf8(name).len() <= MAX_STRING_LEN,
        gap.len() == 6,
        codes.len() == FONT_GLYPHS,
    ensures
        ({
            let s = a + lead + string_bytes(name) + gap + codes_bytes(codes);
            font_at(s, a.len() as int) == Ok::<(SpecFont, int), DecodeError>(
                (SpecFont { lead, name, gap, codes }, s.len() as int),
            )
        }),
{
    let cb = codes_bytes(codes);
    let s = a + lead + string_bytes(name) + gap + cb;
    lemma_take_middle(a, lead, string_bytes(name) + gap + cb);
    assert(s =~= a + lead + (string_bytes(name) + gap + cb));
    lemma_string_at_middle(a + lead, name, gap + cb);
    assert(s =~= (a + lead) + string_bytes(name) + (gap + cb));
    let a2 = a + lead + string_bytes(name);
    lemma_take_middle(a2, gap, cb);
    lemma_take_middle(a2 + gap, cb, seq![]);
    assert(s =~= (a2 + gap) + cb + seq![]);
    lemma_codes_round_trip(codes);
    reveal(font_at);
}

/// A stream holding one well-formed Font section decodes to that one
/// section, with exactly its character codes, raw and in input order.
pub proof fn lemma_single_font(
    block_count: Seq<u8>,
    section_count: Seq<u8>,
    header: SpecIdHeader,
    lead: Seq<u8>,
    name: Seq<char>,
    gap: Seq<u8>,
    codes: Seq<u16>,
)
    requires
        block_count.len() == BLOCK_COUNT_LEN,
        section_count.len() == SECTION_COUNT_LEN,
        header.trailer.len() == 2,
        lead.len() == 16,
        encode_utf8(name).len() <= MAX_STRING_LEN,
        gap.len() == 6,
        codes.len() == FONT_GLYPHS,
    ensures
        container_of(
            preamble_bytes(block_count, section_count) + id_header_bytes(header) + string_bytes(
                "Font"@,
            ) + lead + string_bytes(name) + gap + codes_bytes(codes),
        ) == Ok::<SpecContainer, DecodeError>(
            SpecContainer {
                block_count,
                section_count,
                sections: seq![
                    SpecSection {
                        header,
                        tag: "Font"@,
                        payload: SpecPayload::Font(SpecFont { lead, name, gap, codes }),
                    },
                ],
                ending: SpecEnding::EndOfInput,
            },
        ),
{
    let tag = "Font"@;
    reveal_strlit("Font");
    reveal_strlit("Video");
    reveal_strlit("VideoSurface");
    is_ascii_chars_encode_utf8(tag);
    let pre = preamble_bytes(block_count, section_count);
    let hb = id_header_bytes(header);
    let cb = codes_bytes(codes);
    let body = lead + string_bytes(name) + gap + cb;
    let s = pre + hb + string_bytes(tag) + body;
    lemma_preamble(block_count, section_count, hb + string_bytes(tag) + body);
    assert(s =~= pre + (hb + string_bytes(tag) + body));
    lemma_section_head(pre, header, tag, body);
    lemma_font_payload(pre + hb + string_bytes(tag), lead, name, gap, codes);
    assert(s =~= pre + hb + string_bytes(tag) + lead + string_bytes(name) + gap + cb);
    let p2 = (pre.len() + 4 + string_bytes(tag).len()) as int;
    let font = SpecFont { lead, name, gap, codes };
    assert(payload_at(s, p2, tag) == Some(
        Ok::<(SpecPayload, int), DecodeError>((SpecPayload::Font(font), s.len() as int)),
    ));
    assert(sections_at(s, s.len() as int) == Ok::<(Seq<SpecSection>, SpecEnding), DecodeError>(
        (seq![], SpecEnding::EndOfInput),
    ));
    let section = SpecSection { header, tag, payload: SpecPayload::Font(font) };
    assert(seq![section] + seq![] =~= seq![section]);
    assert(sections_at(s, 13) == Ok::<(Seq<SpecSection>, SpecEnding), DecodeError>(
        (seq![section], SpecEnding::EndOfInput),
    ));
}

} // verus!
