//! Round-trip and safety laws.
//!
//! The central law says that parsing inverts formatting: a packet whose
//! names, text entries and data shapes are within the wire format's
//! bounds, and whose encoding fits one 512-byte datagram, parses back from
//! its own encoding to the very same packet, consuming exactly the bytes
//! the formatter wrote. Beside it stand the pointer-cycle laws: a
//! compression pointer that targets itself, or two pointers targeting each
//! other, fail the decode for every hop budget.

use vstd::prelude::*;
use crate::{DataV, PacketV, QuestionV, RecordV};
use crate::parse;
use crate::wire;

verus! {

/// A domain name that survives the round trip: every label has 1 to 63
/// bytes (an empty label would end the name early on the wire) and is
/// well-formed UTF-8.
pub open spec fn name_rt_ok(s: Seq<u8>) -> bool
    decreases s.len(),
    via name_rt_ok_decreases
{
    let i = wire::first_dot(s);
    if i >= s.len() {
        1 <= s.len() <= 63 && parse::utf8_ok(s)
    } else {
        1 <= i <= 63 && parse::utf8_ok(s.take(i)) && name_rt_ok(s.skip(i + 1))
    }
}

#[via_fn]
proof fn name_rt_ok_decreases(s: Seq<u8>) {
    wire::first_dot_properties(s);
}

/// Record data that survives the round trip: addresses have their exact
/// widths, names are round-trip safe, and text entries are at most 255
/// bytes of well-formed UTF-8.
pub open spec fn data_rt_ok(d: DataV) -> bool {
    match d {
        DataV::A(octets) => octets.len() == 4,
        DataV::Aaaa(segments) => segments.len() == 8,
        DataV::Mx(_, exchange) => name_rt_ok(exchange),
        DataV::Ptr(domain) => name_rt_ok(domain),
        DataV::Rp(mbox, txt) => name_rt_ok(mbox) && name_rt_ok(txt),
        DataV::Txt(text) => forall|i: int|
            0 <= i < text.len() ==> (#[trigger] text[i]).len() <= 255 && parse::utf8_ok(text[i]),
    }
}

/// A question that survives the round trip.
pub open spec fn question_rt_ok(q: QuestionV) -> bool {
    name_rt_ok(q.name)
}

/// A record that survives the round trip.
pub open spec fn record_rt_ok(r: RecordV) -> bool {
    name_rt_ok(r.name) && data_rt_ok(r.data)
}

/// A packet that survives the round trip: every entry of every section
/// does.
pub open spec fn packet_rt_ok(p: PacketV) -> bool {
    &&& forall|i: int| 0 <= i < p.question.len() ==> question_rt_ok(#[trigger] p.question[i])
    &&& forall|i: int| 0 <= i < p.answer.len() ==> record_rt_ok(#[trigger] p.answer[i])
    &&& forall|i: int| 0 <= i < p.authority.len() ==> record_rt_ok(#[trigger] p.authority[i])
    &&& forall|i: int| 0 <= i < p.additional.len() ==> record_rt_ok(#[trigger] p.additional[i])
}

/// Truncating a 16-bit signed value to its bits and reading them back
/// gives the value again.
proof fn lemma_i16_roundtrip(x: i16)
    ensures
        ((x as u16) as i16) == x,
{
    assert(((x as u16) as i16) == x) by (bit_vector);
}

/// Truncating a 32-bit signed value to its bits and reading them back
/// gives the value again.
proof fn lemma_i32_roundtrip(x: i32)
    ensures
        ((x as u32) as i32) == x,
{
    assert(((x as u32) as i32) == x) by (bit_vector);
}

/// Reading back the four big-endian bytes of a 32-bit value gives the
/// value again.
proof fn lemma_be_u32_of_encode(v: u32)
    ensures
        wire::be_u32(
            (v / 0x1000000) as u8,
            ((v / 0x10000) % 256) as u8,
            ((v / 256) % 256) as u8,
            (v % 256) as u8,
        ) == v,
{
    assert(((v / 0x1000000) as u8) as u32 * 0x1000000 + (((v / 0x10000) % 256) as u8) as u32
        * 0x10000 + (((v / 256) % 256) as u8) as u32 * 256 + ((v % 256) as u8) as u32 == v)
        by (bit_vector);
}

/// One byte of an embedded piece of the message.
proof fn lemma_embedded_index(msg: Seq<u8>, pos: int, part: Seq<u8>, k: int)
    requires
        0 <= pos,
        pos + part.len() <= msg.len(),
        msg.subrange(pos, pos + part.len() as int) == part,
        0 <= k < part.len(),
    ensures
        msg[pos + k] == part[k],
{
    assert(msg[pos + k] == msg.subrange(pos, pos + part.len() as int)[k]);
}

/// A slice of an embedded piece of the message is the piece's own slice.
proof fn lemma_embedded_sub(msg: Seq<u8>, pos: int, part: Seq<u8>, a: int, b: int)
    requires
        0 <= pos,
        pos + part.len() <= msg.len(),
        msg.subrange(pos, pos + part.len() as int) == part,
        0 <= a <= b <= part.len(),
    ensures
        msg.subrange(pos + a, pos + b) == part.subrange(a, b),
{
    assert forall|k: int| 0 <= k < b - a implies msg.subrange(pos + a, pos + b)[k]
        == part.subrange(a, b)[k] by {
        lemma_embedded_index(msg, pos, part, a + k);
    }
    assert(msg.subrange(pos + a, pos + b) =~= part.subrange(a, b));
}

/// A name parses back from its own embedded encoding, for any hop budget:
/// the labels rejoin around dots, and exactly the encoding's bytes are
/// consumed.
pub proof fn lemma_parse_name(msg: Seq<u8>, pos: int, s: Seq<u8>, hops: int)
    requires
        0 <= pos,
        pos + wire::name_len(s) <= msg.len(),
        msg.subrange(pos, pos + wire::name_len(s)) == wire::encode_name(s),
        name_rt_ok(s),
    ensures
        parse::spec_name(msg, pos, hops) == Some((pos + wire::name_len(s), s)),
    decreases s.len(),
{
    wire::first_dot_properties(s);
    wire::lemma_name_len(s);
    let i = wire::first_dot(s);
    let enc = wire::encode_name(s);
    if i >= s.len() {
        // single label: length byte, the bytes, the zero terminator
        let l = s.len() as int;
        lemma_embedded_index(msg, pos, enc, 0);
        assert(msg[pos] == l as u8);
        lemma_embedded_sub(msg, pos, enc, 1, 1 + l);
        assert(enc.subrange(1, 1 + l) =~= s);
        lemma_embedded_index(msg, pos, enc, l + 1);
        assert(msg[pos + 1 + l] == 0);
        assert(parse::spec_name(msg, pos + 1 + l, hops) == Some(
            (pos + l + 2, Seq::<u8>::empty()),
        ));
        assert(msg.subrange(pos + 1, pos + 1 + l) == s);
    } else {
        wire::lemma_name_len(s.skip(i + 1));
        let rest = s.skip(i + 1);
        let enc_rest = wire::encode_name(rest);
        lemma_embedded_index(msg, pos, enc, 0);
        assert(msg[pos] == i as u8);
        lemma_embedded_sub(msg, pos, enc, 1, 1 + i);
        assert(enc.subrange(1, 1 + i) =~= s.take(i));
        assert(msg.subrange(pos + 1, pos + 1 + i) == s.take(i));
        lemma_embedded_sub(msg, pos, enc, 1 + i, wire::name_len(s));
        assert(enc.subrange(1 + i, wire::name_len(s)) =~= enc_rest);
        lemma_parse_name(msg, pos + 1 + i, rest, hops);
        // the byte after this label is the next label's length, never zero
        wire::first_dot_properties(rest);
        let j = wire::first_dot(rest);
        lemma_embedded_index(msg, pos + 1 + i, enc_rest, 0);
        if j >= rest.len() {
            assert(enc_rest[0] == rest.len() as u8);
        } else {
            assert(enc_rest[0] == j as u8);
        }
        assert(msg[pos + 1 + i] != 0);
        assert(parse::utf8_ok(msg.subrange(pos + 1, pos + 1 + i)));
        assert(s.take(i) + seq![wire::DOT] + s.skip(i + 1) =~= s);
        assert(parse::spec_name(msg, pos, hops) == Some((pos + wire::name_len(s), s)));
    }
}

/// A text record's character-strings parse back from their own embedded
/// encoding when the declared length is exactly theirs.
pub proof fn lemma_parse_txt(msg: Seq<u8>, pos: int, ss: Seq<Seq<u8>>)
    requires
        0 <= pos,
        pos + wire::encode_txt(ss).len() <= msg.len(),
        msg.subrange(pos, pos + wire::encode_txt(ss).len()) == wire::encode_txt(ss),
        forall|i: int|
            0 <= i < ss.len() ==> (#[trigger] ss[i]).len() <= 255 && parse::utf8_ok(ss[i]),
    ensures
        parse::spec_txt(msg, pos, wire::encode_txt(ss).len() as int) == Some(
            (pos + wire::encode_txt(ss).len(), ss),
        ),
    decreases ss.len(),
{
    let total = wire::encode_txt(ss).len() as int;
    let enc = wire::encode_txt(ss);
    if ss.len() == 0 {
    } else {
        let cs = ss[0];
        let l = cs.len() as int;
        let rest = ss.drop_first();
        let enc_rest = wire::encode_txt(rest);
        lemma_embedded_index(msg, pos, enc, 0);
        assert(msg[pos] == l as u8);
        lemma_embedded_sub(msg, pos, enc, 1, 1 + l);
        assert(enc.subrange(1, 1 + l) =~= cs);
        assert(msg.subrange(pos + 1, pos + 1 + l) == cs);
        assert(parse::spec_char_string(msg, pos) == Some((pos + 1 + l, cs)));
        lemma_embedded_sub(msg, pos, enc, 1 + l, enc.len() as int);
        assert(enc.subrange(1 + l, enc.len() as int) =~= enc_rest);
        assert(forall|i: int|
            0 <= i < rest.len() ==> (#[trigger] rest[i]).len() <= 255 && parse::utf8_ok(rest[i]));
        lemma_parse_txt(msg, pos + 1 + l, rest);
        assert(total - (1 + l) == enc_rest.len() as int);
        assert(seq![cs] + rest =~= ss);
    }
}

/// Reading back the two big-endian bytes of a 16-bit value gives the
/// value again.
proof fn lemma_be_u16_of_encode(v: u16)
    ensures
        wire::be_u16((v / 256) as u8, (v % 256) as u8) == v,
{
}

/// The bytes of one segment inside an encoded segment list.
proof fn lemma_segments_index(segs: Seq<u16>, k: int)
    requires
        0 <= k < segs.len(),
    ensures
        wire::encode_segments(segs)[2 * k] == (segs[k] / 256) as u8,
        wire::encode_segments(segs)[2 * k + 1] == (segs[k] % 256) as u8,
    decreases k,
{
    wire::lemma_segments_len(segs);
    if k > 0 {
        wire::lemma_segments_len(segs.drop_first());
        lemma_segments_index(segs.drop_first(), k - 1);
    }
}

/// Record data parses back from its own embedded encoding under the
/// data's implied type, with the declared length that the formatter
/// writes.
pub proof fn lemma_parse_data(msg: Seq<u8>, pos: int, d: DataV)
    requires
        0 <= pos,
        pos + wire::data_len(d) <= msg.len(),
        msg.subrange(pos, pos + wire::data_len(d)) == wire::encode_data(d),
        data_rt_ok(d),
    ensures
        parse::spec_rdata(msg, pos, wire::data_type(d), wire::data_len(d)) == Some(
            (pos + wire::data_len(d), d),
        ),
{
    let enc = wire::encode_data(d);
    match d {
        DataV::A(octets) => {
            assert(msg.subrange(pos, pos + 4) == octets);
        },
        DataV::Aaaa(segments) => {
            wire::lemma_segments_len(segments);
            lemma_embedded_index(msg, pos, enc, 0);
            lemma_embedded_index(msg, pos, enc, 1);
            lemma_embedded_index(msg, pos, enc, 2);
            lemma_embedded_index(msg, pos, enc, 3);
            lemma_embedded_index(msg, pos, enc, 4);
            lemma_embedded_index(msg, pos, enc, 5);
            lemma_embedded_index(msg, pos, enc, 6);
            lemma_embedded_index(msg, pos, enc, 7);
            lemma_embedded_index(msg, pos, enc, 8);
            lemma_embedded_index(msg, pos, enc, 9);
            lemma_embedded_index(msg, pos, enc, 10);
            lemma_embedded_index(msg, pos, enc, 11);
            lemma_embedded_index(msg, pos, enc, 12);
            lemma_embedded_index(msg, pos, enc, 13);
            lemma_embedded_index(msg, pos, enc, 14);
            lemma_embedded_index(msg, pos, enc, 15);
            lemma_segments_index(segments, 0);
            lemma_segments_index(segments, 1);
            lemma_segments_index(segments, 2);
            lemma_segments_index(segments, 3);
            lemma_segments_index(segments, 4);
            lemma_segments_index(segments, 5);
            lemma_segments_index(segments, 6);
            lemma_segments_index(segments, 7);
            lemma_be_u16_of_encode(segments[0]);
            lemma_be_u16_of_encode(segments[1]);
            lemma_be_u16_of_encode(segments[2]);
            lemma_be_u16_of_encode(segments[3]);
            lemma_be_u16_of_encode(segments[4]);
            lemma_be_u16_of_encode(segments[5]);
            lemma_be_u16_of_encode(segments[6]);
            lemma_be_u16_of_encode(segments[7]);
            assert(seq![
                wire::be_u16(msg[pos], msg[pos + 1]),
                wire::be_u16(msg[pos + 2], msg[pos + 3]),
                wire::be_u16(msg[pos + 4], msg[pos + 5]),
                wire::be_u16(msg[pos + 6], msg[pos + 7]),
                wire::be_u16(msg[pos + 8], msg[pos + 9]),
                wire::be_u16(msg[pos + 10], msg[pos + 11]),
                wire::be_u16(msg[pos + 12], msg[pos + 13]),
                wire::be_u16(msg[pos + 14], msg[pos + 15]),
            ] =~= segments);
        },
        DataV::Mx(preference, exchange) => {
            wire::lemma_name_len(exchange);
            lemma_embedded_index(msg, pos, enc, 0);
            lemma_embedded_index(msg, pos, enc, 1);
            lemma_be_u16_of_encode(preference as u16);
            lemma_i16_roundtrip(preference);
            lemma_embedded_sub(msg, pos, enc, 2, enc.len() as int);
            assert(enc.subrange(2, enc.len() as int) =~= wire::encode_name(exchange));
            lemma_parse_name(msg, pos + 2, exchange, parse::MAX_HOPS as int);
        },
        DataV::Ptr(domain) => {
            lemma_parse_name(msg, pos, domain, parse::MAX_HOPS as int);
        },
        DataV::Rp(mbox, txt) => {
            wire::lemma_name_len(mbox);
            wire::lemma_name_len(txt);
            let n1 = wire::name_len(mbox);
            lemma_embedded_sub(msg, pos, enc, 0, n1);
            assert(enc.subrange(0, n1) =~= wire::encode_name(mbox));
            lemma_embedded_sub(msg, pos, enc, n1, enc.len() as int);
            assert(enc.subrange(n1, enc.len() as int) =~= wire::encode_name(txt));
            lemma_parse_name(msg, pos, mbox, parse::MAX_HOPS as int);
            lemma_parse_name(msg, pos + n1, txt, parse::MAX_HOPS as int);
        },
        DataV::Txt(text) => {
            lemma_parse_txt(msg, pos, text);
        },
    }
}

/// A question parses back from its own embedded encoding.
pub proof fn lemma_parse_question(msg: Seq<u8>, pos: int, q: QuestionV)
    requires
        0 <= pos,
        pos + wire::encode_question(q).len() <= msg.len(),
        msg.subrange(pos, pos + wire::encode_question(q).len() as int) == wire::encode_question(q),
        question_rt_ok(q),
    ensures
        parse::spec_question(msg, pos) == Some((pos + wire::encode_question(q).len(), q)),
{
    let enc = wire::encode_question(q);
    wire::lemma_name_len(q.name);
    let n1 = wire::name_len(q.name);
    lemma_embedded_sub(msg, pos, enc, 0, n1);
    assert(enc.subrange(0, n1) =~= wire::encode_name(q.name));
    lemma_parse_name(msg, pos, q.name, parse::MAX_HOPS as int);
    lemma_embedded_index(msg, pos, enc, n1);
    lemma_embedded_index(msg, pos, enc, n1 + 1);
    lemma_embedded_index(msg, pos, enc, n1 + 2);
    lemma_embedded_index(msg, pos, enc, n1 + 3);
    lemma_be_u16_of_encode(wire::type_code(q.ty));
    lemma_be_u16_of_encode(wire::class_code(q.class));
    assert(wire::code_type(wire::type_code(q.ty)) == Some(q.ty));
    assert(wire::code_class(wire::class_code(q.class)) == Some(q.class));
}

/// A record parses back from its own embedded encoding, and is never
/// skipped: its type and class codes are recognized by construction.
pub proof fn lemma_parse_record(msg: Seq<u8>, pos: int, r: RecordV)
    requires
        0 <= pos,
        pos + wire::encode_record(r).len() <= msg.len(),
        msg.subrange(pos, pos + wire::encode_record(r).len() as int) == wire::encode_record(r),
        record_rt_ok(r),
        wire::data_len(r.data) < 0x10000,
    ensures
        parse::spec_record(msg, pos) == Some((pos + wire::encode_record(r).len(), Some(r))),
{
    let enc = wire::encode_record(r);
    wire::lemma_name_len(r.name);
    let n1 = wire::name_len(r.name);
    let dl = wire::data_len(r.data);
    lemma_embedded_sub(msg, pos, enc, 0, n1);
    assert(enc.subrange(0, n1) =~= wire::encode_name(r.name));
    lemma_parse_name(msg, pos, r.name, parse::MAX_HOPS as int);
    lemma_embedded_index(msg, pos, enc, n1);
    lemma_embedded_index(msg, pos, enc, n1 + 1);
    lemma_embedded_index(msg, pos, enc, n1 + 2);
    lemma_embedded_index(msg, pos, enc, n1 + 3);
    lemma_embedded_index(msg, pos, enc, n1 + 4);
    lemma_embedded_index(msg, pos, enc, n1 + 5);
    lemma_embedded_index(msg, pos, enc, n1 + 6);
    lemma_embedded_index(msg, pos, enc, n1 + 7);
    lemma_embedded_index(msg, pos, enc, n1 + 8);
    lemma_embedded_index(msg, pos, enc, n1 + 9);
    let t = wire::data_type(r.data);
    lemma_be_u16_of_encode(wire::type_code(t));
    lemma_be_u16_of_encode(wire::class_code(r.class));
    assert(wire::code_type(wire::type_code(t)) == Some(t));
    assert(!(t is All));
    assert(wire::code_class(wire::class_code(r.class)) == Some(r.class));
    lemma_be_u32_of_encode(r.time_to_live as u32);
    lemma_i32_roundtrip(r.time_to_live);
    lemma_be_u16_of_encode(dl as u16);
    assert(dl as u16 == dl);
    lemma_embedded_sub(msg, pos, enc, n1 + 10, enc.len() as int);
    assert(enc.subrange(n1 + 10, enc.len() as int) =~= wire::encode_data(r.data));
    lemma_parse_data(msg, pos + n1 + 10, r.data);
}

/// A question section parses back from its own embedded encoding, with
/// the section's length as the count.
pub proof fn lemma_parse_questions(msg: Seq<u8>, pos: int, qs: Seq<QuestionV>)
    requires
        0 <= pos,
        pos + wire::encode_questions(qs).len() <= msg.len(),
        msg.subrange(pos, pos + wire::encode_questions(qs).len() as int) == wire::encode_questions(
            qs,
        ),
        forall|i: int| 0 <= i < qs.len() ==> question_rt_ok(#[trigger] qs[i]),
    ensures
        parse::spec_questions(msg, pos, qs.len() as int) == Some(
            (pos + wire::encode_questions(qs).len(), qs),
        ),
    decreases qs.len(),
{
    let enc = wire::encode_questions(qs);
    if qs.len() > 0 {
        let q = qs[0];
        let e1 = wire::encode_question(q);
        let rest = qs.drop_first();
        let enc_rest = wire::encode_questions(rest);
        lemma_embedded_sub(msg, pos, enc, 0, e1.len() as int);
        assert(enc.subrange(0, e1.len() as int) =~= e1);
        lemma_parse_question(msg, pos, q);
        lemma_embedded_sub(msg, pos, enc, e1.len() as int, enc.len() as int);
        assert(enc.subrange(e1.len() as int, enc.len() as int) =~= enc_rest);
        assert(forall|i: int| 0 <= i < rest.len() ==> question_rt_ok(#[trigger] rest[i]));
        lemma_parse_questions(msg, pos + e1.len(), rest);
        assert(seq![q] + rest =~= qs);
    }
}

/// A record section parses back from its own embedded encoding, with the
/// section's length as the count; no record of it is skipped.
pub proof fn lemma_parse_records(msg: Seq<u8>, pos: int, rs: Seq<RecordV>)
    requires
        0 <= pos,
        pos + wire::encode_records(rs).len() <= msg.len(),
        msg.subrange(pos, pos + wire::encode_records(rs).len() as int) == wire::encode_records(rs),
        forall|i: int| 0 <= i < rs.len() ==> record_rt_ok(#[trigger] rs[i]),
        forall|i: int| 0 <= i < rs.len() ==> wire::data_len((#[trigger] rs[i]).data) < 0x10000,
    ensures
        parse::spec_records(msg, pos, rs.len() as int) == Some(
            (pos + wire::encode_records(rs).len(), rs),
        ),
    decreases rs.len(),
{
    let enc = wire::encode_records(rs);
    if rs.len() > 0 {
        let r = rs[0];
        let e1 = wire::encode_record(r);
        let rest = rs.drop_first();
        let enc_rest = wire::encode_records(rest);
        lemma_embedded_sub(msg, pos, enc, 0, e1.len() as int);
        assert(enc.subrange(0, e1.len() as int) =~= e1);
        lemma_parse_record(msg, pos, r);
        lemma_embedded_sub(msg, pos, enc, e1.len() as int, enc.len() as int);
        assert(enc.subrange(e1.len() as int, enc.len() as int) =~= enc_rest);
        assert(forall|i: int| 0 <= i < rest.len() ==> record_rt_ok(#[trigger] rest[i]));
        assert(forall|i: int|
            0 <= i < rest.len() ==> wire::data_len((#[trigger] rest[i]).data) < 0x10000);
        lemma_parse_records(msg, pos + e1.len(), rest);
        assert(seq![r] + rest =~= rs);
    }
}

/// Every question costs at least six bytes on the wire.
proof fn lemma_questions_min_len(qs: Seq<QuestionV>)
    ensures
        wire::encode_questions(qs).len() >= 6 * qs.len(),
    decreases qs.len(),
{
    if qs.len() > 0 {
        wire::lemma_name_len(qs[0].name);
        lemma_questions_min_len(qs.drop_first());
    }
}

/// Every record costs at least twelve bytes on the wire, and its data
/// never more than the whole section.
proof fn lemma_records_min_len(rs: Seq<RecordV>)
    ensures
        wire::encode_records(rs).len() >= 12 * rs.len(),
        forall|i: int|
            0 <= i < rs.len() ==> wire::data_len((#[trigger] rs[i]).data)
                <= wire::encode_records(rs).len(),
    decreases rs.len(),
{
    if rs.len() > 0 {
        wire::lemma_name_len(rs[0].name);
        lemma_records_min_len(rs.drop_first());
        assert forall|i: int|
            0 <= i < rs.len() implies wire::data_len((#[trigger] rs[i]).data)
            <= wire::encode_records(rs).len() by {
            if i > 0 {
                assert(rs.drop_first()[i - 1] == rs[i]);
            }
        }
    }
}

/// How the fields packed into the two flag bytes read back out.
proof fn lemma_flags_extract(p: PacketV)
    ensures
        (wire::flags1_byte(p) < 128) == p.is_query,
        (wire::flags1_byte(p) / 8) % 16 == wire::kind_code(p.kind),
        (wire::flags1_byte(p) / 4) % 2 == wire::bool_bit(p.is_authoritative),
        (wire::flags1_byte(p) / 2) % 2 == wire::bool_bit(p.truncated),
        wire::flags1_byte(p) % 2 == wire::bool_bit(p.recursion_desired),
        (wire::flags2_byte(p) >= 128) == p.recursion_available,
        wire::flags2_byte(p) % 16 == wire::rcode_code(p.response_code),
{
    let nq: u8 = wire::bool_bit(!p.is_query);
    let kc: u8 = wire::kind_code(p.kind);
    let ab: u8 = wire::bool_bit(p.is_authoritative);
    let tb: u8 = wire::bool_bit(p.truncated);
    let rd: u8 = wire::bool_bit(p.recursion_desired);
    let b2 = wire::flags1_byte(p);
    assert(b2 == 128 * nq + 8 * kc + 4 * ab + 2 * tb + rd);
    assert((b2 / 8) % 16 == kc) by {
        assert(b2 / 8 == 16 * nq + kc);
    }
    assert((b2 / 4) % 2 == ab) by {
        assert(b2 / 4 == 32 * nq + 2 * kc + ab);
    }
    assert((b2 / 2) % 2 == tb) by {
        assert(b2 / 2 == 64 * nq + 4 * kc + 2 * ab + tb);
    }
}

/// The twelve bytes of the encoded header, one by one.
proof fn lemma_header_bytes(p: PacketV)
    ensures
        wire::encode_header(p).len() == 12,
        wire::encode_header(p)[0] == ((p.id as u16) / 256) as u8,
        wire::encode_header(p)[1] == ((p.id as u16) % 256) as u8,
        wire::encode_header(p)[2] == wire::flags1_byte(p),
        wire::encode_header(p)[3] == wire::flags2_byte(p),
        wire::encode_header(p)[4] == ((p.question.len() as u16) / 256) as u8,
        wire::encode_header(p)[5] == ((p.question.len() as u16) % 256) as u8,
        wire::encode_header(p)[6] == ((p.answer.len() as u16) / 256) as u8,
        wire::encode_header(p)[7] == ((p.answer.len() as u16) % 256) as u8,
        wire::encode_header(p)[8] == ((p.authority.len() as u16) / 256) as u8,
        wire::encode_header(p)[9] == ((p.authority.len() as u16) % 256) as u8,
        wire::encode_header(p)[10] == ((p.additional.len() as u16) / 256) as u8,
        wire::encode_header(p)[11] == ((p.additional.len() as u16) % 256) as u8,
{
}

/// Where the header and the four sections sit inside an encoded packet.
proof fn lemma_packet_layout(p: PacketV)
    ensures
        wire::packet_len(p) == 12 + wire::encode_questions(p.question).len()
            + wire::encode_records(p.answer).len() + wire::encode_records(p.authority).len()
            + wire::encode_records(p.additional).len(),
        wire::encode_packet(p).subrange(0, 12) == wire::encode_header(p),
        wire::encode_packet(p).subrange(12, 12 + wire::encode_questions(p.question).len() as int)
            == wire::encode_questions(p.question),
        wire::encode_packet(p).subrange(
            12 + wire::encode_questions(p.question).len() as int,
            12 + wire::encode_questions(p.question).len() as int + wire::encode_records(
                p.answer,
            ).len() as int,
        ) == wire::encode_records(p.answer),
        wire::encode_packet(p).subrange(
            12 + wire::encode_questions(p.question).len() as int + wire::encode_records(
                p.answer,
            ).len() as int,
            12 + wire::encode_questions(p.question).len() as int + wire::encode_records(
                p.answer,
            ).len() as int + wire::encode_records(p.authority).len() as int,
        ) == wire::encode_records(p.authority),
        wire::encode_packet(p).subrange(
            12 + wire::encode_questions(p.question).len() as int + wire::encode_records(
                p.answer,
            ).len() as int + wire::encode_records(p.authority).len() as int,
            wire::packet_len(p),
        ) == wire::encode_records(p.additional),
{
    let msg = wire::encode_packet(p);
    let hdr = wire::encode_header(p);
    let encq = wire::encode_questions(p.question);
    let enca = wire::encode_records(p.answer);
    let encn = wire::encode_records(p.authority);
    let encd = wire::encode_records(p.additional);
    let lq = encq.len() as int;
    let la = enca.len() as int;
    let ln = encn.len() as int;
    let ld = encd.len() as int;
    assert(msg == hdr + encq + enca + encn + encd);
    assert(hdr.len() == 12);
    assert(msg.subrange(0, 12) =~= hdr);
    assert(msg.subrange(12, 12 + lq) =~= encq);
    assert(msg.subrange(12 + lq, 12 + lq + la) =~= enca);
    assert(msg.subrange(12 + lq + la, 12 + lq + la + ln) =~= encn);
    assert(msg.subrange(12 + lq + la + ln, 12 + lq + la + ln + ld) =~= encd);
}

/// Round trip: a packet whose labels, text entries and data shapes are
/// within bounds, and whose exact wire length fits the 512-byte ceiling,
/// parses back from its own encoding to the same packet, and the parser
/// consumes exactly the byte count the formatter reports.
#[verifier::rlimit(100)]
pub proof fn lemma_round_trip(p: PacketV)
    requires
        packet_rt_ok(p),
        wire::packet_len(p) <= 512,
    ensures
        parse::spec_packet(wire::encode_packet(p)) == Some((wire::packet_len(p), p)),
{
    let msg = wire::encode_packet(p);
    let hdr = wire::encode_header(p);
    let encq = wire::encode_questions(p.question);
    let enca = wire::encode_records(p.answer);
    let encn = wire::encode_records(p.authority);
    let encd = wire::encode_records(p.additional);
    let lq = encq.len() as int;
    let la = enca.len() as int;
    let ln = encn.len() as int;
    let ld = encd.len() as int;
    lemma_packet_layout(p);
    lemma_header_bytes(p);
    assert forall|k: int| 0 <= k < 12 implies msg[k] == hdr[k] by {
        lemma_embedded_index(msg, 0, hdr, k);
    }
    lemma_questions_min_len(p.question);
    lemma_records_min_len(p.answer);
    lemma_records_min_len(p.authority);
    lemma_records_min_len(p.additional);
    // counts fit sixteen bits, so their truncation in the header is exact
    assert(p.question.len() < 0x10000);
    assert(p.answer.len() < 0x10000);
    assert(p.authority.len() < 0x10000);
    assert(p.additional.len() < 0x10000);
    lemma_be_u16_of_encode(p.id as u16);
    lemma_i16_roundtrip(p.id);
    lemma_be_u16_of_encode(p.question.len() as u16);
    lemma_be_u16_of_encode(p.answer.len() as u16);
    lemma_be_u16_of_encode(p.authority.len() as u16);
    lemma_be_u16_of_encode(p.additional.len() as u16);
    assert(wire::be_u16(msg[0], msg[1]) as i16 == p.id);
    assert(wire::be_u16(msg[4], msg[5]) as int == p.question.len());
    assert(wire::be_u16(msg[6], msg[7]) as int == p.answer.len());
    assert(wire::be_u16(msg[8], msg[9]) as int == p.authority.len());
    assert(wire::be_u16(msg[10], msg[11]) as int == p.additional.len());
    lemma_flags_extract(p);
    assert(msg[2] == wire::flags1_byte(p));
    assert(msg[3] == wire::flags2_byte(p));
    assert(wire::code_kind(((msg[2] / 8) % 16) as u16) == Some(p.kind));
    assert(wire::code_rcode((msg[3] % 16) as u16) == Some(p.response_code));
    lemma_parse_questions(msg, 12, p.question);
    assert forall|i: int|
        0 <= i < p.answer.len() implies wire::data_len((#[trigger] p.answer[i]).data)
        < 0x10000 by {}
    assert forall|i: int|
        0 <= i < p.authority.len() implies wire::data_len((#[trigger] p.authority[i]).data)
        < 0x10000 by {}
    assert forall|i: int|
        0 <= i < p.additional.len() implies wire::data_len((#[trigger] p.additional[i]).data)
        < 0x10000 by {}
    lemma_parse_records(msg, 12 + lq, p.answer);
    lemma_parse_records(msg, 12 + lq + la, p.authority);
    lemma_parse_records(msg, 12 + lq + la + ln, p.additional);
    match parse::spec_packet(msg) {
        Some((end, q)) => {
            assert(end == wire::packet_len(p));
            assert(q == p);
        },
        None => {
            assert(false);
        },
    }
}

/// Compression-loop safety, one pointer: a pointer whose offset is its own
/// position fails the decode for every hop budget.
pub proof fn lemma_pointer_self_cycle(msg: Seq<u8>, pos: int, hops: int)
    requires
        0 <= pos,
        pos + 1 < msg.len(),
        msg[pos] >= 192,
        (msg[pos] - 192) * 256 + msg[pos + 1] == pos,
    ensures
        parse::spec_name(msg, pos, hops) is None,
    decreases hops,
{
    if hops > 0 {
        lemma_pointer_self_cycle(msg, pos, hops - 1);
    }
}

/// Compression-loop safety, two pointers: two pointers whose offsets
/// target each other fail the decode for every hop budget.
pub proof fn lemma_pointer_pair_cycle(msg: Seq<u8>, p1: int, p2: int, hops: int)
    requires
        0 <= p1,
        p1 + 1 < msg.len(),
        0 <= p2,
        p2 + 1 < msg.len(),
        msg[p1] >= 192,
        msg[p2] >= 192,
        (msg[p1] - 192) * 256 + msg[p1 + 1] == p2,
        (msg[p2] - 192) * 256 + msg[p2 + 1] == p1,
    ensures
        parse::spec_name(msg, p1, hops) is None,
        parse::spec_name(msg, p2, hops) is None,
    decreases hops,
{
    if hops > 0 {
        lemma_pointer_pair_cycle(msg, p1, p2, hops - 1);
    }
}

} // verus!
