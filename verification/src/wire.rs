//! Mathematical model of the RFC 1035 wire format.
//!
//! Everything here is specification: the numeric codes of the closed
//! enumerations, big-endian byte encodings of the fixed-width integers, the
//! encoding of domain names, record data, and whole packets, the derived
//! exact lengths, and the first formatting error of a packet, if any.

use vstd::prelude::*;
use crate::{Class, DataV, FormatError, PacketV, QueryKind, QuestionV, RecordV, ResponseCode, Type};

verus! {

/// The byte that separates labels in a domain name.
pub const DOT: u8 = 46;

/// Wire code of a record or question type.
pub open spec fn type_code(t: Type) -> u16 {
    match t {
        Type::A => 1,
        Type::Aaaa => 28,
        Type::Mx => 15,
        Type::Ptr => 12,
        Type::Rp => 17,
        Type::Txt => 16,
        Type::All => 255,
    }
}

/// The type whose wire code is `c`, if any.
pub open spec fn code_type(c: u16) -> Option<Type> {
    if c == 1 { Some(Type::A) }
    else if c == 28 { Some(Type::Aaaa) }
    else if c == 15 { Some(Type::Mx) }
    else if c == 12 { Some(Type::Ptr) }
    else if c == 17 { Some(Type::Rp) }
    else if c == 16 { Some(Type::Txt) }
    else if c == 255 { Some(Type::All) }
    else { None }
}

/// Wire code of a class.
pub open spec fn class_code(c: Class) -> u16 {
    match c {
        Class::In => 1,
        Class::All => 255,
    }
}

/// The class whose wire code is `c`, if any.
pub open spec fn code_class(c: u16) -> Option<Class> {
    if c == 1 { Some(Class::In) }
    else if c == 255 { Some(Class::All) }
    else { None }
}

/// Wire code of a query kind.
pub open spec fn kind_code(k: QueryKind) -> u8 {
    match k {
        QueryKind::Standard => 0,
        QueryKind::Inverse => 1,
        QueryKind::Status => 2,
    }
}

/// The query kind whose wire code is `c`, if any.
pub open spec fn code_kind(c: u16) -> Option<QueryKind> {
    if c == 0 { Some(QueryKind::Standard) }
    else if c == 1 { Some(QueryKind::Inverse) }
    else if c == 2 { Some(QueryKind::Status) }
    else { None }
}

/// Wire code of a response code.
pub open spec fn rcode_code(rc: ResponseCode) -> u8 {
    match rc {
        ResponseCode::NoError => 0,
        ResponseCode::FormatError => 1,
        ResponseCode::ServerFailure => 2,
        ResponseCode::NameError => 3,
        ResponseCode::NotImplemented => 4,
        ResponseCode::Refused => 5,
    }
}

/// The response code whose wire code is `c`, if any.
pub open spec fn code_rcode(c: u16) -> Option<ResponseCode> {
    if c == 0 { Some(ResponseCode::NoError) }
    else if c == 1 { Some(ResponseCode::FormatError) }
    else if c == 2 { Some(ResponseCode::ServerFailure) }
    else if c == 3 { Some(ResponseCode::NameError) }
    else if c == 4 { Some(ResponseCode::NotImplemented) }
    else if c == 5 { Some(ResponseCode::Refused) }
    else { None }
}

/// The record type implied by a data variant.
pub open spec fn data_type(d: DataV) -> Type {
    match d {
        DataV::A(..) => Type::A,
        DataV::Aaaa(..) => Type::Aaaa,
        DataV::Mx(..) => Type::Mx,
        DataV::Ptr(..) => Type::Ptr,
        DataV::Rp(..) => Type::Rp,
        DataV::Txt(..) => Type::Txt,
    }
}

/// Big-endian bytes of a 16-bit unsigned integer.
pub open spec fn encode_u16(v: u16) -> Seq<u8> {
    seq![(v / 256) as u8, (v % 256) as u8]
}

/// Big-endian bytes of a 16-bit signed integer (two's complement).
pub open spec fn encode_i16(v: i16) -> Seq<u8> {
    encode_u16(v as u16)
}

/// Big-endian bytes of a 32-bit unsigned integer.
pub open spec fn encode_u32(v: u32) -> Seq<u8> {
    seq![
        (v / 0x1000000) as u8,
        ((v / 0x10000) % 256) as u8,
        ((v / 256) % 256) as u8,
        (v % 256) as u8,
    ]
}

/// Big-endian bytes of a 32-bit signed integer (two's complement).
pub open spec fn encode_i32(v: i32) -> Seq<u8> {
    encode_u32(v as u32)
}

/// The 16-bit unsigned integer read big-endian from two bytes.
pub open spec fn be_u16(b0: u8, b1: u8) -> u16 {
    (b0 as u16 * 256 + b1 as u16) as u16
}

/// The 32-bit unsigned integer read big-endian from four bytes.
pub open spec fn be_u32(b0: u8, b1: u8, b2: u8, b3: u8) -> u32 {
    (b0 as u32 * 0x1000000 + b1 as u32 * 0x10000 + b2 as u32 * 256 + b3 as u32) as u32
}

/// Index of the first `DOT` in `s`, or `s.len()` if there is none.
pub open spec fn first_dot(s: Seq<u8>) -> int
    decreases s.len(),
{
    if s.len() == 0 {
        0
    } else if s[0] == DOT {
        0
    } else {
        1 + first_dot(s.drop_first())
    }
}

/// `first_dot` lies between 0 and the length, the bytes before it are not
/// dots, and the byte at it, when inside the sequence, is a dot.
pub broadcast proof fn first_dot_properties(s: Seq<u8>)
    ensures
        0 <= #[trigger] first_dot(s) <= s.len(),
        forall|j: int| 0 <= j < first_dot(s) ==> s[j] != DOT,
        first_dot(s) < s.len() ==> s[first_dot(s)] == DOT,
    decreases s.len(),
{
    if s.len() > 0 && s[0] != DOT {
        first_dot_properties(s.drop_first());
        assert forall|j: int| 0 <= j < first_dot(s) implies s[j] != DOT by {
            if j > 0 {
                assert(s.drop_first()[j - 1] != DOT);
            }
        }
    }
}

/// `first_dot` is the only index up to which there is no dot and which is a
/// dot or the end of the sequence.
pub proof fn lemma_first_dot_at(s: Seq<u8>, i: int)
    requires
        0 <= i <= s.len(),
        forall|j: int| 0 <= j < i ==> s[j] != DOT,
        i < s.len() ==> s[i] == DOT,
    ensures
        first_dot(s) == i,
    decreases s.len(),
{
    if s.len() > 0 && s[0] != DOT {
        assert(i >= 1);
        assert forall|j: int| 0 <= j < i - 1 implies s.drop_first()[j] != DOT by {
            assert(s[j + 1] != DOT);
        }
        lemma_first_dot_at(s.drop_first(), i - 1);
    }
}

/// Wire encoding of a domain name: each dot-separated label is written as a
/// length byte followed by its bytes, and a zero length byte ends the name.
/// Compression is never applied.
pub open spec fn encode_name(s: Seq<u8>) -> Seq<u8>
    decreases s.len(),
    via encode_name_decreases
{
    let i = first_dot(s);
    if i >= s.len() {
        seq![s.len() as u8] + s + seq![0u8]
    } else {
        seq![i as u8] + s.take(i) + encode_name(s.skip(i + 1))
    }
}

#[via_fn]
proof fn encode_name_decreases(s: Seq<u8>) {
    first_dot_properties(s);
}

/// Exact wire length of a domain name.
pub open spec fn name_len(s: Seq<u8>) -> int {
    encode_name(s).len() as int
}

/// A name encodes to its own length plus two: every dot becomes a length
/// byte, and one leading length byte and the terminating zero byte are
/// added.
pub proof fn lemma_name_len(s: Seq<u8>)
    ensures
        name_len(s) == s.len() + 2,
    decreases s.len(),
{
    first_dot_properties(s);
    let i = first_dot(s);
    if i < s.len() {
        lemma_name_len(s.skip(i + 1));
    }
}

/// Wire encoding of one character-string: a length byte, then the bytes.
pub open spec fn encode_char_string(s: Seq<u8>) -> Seq<u8> {
    seq![s.len() as u8] + s
}

/// Wire encoding of a text record's character-strings, in order.
pub open spec fn encode_txt(ss: Seq<Seq<u8>>) -> Seq<u8>
    decreases ss.len(),
{
    if ss.len() == 0 {
        Seq::empty()
    } else {
        encode_char_string(ss[0]) + encode_txt(ss.drop_first())
    }
}

/// Big-endian encoding of a list of 16-bit segments, in order.
pub open spec fn encode_segments(segs: Seq<u16>) -> Seq<u8>
    decreases segs.len(),
{
    if segs.len() == 0 {
        Seq::empty()
    } else {
        encode_u16(segs[0]) + encode_segments(segs.drop_first())
    }
}

/// A list of 16-bit segments encodes to two bytes per segment.
pub proof fn lemma_segments_len(segs: Seq<u16>)
    ensures
        encode_segments(segs).len() == 2 * segs.len(),
    decreases segs.len(),
{
    if segs.len() > 0 {
        lemma_segments_len(segs.drop_first());
    }
}

/// Wire encoding of a record's data.
pub open spec fn encode_data(d: DataV) -> Seq<u8> {
    match d {
        DataV::A(octets) => octets,
        DataV::Aaaa(segments) => encode_segments(segments),
        DataV::Mx(preference, exchange) => encode_i16(preference) + encode_name(exchange),
        DataV::Ptr(domain) => encode_name(domain),
        DataV::Rp(mbox, txt) => encode_name(mbox) + encode_name(txt),
        DataV::Txt(text) => encode_txt(text),
    }
}

/// Exact wire length of a record's data.
pub open spec fn data_len(d: DataV) -> int {
    encode_data(d).len() as int
}

/// Wire encoding of a question: name, type code, class code.
pub open spec fn encode_question(q: QuestionV) -> Seq<u8> {
    encode_name(q.name) + encode_u16(type_code(q.ty)) + encode_u16(class_code(q.class))
}

/// Wire encoding of a record: name, the data's implied type code, class
/// code, time to live, declared data length, then the data bytes.
pub open spec fn encode_record(r: RecordV) -> Seq<u8> {
    encode_name(r.name) + encode_u16(type_code(data_type(r.data)))
        + encode_u16(class_code(r.class)) + encode_i32(r.time_to_live)
        + encode_u16(data_len(r.data) as u16) + encode_data(r.data)
}

/// Wire encoding of a question section, in order.
pub open spec fn encode_questions(qs: Seq<QuestionV>) -> Seq<u8>
    decreases qs.len(),
{
    if qs.len() == 0 {
        Seq::empty()
    } else {
        encode_question(qs[0]) + encode_questions(qs.drop_first())
    }
}

/// Wire encoding of a record section, in order.
pub open spec fn encode_records(rs: Seq<RecordV>) -> Seq<u8>
    decreases rs.len(),
{
    if rs.len() == 0 {
        Seq::empty()
    } else {
        encode_record(rs[0]) + encode_records(rs.drop_first())
    }
}

/// 0 or 1 for a header flag bit.
pub open spec fn bool_bit(b: bool) -> u8 {
    if b { 1 } else { 0 }
}

/// First flag byte: response bit at bit 7, kind in bits 3 to 5, authoritative
/// at bit 2, truncated at bit 1, recursion-desired at bit 0.
pub open spec fn flags1_byte(p: PacketV) -> u8 {
    (128 * bool_bit(!p.is_query) + 8 * kind_code(p.kind) + 4 * bool_bit(p.is_authoritative)
        + 2 * bool_bit(p.truncated) + bool_bit(p.recursion_desired)) as u8
}

/// Second flag byte: recursion-available at bit 7, response code in bits 0
/// to 3.
pub open spec fn flags2_byte(p: PacketV) -> u8 {
    (128 * bool_bit(p.recursion_available) + rcode_code(p.response_code)) as u8
}

/// The fixed 12-byte header: id, the two flag bytes, then the four section
/// counts taken from the live sequence lengths.
pub open spec fn encode_header(p: PacketV) -> Seq<u8> {
    encode_i16(p.id) + seq![flags1_byte(p), flags2_byte(p)]
        + encode_u16(p.question.len() as u16) + encode_u16(p.answer.len() as u16)
        + encode_u16(p.authority.len() as u16) + encode_u16(p.additional.len() as u16)
}

/// Wire encoding of a whole packet: header, questions, answers, authority,
/// additional.
pub open spec fn encode_packet(p: PacketV) -> Seq<u8> {
    encode_header(p) + encode_questions(p.question) + encode_records(p.answer)
        + encode_records(p.authority) + encode_records(p.additional)
}

/// Exact wire length of a whole packet.
pub open spec fn packet_len(p: PacketV) -> int {
    encode_packet(p).len() as int
}

/// First formatting error of a domain name: the first label longer than 63
/// bytes, with its length.
pub open spec fn fmt_name_err(s: Seq<u8>) -> Option<FormatError>
    decreases s.len(),
    via fmt_name_err_decreases
{
    let i = first_dot(s);
    if i >= s.len() {
        if s.len() > 63 { Some(FormatError::Label(s.len() as usize)) } else { None }
    } else {
        if i > 63 { Some(FormatError::Label(i as usize)) } else { fmt_name_err(s.skip(i + 1)) }
    }
}

#[via_fn]
proof fn fmt_name_err_decreases(s: Seq<u8>) {
    first_dot_properties(s);
}

/// First formatting error of a text record: the first character-string
/// longer than 255 bytes, with its length.
pub open spec fn fmt_txt_err(ss: Seq<Seq<u8>>) -> Option<FormatError>
    decreases ss.len(),
{
    if ss.len() == 0 {
        None
    } else if ss[0].len() > 255 {
        Some(FormatError::String(ss[0].len() as usize))
    } else {
        fmt_txt_err(ss.drop_first())
    }
}

/// First formatting error of a record's data, in write order.
pub open spec fn fmt_data_err(d: DataV) -> Option<FormatError> {
    match d {
        DataV::A(..) => None,
        DataV::Aaaa(..) => None,
        DataV::Mx(_, exchange) => fmt_name_err(exchange),
        DataV::Ptr(domain) => fmt_name_err(domain),
        DataV::Rp(mbox, txt) => match fmt_name_err(mbox) {
            Some(e) => Some(e),
            None => fmt_name_err(txt),
        },
        DataV::Txt(text) => fmt_txt_err(text),
    }
}

/// First formatting error of a question.
pub open spec fn fmt_question_err(q: QuestionV) -> Option<FormatError> {
    fmt_name_err(q.name)
}

/// First formatting error of a record: its name, then its data.
pub open spec fn fmt_record_err(r: RecordV) -> Option<FormatError> {
    match fmt_name_err(r.name) {
        Some(e) => Some(e),
        None => fmt_data_err(r.data),
    }
}

/// First formatting error of a question section.
pub open spec fn fmt_questions_err(qs: Seq<QuestionV>) -> Option<FormatError>
    decreases qs.len(),
{
    if qs.len() == 0 {
        None
    } else {
        match fmt_question_err(qs[0]) {
            Some(e) => Some(e),
            None => fmt_questions_err(qs.drop_first()),
        }
    }
}

/// First formatting error of a record section.
pub open spec fn fmt_records_err(rs: Seq<RecordV>) -> Option<FormatError>
    decreases rs.len(),
{
    if rs.len() == 0 {
        None
    } else {
        match fmt_record_err(rs[0]) {
            Some(e) => Some(e),
            None => fmt_records_err(rs.drop_first()),
        }
    }
}

/// A name's formatting error, when there is one, is a label error.
proof fn lemma_fmt_name_err_kind(s: Seq<u8>)
    ensures
        match fmt_name_err(s) {
            None => true,
            Some(e) => e is Label,
        },
    decreases s.len(),
{
    first_dot_properties(s);
    let i = first_dot(s);
    if i < s.len() && i <= 63 {
        lemma_fmt_name_err_kind(s.skip(i + 1));
    }
}

/// A text record's formatting error, when there is one, is a string error.
proof fn lemma_fmt_txt_err_kind(ss: Seq<Seq<u8>>)
    ensures
        match fmt_txt_err(ss) {
            None => true,
            Some(e) => e is String,
        },
    decreases ss.len(),
{
    if ss.len() > 0 && ss[0].len() <= 255 {
        lemma_fmt_txt_err_kind(ss.drop_first());
    }
}

/// A record's formatting error, when there is one, is a label or string
/// error.
proof fn lemma_fmt_record_err_kind(r: RecordV)
    ensures
        match fmt_record_err(r) {
            None => true,
            Some(e) => e is Label || e is String,
        },
{
    lemma_fmt_name_err_kind(r.name);
    match r.data {
        DataV::Mx(_, exchange) => lemma_fmt_name_err_kind(exchange),
        DataV::Ptr(domain) => lemma_fmt_name_err_kind(domain),
        DataV::Rp(mbox, txt) => {
            lemma_fmt_name_err_kind(mbox);
            lemma_fmt_name_err_kind(txt);
        },
        DataV::Txt(text) => lemma_fmt_txt_err_kind(text),
        _ => {},
    }
}

/// A question section's formatting error, when there is one, is a label
/// error.
proof fn lemma_fmt_questions_err_kind(qs: Seq<QuestionV>)
    ensures
        match fmt_questions_err(qs) {
            None => true,
            Some(e) => e is Label,
        },
    decreases qs.len(),
{
    if qs.len() > 0 {
        lemma_fmt_name_err_kind(qs[0].name);
        lemma_fmt_questions_err_kind(qs.drop_first());
    }
}

/// A record section's formatting error, when there is one, is a label or
/// string error.
proof fn lemma_fmt_records_err_kind(rs: Seq<RecordV>)
    ensures
        match fmt_records_err(rs) {
            None => true,
            Some(e) => e is Label || e is String,
        },
    decreases rs.len(),
{
    if rs.len() > 0 {
        lemma_fmt_record_err_kind(rs[0]);
        lemma_fmt_records_err_kind(rs.drop_first());
    }
}

/// A packet's formatting error, when there is one, is a label or string
/// error: the size and buffer errors come only from the checks that run
/// before writing.
pub proof fn lemma_fmt_packet_err_kind(p: PacketV)
    ensures
        match fmt_packet_err(p) {
            None => true,
            Some(e) => e is Label || e is String,
        },
{
    lemma_fmt_questions_err_kind(p.question);
    lemma_fmt_records_err_kind(p.answer);
    lemma_fmt_records_err_kind(p.authority);
    lemma_fmt_records_err_kind(p.additional);
}

/// First label-size or string-size error met when writing a packet's
/// sections in order, if any. The size and buffer ceilings are checked
/// before this, by [`crate::Packet::format`].
pub open spec fn fmt_packet_err(p: PacketV) -> Option<FormatError> {
    match fmt_questions_err(p.question) {
        Some(e) => Some(e),
        None => match fmt_records_err(p.answer) {
            Some(e) => Some(e),
            None => match fmt_records_err(p.authority) {
                Some(e) => Some(e),
                None => fmt_records_err(p.additional),
            },
        },
    }
}

} // verus!
