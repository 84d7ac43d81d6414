//! Exact wire-length calculator.
//!
//! Every function returns the exact number of bytes the wire encoding of its
//! argument occupies, with no side effects and no fallible paths. Names are
//! always sized as written in full: compression is never applied.

use vstd::prelude::*;
use crate::{Data, Packet, Question, Record};
use crate::wire;

verus! {

/// Exact wire length of a domain name: one length byte per label plus each
/// label's bytes, plus the terminating zero byte.
pub fn domain_name(s: &[u8]) -> (r: usize)
    requires
        wire::name_len(s@) <= usize::MAX as int,
    ensures
        r as int == wire::name_len(s@),
{
    proof {
        wire::lemma_name_len(s@);
    }
    s.len() + 2
}

/// Exact wire length of one character-string: a length byte plus the bytes.
pub fn character_string(s: &[u8]) -> (r: usize)
    requires
        s@.len() + 1 <= usize::MAX as int,
    ensures
        r as int == wire::encode_char_string(s@).len(),
{
    1 + s.len()
}

/// Wire length of an IPv4 address: four octets.
pub fn a() -> (r: usize)
    ensures
        r == 4,
{
    4
}

/// Wire length of an IPv6 address: eight 16-bit segments.
pub fn aaaa() -> (r: usize)
    ensures
        r == 16,
{
    16
}

/// Exact wire length of mail-exchange data: the preference plus the
/// exchange name.
pub fn mx(domain: &[u8]) -> (r: usize)
    requires
        wire::name_len(domain@) + 2 <= usize::MAX as int,
    ensures
        r as int == 2 + wire::name_len(domain@),
{
    2 + domain_name(domain)
}

/// Exact wire length of domain-name-pointer data: just the name.
pub fn ptr(domain: &[u8]) -> (r: usize)
    requires
        wire::name_len(domain@) <= usize::MAX as int,
    ensures
        r as int == wire::name_len(domain@),
{
    domain_name(domain)
}

/// Exact wire length of responsible-person data: the two names.
pub fn rp(mbox: &[u8], txt: &[u8]) -> (r: usize)
    requires
        wire::name_len(mbox@) + wire::name_len(txt@) <= usize::MAX as int,
    ensures
        r as int == wire::name_len(mbox@) + wire::name_len(txt@),
{
    proof {
        wire::lemma_name_len(mbox@);
        wire::lemma_name_len(txt@);
    }
    domain_name(mbox) + domain_name(txt)
}

/// Exact wire length of text data: each character-string costs its length
/// byte plus its bytes.
pub fn txt(text: &Vec<Vec<u8>>) -> (r: usize)
    requires
        wire::encode_txt(text@.map_values(|s: Vec<u8>| s@)).len() <= usize::MAX as int,
    ensures
        r as int == wire::encode_txt(text@.map_values(|s: Vec<u8>| s@)).len(),
{
    let ghost tv = text@.map_values(|s: Vec<u8>| s@);
    proof {
        assert(tv.skip(0) =~= tv);
    }
    let mut total: usize = 0;
    let mut i: usize = 0;
    while i < text.len()
        invariant
            i <= text@.len(),
            tv == text@.map_values(|s: Vec<u8>| s@),
            wire::encode_txt(tv).len() <= usize::MAX as int,
            wire::encode_txt(tv).len() == total + wire::encode_txt(tv.skip(i as int)).len(),
        decreases text@.len() - i,
    {
        proof {
            assert(tv.skip(i as int)[0] == text@[i as int]@);
            assert(tv.skip(i as int).drop_first() =~= tv.skip(i as int + 1));
        }
        total = total + character_string(text[i].as_slice());
        i = i + 1;
    }
    proof {
        assert(tv.skip(text@.len() as int) =~= Seq::<Seq<u8>>::empty());
    }
    total
}

/// Exact wire length of a record's data, by variant.
pub fn data(d: &Data) -> (r: usize)
    requires
        wire::data_len(d@) <= usize::MAX as int,
    ensures
        r as int == wire::data_len(d@),
{
    match d {
        Data::A(..) => a(),
        Data::Aaaa(segments) => {
            proof {
                wire::lemma_segments_len(segments@);
            }
            aaaa()
        },
        Data::Mx(_, domain) => mx(domain.as_slice()),
        Data::Ptr(domain) => ptr(domain.as_slice()),
        Data::Rp(mbox, txt_domain) => rp(mbox.as_slice(), txt_domain.as_slice()),
        Data::Txt(text) => txt(text),
    }
}

/// Exact wire length of a question: its name plus four bytes for the type
/// and class codes.
pub fn question(q: &Question) -> (r: usize)
    requires
        wire::encode_question(q@).len() <= usize::MAX as int,
    ensures
        r as int == wire::encode_question(q@).len(),
{
    domain_name(q.name.as_slice()) + 4
}

/// Exact wire length of a record: its name, ten fixed bytes for type,
/// class, time to live and declared data length, plus the data.
pub fn record(r: &Record) -> (res: usize)
    requires
        wire::encode_record(r@).len() <= usize::MAX as int,
    ensures
        res as int == wire::encode_record(r@).len(),
{
    domain_name(r.name.as_slice()) + 2 + 2 + 4 + 2 + data(&r.data)
}

/// Exact wire length of a question section.
fn questions_len(qs: &Vec<Question>) -> (r: usize)
    requires
        wire::encode_questions(qs@.map_values(|q: Question| q@)).len() <= usize::MAX as int,
    ensures
        r as int == wire::encode_questions(qs@.map_values(|q: Question| q@)).len(),
{
    let ghost qv = qs@.map_values(|q: Question| q@);
    proof {
        assert(qv.skip(0) =~= qv);
    }
    let mut total: usize = 0;
    let mut i: usize = 0;
    while i < qs.len()
        invariant
            i <= qs@.len(),
            qv == qs@.map_values(|q: Question| q@),
            wire::encode_questions(qv).len() <= usize::MAX as int,
            wire::encode_questions(qv).len() == total + wire::encode_questions(
                qv.skip(i as int),
            ).len(),
        decreases qs@.len() - i,
    {
        proof {
            assert(qv.skip(i as int)[0] == qs@[i as int]@);
            assert(qv.skip(i as int).drop_first() =~= qv.skip(i as int + 1));
        }
        total = total + question(&qs[i]);
        i = i + 1;
    }
    proof {
        assert(qv.skip(qs@.len() as int) =~= Seq::<crate::QuestionV>::empty());
    }
    total
}

/// Exact wire length of a record section.
fn records_len(rs: &Vec<Record>) -> (r: usize)
    requires
        wire::encode_records(rs@.map_values(|x: Record| x@)).len() <= usize::MAX as int,
    ensures
        r as int == wire::encode_records(rs@.map_values(|x: Record| x@)).len(),
{
    let ghost rv = rs@.map_values(|x: Record| x@);
    proof {
        assert(rv.skip(0) =~= rv);
    }
    let mut total: usize = 0;
    let mut i: usize = 0;
    while i < rs.len()
        invariant
            i <= rs@.len(),
            rv == rs@.map_values(|x: Record| x@),
            wire::encode_records(rv).len() <= usize::MAX as int,
            wire::encode_records(rv).len() == total + wire::encode_records(
                rv.skip(i as int),
            ).len(),
        decreases rs@.len() - i,
    {
        proof {
            assert(rv.skip(i as int)[0] == rs@[i as int]@);
            assert(rv.skip(i as int).drop_first() =~= rv.skip(i as int + 1));
        }
        total = total + record(&rs[i]);
        i = i + 1;
    }
    proof {
        assert(rv.skip(rs@.len() as int) =~= Seq::<crate::RecordV>::empty());
    }
    total
}

/// Exact wire length of a whole packet: the 12-byte header plus its four
/// sections in order.
pub fn packet(p: &Packet) -> (r: usize)
    requires
        wire::packet_len(p@) <= usize::MAX as int,
    ensures
        r as int == wire::packet_len(p@),
{
    proof {
        assert(p@.question =~= p.question@.map_values(|q: Question| q@));
        assert(p@.answer =~= p.answer@.map_values(|x: Record| x@));
        assert(p@.authority =~= p.authority@.map_values(|x: Record| x@));
        assert(p@.additional =~= p.additional@.map_values(|x: Record| x@));
        assert(wire::encode_header(p@).len() == 12);
    }
    let mut total: usize = 12;
    total = total + questions_len(&p.question);
    total = total + records_len(&p.answer);
    total = total + records_len(&p.authority);
    total = total + records_len(&p.additional);
    total
}

/// `x`, capped at 513. One byte above the 512-byte message ceiling is
/// enough for the formatter: any length that reaches 513 fails the size
/// check, so nothing larger need ever be represented.
pub open spec fn cap513(x: int) -> int {
    if x > 513 { 513 } else { x }
}

/// Wire length of a name, capped at 513.
fn name_capped(s: &[u8]) -> (r: usize)
    ensures
        r as int == cap513(wire::name_len(s@)),
{
    proof {
        wire::lemma_name_len(s@);
    }
    if s.len() >= 511 {
        513
    } else {
        s.len() + 2
    }
}

/// Wire length of one character-string, capped at 513.
fn char_string_capped(s: &[u8]) -> (r: usize)
    ensures
        r as int == cap513(wire::encode_char_string(s@).len() as int),
{
    if s.len() >= 513 {
        513
    } else {
        1 + s.len()
    }
}

/// Sum of two capped lengths, capped at 513.
fn cap_add(a: usize, b: usize) -> (r: usize)
    requires
        a <= 513,
        b <= 513,
    ensures
        r as int == cap513(a + b),
{
    if a + b > 513 {
        513
    } else {
        a + b
    }
}

/// Wire length of text data, capped at 513.
fn txt_capped(text: &Vec<Vec<u8>>) -> (r: usize)
    ensures
        r as int == cap513(wire::encode_txt(text@.map_values(|s: Vec<u8>| s@)).len() as int),
{
    let ghost tv = text@.map_values(|s: Vec<u8>| s@);
    proof {
        assert(tv.skip(0) =~= tv);
    }
    let ghost mut pre: int = 0;
    let mut total: usize = 0;
    let mut i: usize = 0;
    while i < text.len()
        invariant
            i <= text@.len(),
            tv == text@.map_values(|s: Vec<u8>| s@),
            pre == wire::encode_txt(tv).len() - wire::encode_txt(tv.skip(i as int)).len(),
            pre >= 0,
            total as int == cap513(pre),
        decreases text@.len() - i,
    {
        proof {
            assert(tv.skip(i as int)[0] == text@[i as int]@);
            assert(tv.skip(i as int).drop_first() =~= tv.skip(i as int + 1));
        }
        total = cap_add(total, char_string_capped(text[i].as_slice()));
        proof {
            pre = pre + 1 + text@[i as int]@.len();
        }
        i = i + 1;
    }
    proof {
        assert(tv.skip(text@.len() as int) =~= Seq::<Seq<u8>>::empty());
    }
    total
}

/// Wire length of a record's data, capped at 513.
fn data_capped(d: &Data) -> (r: usize)
    ensures
        r as int == cap513(wire::data_len(d@)),
{
    match d {
        Data::A(..) => 4,
        Data::Aaaa(segments) => {
            proof {
                wire::lemma_segments_len(segments@);
            }
            16
        },
        Data::Mx(_, domain) => cap_add(2, name_capped(domain.as_slice())),
        Data::Ptr(domain) => name_capped(domain.as_slice()),
        Data::Rp(mbox, txt_domain) => cap_add(
            name_capped(mbox.as_slice()),
            name_capped(txt_domain.as_slice()),
        ),
        Data::Txt(text) => txt_capped(text),
    }
}

/// Wire length of a question, capped at 513.
fn question_capped(q: &Question) -> (r: usize)
    ensures
        r as int == cap513(wire::encode_question(q@).len() as int),
{
    cap_add(name_capped(q.name.as_slice()), 4)
}

/// Wire length of a record, capped at 513.
fn record_capped(r: &Record) -> (res: usize)
    ensures
        res as int == cap513(wire::encode_record(r@).len() as int),
{
    cap_add(cap_add(name_capped(r.name.as_slice()), 10), data_capped(&r.data))
}

/// Wire length of a question section, capped at 513.
fn questions_capped(qs: &Vec<Question>) -> (r: usize)
    ensures
        r as int == cap513(wire::encode_questions(qs@.map_values(|q: Question| q@)).len() as int),
{
    let ghost qv = qs@.map_values(|q: Question| q@);
    proof {
        assert(qv.skip(0) =~= qv);
    }
    let ghost mut pre: int = 0;
    let mut total: usize = 0;
    let mut i: usize = 0;
    while i < qs.len()
        invariant
            i <= qs@.len(),
            qv == qs@.map_values(|q: Question| q@),
            pre == wire::encode_questions(qv).len() - wire::encode_questions(
                qv.skip(i as int),
            ).len(),
            pre >= 0,
            total as int == cap513(pre),
        decreases qs@.len() - i,
    {
        proof {
            assert(qv.skip(i as int)[0] == qs@[i as int]@);
            assert(qv.skip(i as int).drop_first() =~= qv.skip(i as int + 1));
        }
        total = cap_add(total, question_capped(&qs[i]));
        proof {
            pre = pre + wire::encode_question(qv[i as int]).len();
        }
        i = i + 1;
    }
    proof {
        assert(qv.skip(qs@.len() as int) =~= Seq::<crate::QuestionV>::empty());
    }
    total
}

/// Wire length of a record section, capped at 513.
fn records_capped(rs: &Vec<Record>) -> (r: usize)
    ensures
        r as int == cap513(wire::encode_records(rs@.map_values(|x: Record| x@)).len() as int),
{
    let ghost rv = rs@.map_values(|x: Record| x@);
    proof {
        assert(rv.skip(0) =~= rv);
    }
    let ghost mut pre: int = 0;
    let mut total: usize = 0;
    let mut i: usize = 0;
    while i < rs.len()
        invariant
            i <= rs@.len(),
            rv == rs@.map_values(|x: Record| x@),
            pre == wire::encode_records(rv).len() - wire::encode_records(rv.skip(i as int)).len(),
            pre >= 0,
            total as int == cap513(pre),
        decreases rs@.len() - i,
    {
        proof {
            assert(rv.skip(i as int)[0] == rs@[i as int]@);
            assert(rv.skip(i as int).drop_first() =~= rv.skip(i as int + 1));
        }
        total = cap_add(total, record_capped(&rs[i]));
        proof {
            pre = pre + wire::encode_record(rv[i as int]).len();
        }
        i = i + 1;
    }
    proof {
        assert(rv.skip(rs@.len() as int) =~= Seq::<crate::RecordV>::empty());
    }
    total
}

/// Wire length of a whole packet, capped at 513. Unlike [`packet`] this
/// never overflows, so the formatter can run its size check on any packet.
pub fn packet_capped(p: &Packet) -> (r: usize)
    ensures
        wire::packet_len(p@) > 512 ==> r == 513,
        wire::packet_len(p@) <= 512 ==> r as int == wire::packet_len(p@),
{
    proof {
        assert(p@.question =~= p.question@.map_values(|q: Question| q@));
        assert(p@.answer =~= p.answer@.map_values(|x: Record| x@));
        assert(p@.authority =~= p.authority@.map_values(|x: Record| x@));
        assert(p@.additional =~= p.additional@.map_values(|x: Record| x@));
        assert(wire::encode_header(p@).len() == 12);
    }
    let mut total: usize = 12;
    total = cap_add(total, questions_capped(&p.question));
    total = cap_add(total, records_capped(&p.answer));
    total = cap_add(total, records_capped(&p.authority));
    total = cap_add(total, records_capped(&p.additional));
    total
}

} // verus!
