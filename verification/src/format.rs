//! Wire formatter.
//!
//! Each function appends the wire encoding of its argument to a byte
//! vector, or fails with the first label-size or string-size error met in
//! write order. The overall size and buffer ceilings are checked by
//! [`crate::Packet::format`] before anything is written to the caller's
//! buffer.

use vstd::prelude::*;
use crate::{Data, FormatError, Packet, Question, Record};
use crate::cursor;
use crate::len;
use crate::wire;

verus! {

/// Appends `s[from..to]`.
fn append_bytes(dst: &mut Vec<u8>, s: &[u8], from: usize, to: usize)
    requires
        from <= to && to <= s@.len(),
    ensures
        final(dst)@ == old(dst)@ + s@.subrange(from as int, to as int),
{
    proof {
        assert(dst@ =~= old(dst)@ + s@.subrange(from as int, from as int));
    }
    let mut k: usize = from;
    while k < to
        invariant
            from <= k <= to <= s@.len(),
            dst@ == old(dst)@ + s@.subrange(from as int, k as int),
        decreases to - k,
    {
        cursor::write_u8(dst, s[k]);
        proof {
            assert(dst@ =~= old(dst)@ + s@.subrange(from as int, k as int + 1));
        }
        k += 1;
    }
}

/// Appends the encoding of a domain name: each label as a length byte and
/// its bytes, then the terminating zero byte. Fails on the first label
/// longer than 63 bytes, with that label's length.
pub fn domain_name(dst: &mut Vec<u8>, s: &[u8]) -> (r: Result<(), FormatError>)
    ensures
        match r {
            Ok(_) => wire::fmt_name_err(s@) is None && final(dst)@ == old(dst)@
                + wire::encode_name(s@),
            Err(e) => wire::fmt_name_err(s@) == Some(e),
        },
{
    let n = s.len();
    let mut pos: usize = 0;
    let ghost mut done: Seq<u8> = Seq::empty();
    proof {
        assert(s@.skip(0) =~= s@);
        assert(dst@ =~= old(dst)@ + done);
        assert(done + wire::encode_name(s@) =~= wire::encode_name(s@));
    }
    loop
        invariant
            pos <= n,
            n == s@.len(),
            dst@ == old(dst)@ + done,
            wire::encode_name(s@) == done + wire::encode_name(s@.skip(pos as int)),
            wire::fmt_name_err(s@) == wire::fmt_name_err(s@.skip(pos as int)),
        decreases n - pos,
    {
        let ghost rem = s@.skip(pos as int);
        let mut j: usize = pos;
        while j < n && s[j] != wire::DOT
            invariant
                pos <= j <= n,
                n == s@.len(),
                forall|k: int| pos <= k < j ==> s@[k] != wire::DOT,
            decreases n - j,
        {
            j += 1;
        }
        proof {
            assert forall|k: int| 0 <= k < j - pos implies rem[k] != wire::DOT by {
                assert(rem[k] == s@[pos + k]);
            }
            if j < n {
                assert(rem[j - pos] == s@[j as int]);
            }
            wire::lemma_first_dot_at(rem, j - pos);
        }
        let lab = j - pos;
        if lab > 63 {
            return Err(FormatError::Label(lab));
        }
        cursor::write_u8(dst, lab as u8);
        let ghost done2 = done + seq![lab as u8];
        proof {
            assert(dst@ =~= old(dst)@ + done2);
        }
        append_bytes(dst, s, pos, j);
        proof {
            assert(dst@ =~= old(dst)@ + (done2 + s@.subrange(pos as int, j as int)));
        }
        if j == n {
            cursor::write_u8(dst, 0);
            proof {
                assert(s@.subrange(pos as int, n as int) =~= rem);
                assert(dst@ =~= old(dst)@ + (done + wire::encode_name(rem)));
            }
            return Ok(());
        }
        proof {
            assert(rem.take(j - pos) =~= s@.subrange(pos as int, j as int));
            assert(rem.skip(j - pos + 1) =~= s@.skip(j as int + 1));
            done = done2 + s@.subrange(pos as int, j as int);
            assert(dst@ =~= old(dst)@ + done);
            assert(wire::encode_name(s@) =~= done + wire::encode_name(s@.skip(j as int + 1)));
        }
        pos = j + 1;
    }
}

/// Appends one character-string: a length byte, then the bytes. Fails when
/// the string is longer than 255 bytes, with its length.
pub fn character_string(dst: &mut Vec<u8>, s: &[u8]) -> (r: Result<(), FormatError>)
    ensures
        match r {
            Ok(_) => s@.len() <= 255 && final(dst)@ == old(dst)@ + wire::encode_char_string(s@),
            Err(e) => s@.len() > 255 && e == FormatError::String(s@.len() as usize),
        },
{
    if s.len() > 255 {
        return Err(FormatError::String(s.len()));
    }
    cursor::write_u8(dst, s.len() as u8);
    append_bytes(dst, s, 0, s.len());
    proof {
        assert(s@.subrange(0, s@.len() as int) =~= s@);
        assert(dst@ =~= old(dst)@ + wire::encode_char_string(s@));
    }
    Ok(())
}

/// Appends the four octets of an IPv4 address.
pub fn a(dst: &mut Vec<u8>, octets: &[u8; 4])
    ensures
        final(dst)@ == old(dst)@ + octets@,
{
    append_bytes(dst, octets.as_slice(), 0, 4);
    proof {
        assert(octets@.subrange(0, 4) =~= octets@);
    }
}

/// Appends the eight big-endian 16-bit segments of an IPv6 address.
pub fn aaaa(dst: &mut Vec<u8>, segments: &[u16; 8])
    ensures
        final(dst)@ == old(dst)@ + wire::encode_segments(segments@),
{
    let ghost sv = segments@;
    let ghost mut done: Seq<u8> = Seq::empty();
    proof {
        assert(sv.skip(0) =~= sv);
        assert(dst@ =~= old(dst)@ + done);
        assert(done + wire::encode_segments(sv) =~= wire::encode_segments(sv));
    }
    let mut i: usize = 0;
    while i < 8
        invariant
            i <= 8,
            sv == segments@,
            dst@ == old(dst)@ + done,
            wire::encode_segments(sv) == done + wire::encode_segments(sv.skip(i as int)),
        decreases 8 - i,
    {
        cursor::write_u16_be(dst, segments[i]);
        proof {
            assert(sv.skip(i as int)[0] == sv[i as int]);
            assert(sv.skip(i as int).drop_first() =~= sv.skip(i as int + 1));
            done = done + wire::encode_u16(sv[i as int]);
            assert(dst@ =~= old(dst)@ + done);
            assert(wire::encode_segments(sv) =~= done + wire::encode_segments(
                sv.skip(i as int + 1),
            ));
        }
        i += 1;
    }
    proof {
        assert(sv.skip(8) =~= Seq::<u16>::empty());
        assert(dst@ =~= old(dst)@ + wire::encode_segments(sv));
    }
}

/// Appends mail-exchange data: the preference, then the exchange name.
pub fn mx(dst: &mut Vec<u8>, preference: i16, domain: &[u8]) -> (r: Result<(), FormatError>)
    ensures
        match r {
            Ok(_) => wire::fmt_name_err(domain@) is None && final(dst)@ == old(dst)@
                + (wire::encode_i16(preference) + wire::encode_name(domain@)),
            Err(e) => wire::fmt_name_err(domain@) == Some(e),
        },
{
    cursor::write_i16_be(dst, preference);
    match domain_name(dst, domain) {
        Ok(_) => {
            proof {
                assert(dst@ =~= old(dst)@ + (wire::encode_i16(preference) + wire::encode_name(
                    domain@,
                )));
            }
            Ok(())
        },
        Err(e) => Err(e),
    }
}

/// Appends domain-name-pointer data: just the name.
pub fn ptr(dst: &mut Vec<u8>, domain: &[u8]) -> (r: Result<(), FormatError>)
    ensures
        match r {
            Ok(_) => wire::fmt_name_err(domain@) is None && final(dst)@ == old(dst)@
                + wire::encode_name(domain@),
            Err(e) => wire::fmt_name_err(domain@) == Some(e),
        },
{
    domain_name(dst, domain)
}

/// Appends responsible-person data: the mailbox name, then the text domain
/// name.
pub fn rp(dst: &mut Vec<u8>, mbox: &[u8], txt_domain: &[u8]) -> (r: Result<(), FormatError>)
    ensures
        match r {
            Ok(_) => wire::fmt_name_err(mbox@) is None && wire::fmt_name_err(txt_domain@) is None
                && final(dst)@ == old(dst)@ + (wire::encode_name(mbox@) + wire::encode_name(
                txt_domain@,
            )),
            Err(e) => match wire::fmt_name_err(mbox@) {
                Some(e2) => e == e2,
                None => wire::fmt_name_err(txt_domain@) == Some(e),
            },
        },
{
    match domain_name(dst, mbox) {
        Ok(_) => {},
        Err(e) => {
            return Err(e);
        },
    }
    match domain_name(dst, txt_domain) {
        Ok(_) => {
            proof {
                assert(dst@ =~= old(dst)@ + (wire::encode_name(mbox@) + wire::encode_name(
                    txt_domain@,
                )));
            }
            Ok(())
        },
        Err(e) => Err(e),
    }
}

/// Appends text data: each character-string in order.
pub fn txt(dst: &mut Vec<u8>, text: &Vec<Vec<u8>>) -> (r: Result<(), FormatError>)
    ensures
        match r {
            Ok(_) => wire::fmt_txt_err(text@.map_values(|s: Vec<u8>| s@)) is None && final(dst)@
                == old(dst)@ + wire::encode_txt(text@.map_values(|s: Vec<u8>| s@)),
            Err(e) => wire::fmt_txt_err(text@.map_values(|s: Vec<u8>| s@)) == Some(e),
        },
{
    let ghost tv = text@.map_values(|s: Vec<u8>| s@);
    let ghost mut done: Seq<u8> = Seq::empty();
    proof {
        assert(tv.skip(0) =~= tv);
        assert(dst@ =~= old(dst)@ + done);
        assert(done + wire::encode_txt(tv) =~= wire::encode_txt(tv));
    }
    let mut i: usize = 0;
    while i < text.len()
        invariant
            i <= text@.len(),
            tv == text@.map_values(|s: Vec<u8>| s@),
            dst@ == old(dst)@ + done,
            wire::encode_txt(tv) == done + wire::encode_txt(tv.skip(i as int)),
            wire::fmt_txt_err(tv) == wire::fmt_txt_err(tv.skip(i as int)),
        decreases text@.len() - i,
    {
        proof {
            assert(tv.skip(i as int)[0] == text@[i as int]@);
            assert(tv.skip(i as int).drop_first() =~= tv.skip(i as int + 1));
        }
        match character_string(dst, text[i].as_slice()) {
            Ok(_) => {},
            Err(e) => {
                return Err(e);
            },
        }
        proof {
            done = done + wire::encode_char_string(tv[i as int]);
            assert(dst@ =~= old(dst)@ + done);
            assert(wire::encode_txt(tv) =~= done + wire::encode_txt(tv.skip(i as int + 1)));
        }
        i += 1;
    }
    proof {
        assert(tv.skip(text@.len() as int) =~= Seq::<Seq<u8>>::empty());
        assert(dst@ =~= old(dst)@ + wire::encode_txt(tv));
    }
    Ok(())
}

/// Appends a record's data, by variant.
pub fn data(dst: &mut Vec<u8>, d: &Data) -> (r: Result<(), FormatError>)
    ensures
        match r {
            Ok(_) => wire::fmt_data_err(d@) is None && final(dst)@ == old(dst)@ + wire::encode_data(
                d@,
            ),
            Err(e) => wire::fmt_data_err(d@) == Some(e),
        },
{
    match d {
        Data::A(octets) => {
            a(dst, octets);
            Ok(())
        },
        Data::Aaaa(segments) => {
            aaaa(dst, segments);
            Ok(())
        },
        Data::Mx(preference, domain) => mx(dst, *preference, domain.as_slice()),
        Data::Ptr(domain) => ptr(dst, domain.as_slice()),
        Data::Rp(mbox, txt_domain) => rp(dst, mbox.as_slice(), txt_domain.as_slice()),
        Data::Txt(text) => txt(dst, text),
    }
}

/// Appends a question: its name, type code, class code.
pub fn question(dst: &mut Vec<u8>, q: &Question) -> (r: Result<(), FormatError>)
    ensures
        match r {
            Ok(_) => wire::fmt_question_err(q@) is None && final(dst)@ == old(dst)@
                + wire::encode_question(q@),
            Err(e) => wire::fmt_question_err(q@) == Some(e),
        },
{
    match domain_name(dst, q.name.as_slice()) {
        Ok(_) => {},
        Err(e) => {
            return Err(e);
        },
    }
    cursor::write_u16_be(dst, q.ty.code());
    cursor::write_u16_be(dst, q.class.code());
    proof {
        assert(dst@ =~= old(dst)@ + wire::encode_question(q@));
    }
    Ok(())
}

/// Appends a record: its name, the data's implied type code, class code,
/// time to live, declared data length, then the data bytes.
pub fn record(dst: &mut Vec<u8>, r: &Record) -> (res: Result<(), FormatError>)
    requires
        wire::data_len(r@.data) <= usize::MAX as int,
    ensures
        match res {
            Ok(_) => wire::fmt_record_err(r@) is None && final(dst)@ == old(dst)@
                + wire::encode_record(r@),
            Err(e) => wire::fmt_record_err(r@) == Some(e),
        },
{
    match domain_name(dst, r.name.as_slice()) {
        Ok(_) => {},
        Err(e) => {
            return Err(e);
        },
    }
    cursor::write_u16_be(dst, r.data.to_type().code());
    cursor::write_u16_be(dst, r.class.code());
    cursor::write_i32_be(dst, r.time_to_live);
    let dlen = len::data(&r.data);
    cursor::write_u16_be(dst, #[verifier::truncate] (dlen as u16));
    match data(dst, &r.data) {
        Ok(_) => {
            proof {
                assert(dst@ =~= old(dst)@ + wire::encode_record(r@));
            }
            Ok(())
        },
        Err(e) => Err(e),
    }
}

/// Appends a question section in order, stopping at the first error.
fn questions(dst: &mut Vec<u8>, qs: &Vec<Question>) -> (r: Result<(), FormatError>)
    ensures
        match r {
            Ok(_) => wire::fmt_questions_err(qs@.map_values(|q: Question| q@)) is None
                && final(dst)@ == old(dst)@ + wire::encode_questions(
                qs@.map_values(|q: Question| q@),
            ),
            Err(e) => wire::fmt_questions_err(qs@.map_values(|q: Question| q@)) == Some(e),
        },
{
    let ghost qv = qs@.map_values(|q: Question| q@);
    let ghost mut done: Seq<u8> = Seq::empty();
    proof {
        assert(qv.skip(0) =~= qv);
        assert(dst@ =~= old(dst)@ + done);
        assert(done + wire::encode_questions(qv) =~= wire::encode_questions(qv));
    }
    let mut i: usize = 0;
    while i < qs.len()
        invariant
            i <= qs@.len(),
            qv == qs@.map_values(|q: Question| q@),
            dst@ == old(dst)@ + done,
            wire::encode_questions(qv) == done + wire::encode_questions(qv.skip(i as int)),
            wire::fmt_questions_err(qv) == wire::fmt_questions_err(qv.skip(i as int)),
        decreases qs@.len() - i,
    {
        proof {
            assert(qv.skip(i as int)[0] == qs@[i as int]@);
            assert(qv.skip(i as int).drop_first() =~= qv.skip(i as int + 1));
        }
        match question(dst, &qs[i]) {
            Ok(_) => {},
            Err(e) => {
                return Err(e);
            },
        }
        proof {
            done = done + wire::encode_question(qv[i as int]);
            assert(dst@ =~= old(dst)@ + done);
            assert(wire::encode_questions(qv) =~= done + wire::encode_questions(
                qv.skip(i as int + 1),
            ));
        }
        i += 1;
    }
    proof {
        assert(qv.skip(qs@.len() as int) =~= Seq::<crate::QuestionV>::empty());
        assert(dst@ =~= old(dst)@ + wire::encode_questions(qv));
    }
    Ok(())
}

/// Appends a record section in order, stopping at the first error.
fn records(dst: &mut Vec<u8>, rs: &Vec<Record>) -> (r: Result<(), FormatError>)
    requires
        wire::encode_records(rs@.map_values(|x: Record| x@)).len() <= usize::MAX as int,
    ensures
        match r {
            Ok(_) => wire::fmt_records_err(rs@.map_values(|x: Record| x@)) is None && final(dst)@
                == old(dst)@ + wire::encode_records(rs@.map_values(|x: Record| x@)),
            Err(e) => wire::fmt_records_err(rs@.map_values(|x: Record| x@)) == Some(e),
        },
{
    let ghost rv = rs@.map_values(|x: Record| x@);
    let ghost mut done: Seq<u8> = Seq::empty();
    proof {
        assert(rv.skip(0) =~= rv);
        assert(dst@ =~= old(dst)@ + done);
        assert(done + wire::encode_records(rv) =~= wire::encode_records(rv));
    }
    let mut i: usize = 0;
    while i < rs.len()
        invariant
            i <= rs@.len(),
            rv == rs@.map_values(|x: Record| x@),
            dst@ == old(dst)@ + done,
            wire::encode_records(rv).len() <= usize::MAX as int,
            wire::encode_records(rv) == done + wire::encode_records(rv.skip(i as int)),
            wire::fmt_records_err(rv) == wire::fmt_records_err(rv.skip(i as int)),
        decreases rs@.len() - i,
    {
        proof {
            assert(rv.skip(i as int)[0] == rs@[i as int]@);
            assert(rv.skip(i as int).drop_first() =~= rv.skip(i as int + 1));
        }
        match record(dst, &rs[i]) {
            Ok(_) => {},
            Err(e) => {
                return Err(e);
            },
        }
        proof {
            done = done + wire::encode_record(rv[i as int]);
            assert(dst@ =~= old(dst)@ + done);
            assert(wire::encode_records(rv) =~= done + wire::encode_records(
                rv.skip(i as int + 1),
            ));
        }
        i += 1;
    }
    proof {
        assert(rv.skip(rs@.len() as int) =~= Seq::<crate::RecordV>::empty());
        assert(dst@ =~= old(dst)@ + wire::encode_records(rv));
    }
    Ok(())
}

/// Appends a whole packet: the 12-byte header, then the four sections in
/// order. The section counts are the live sequence lengths.
pub fn packet(dst: &mut Vec<u8>, p: &Packet) -> (r: Result<(), FormatError>)
    requires
        wire::packet_len(p@) <= usize::MAX as int,
    ensures
        match r {
            Ok(_) => wire::fmt_packet_err(p@) is None && final(dst)@ == old(dst)@
                + wire::encode_packet(p@),
            Err(e) => wire::fmt_packet_err(p@) == Some(e),
        },
{
    let ghost pv = p@;
    proof {
        assert(pv.question =~= p.question@.map_values(|q: Question| q@));
        assert(pv.answer =~= p.answer@.map_values(|x: Record| x@));
        assert(pv.authority =~= p.authority@.map_values(|x: Record| x@));
        assert(wire::packet_len(pv) == 12 + wire::encode_questions(pv.question).len()
            + wire::encode_records(pv.answer).len() + wire::encode_records(pv.authority).len()
            + wire::encode_records(pv.additional).len());
        assert(pv.additional =~= p.additional@.map_values(|x: Record| x@));
    }
    cursor::write_i16_be(dst, p.id);
    let f1: u8 = (if p.is_query { 0u8 } else { 128u8 }) + p.kind.code() * 8 + (
    if p.is_authoritative { 4u8 } else { 0u8 }) + (if p.truncated { 2u8 } else { 0u8 }) + (
    if p.recursion_desired { 1u8 } else { 0u8 });
    let f2: u8 = (if p.recursion_available { 128u8 } else { 0u8 }) + p.response_code.code();
    cursor::write_u8(dst, f1);
    cursor::write_u8(dst, f2);
    cursor::write_u16_be(dst, #[verifier::truncate] (p.question.len() as u16));
    cursor::write_u16_be(dst, #[verifier::truncate] (p.answer.len() as u16));
    cursor::write_u16_be(dst, #[verifier::truncate] (p.authority.len() as u16));
    cursor::write_u16_be(dst, #[verifier::truncate] (p.additional.len() as u16));
    proof {
        assert(f1 == wire::flags1_byte(pv));
        assert(f2 == wire::flags2_byte(pv));
        assert(dst@ =~= old(dst)@ + wire::encode_header(pv));
    }
    match questions(dst, &p.question) {
        Ok(_) => {},
        Err(e) => {
            return Err(e);
        },
    }
    proof {
        assert(dst@ =~= old(dst)@ + (wire::encode_header(pv) + wire::encode_questions(
            pv.question,
        )));
    }
    match records(dst, &p.answer) {
        Ok(_) => {},
        Err(e) => {
            return Err(e);
        },
    }
    match records(dst, &p.authority) {
        Ok(_) => {},
        Err(e) => {
            return Err(e);
        },
    }
    match records(dst, &p.additional) {
        Ok(_) => {},
        Err(e) => {
            return Err(e);
        },
    }
    proof {
        assert(dst@ =~= old(dst)@ + wire::encode_packet(pv));
    }
    Ok(())
}

} // verus!
