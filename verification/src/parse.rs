//! Wire parser.
//!
//! The whole behaviour of the parser is pinned by the specification
//! functions here (`spec_packet` and its parts): each executable function
//! returns exactly what its specification function says, success and
//! failure alike. Parsing runs over an immutable byte slice with a forward
//! position; domain names may jump backwards through compression pointers,
//! bounded by a hop budget so that pointer cycles fail instead of looping.

use vstd::prelude::*;
use crate::{Class, Data, DataV, Packet, PacketV, Question, QuestionV, QueryKind, Record, RecordV,
    ResponseCode, Type};
use crate::cursor;
use crate::wire;

verus! {

/// The most compression-pointer hops one domain name may follow. Any chain
/// longer than this, and so any pointer cycle, fails the decode.
pub const MAX_HOPS: u8 = 64;

/// Whether `b` is a UTF-8 continuation byte.
pub open spec fn utf8_cont(b: u8) -> bool {
    128 <= b <= 191
}

/// Whether `s` is well-formed UTF-8: ASCII bytes stand alone, longer
/// sequences have the lead byte and continuation ranges of RFC 3629, with
/// overlong forms, surrogates and values past 0x10FFFF excluded.
pub open spec fn utf8_ok(s: Seq<u8>) -> bool
    decreases s.len(),
{
    if s.len() == 0 {
        true
    } else {
        let b0 = s[0];
        if b0 <= 0x7F {
            utf8_ok(s.skip(1))
        } else if 0xC2 <= b0 <= 0xDF {
            s.len() >= 2 && utf8_cont(s[1]) && utf8_ok(s.skip(2))
        } else if b0 == 0xE0 {
            s.len() >= 3 && 0xA0 <= s[1] <= 0xBF && utf8_cont(s[2]) && utf8_ok(s.skip(3))
        } else if b0 == 0xED {
            s.len() >= 3 && 0x80 <= s[1] <= 0x9F && utf8_cont(s[2]) && utf8_ok(s.skip(3))
        } else if 0xE1 <= b0 <= 0xEF {
            s.len() >= 3 && utf8_cont(s[1]) && utf8_cont(s[2]) && utf8_ok(s.skip(3))
        } else if b0 == 0xF0 {
            s.len() >= 4 && 0x90 <= s[1] <= 0xBF && utf8_cont(s[2]) && utf8_cont(s[3]) && utf8_ok(
                s.skip(4),
            )
        } else if 0xF1 <= b0 <= 0xF3 {
            s.len() >= 4 && utf8_cont(s[1]) && utf8_cont(s[2]) && utf8_cont(s[3]) && utf8_ok(
                s.skip(4),
            )
        } else if b0 == 0xF4 {
            s.len() >= 4 && 0x80 <= s[1] <= 0x8F && utf8_cont(s[2]) && utf8_cont(s[3]) && utf8_ok(
                s.skip(4),
            )
        } else {
            false
        }
    }
}

/// Checks that a byte slice is well-formed UTF-8.
pub fn is_utf8(s: &[u8]) -> (r: bool)
    ensures
        r == utf8_ok(s@),
{
    let n = s.len();
    let mut i: usize = 0;
    proof {
        assert(s@.skip(0) =~= s@);
    }
    while i < n
        invariant
            i <= n,
            n == s@.len(),
            utf8_ok(s@) == utf8_ok(s@.skip(i as int)),
        decreases n - i,
    {
        let ghost rem = s@.skip(i as int);
        proof {
            assert(rem[0] == s@[i as int]);
        }
        let b0 = s[i];
        let width: usize = if b0 <= 0x7F {
            1
        } else if 0xC2 <= b0 && b0 <= 0xDF {
            2
        } else if 0xE0 <= b0 && b0 <= 0xEF {
            3
        } else if 0xF0 <= b0 && b0 <= 0xF4 {
            4
        } else {
            return false;
        };
        if n - i < width {
            return false;
        }
        proof {
            if width >= 2 {
                assert(rem[1] == s@[i as int + 1]);
            }
            if width >= 3 {
                assert(rem[2] == s@[i as int + 2]);
            }
            if width >= 4 {
                assert(rem[3] == s@[i as int + 3]);
            }
        }
        if width >= 2 {
            let b1 = s[i + 1];
            let ok1 = if b0 == 0xE0 {
                0xA0 <= b1 && b1 <= 0xBF
            } else if b0 == 0xED {
                0x80 <= b1 && b1 <= 0x9F
            } else if b0 == 0xF0 {
                0x90 <= b1 && b1 <= 0xBF
            } else if b0 == 0xF4 {
                0x80 <= b1 && b1 <= 0x8F
            } else {
                128 <= b1 && b1 <= 191
            };
            if !ok1 {
                return false;
            }
        }
        if width >= 3 {
            let b2 = s[i + 2];
            if !(128 <= b2 && b2 <= 191) {
                return false;
            }
        }
        if width >= 4 {
            let b3 = s[i + 3];
            if !(128 <= b3 && b3 <= 191) {
                return false;
            }
        }
        proof {
            assert(rem.skip(width as int) =~= s@.skip(i + width as int));
        }
        i += width;
    }
    proof {
        assert(s@.skip(n as int) =~= Seq::<u8>::empty());
    }
    true
}

/// What decoding a domain name at `pos` yields: the position after the
/// name and the labels joined by dots, with pointer targets spliced in.
/// `None` on a truncated name, a length byte with exactly one of its top
/// two bits set, a label that is not UTF-8, a pointer past the end of the
/// message, or a pointer chain longer than `hops`.
pub open spec fn spec_name(msg: Seq<u8>, pos: int, hops: int) -> Option<(int, Seq<u8>)>
    decreases hops, msg.len() - pos,
{
    if pos < 0 || pos >= msg.len() {
        None
    } else {
        let b = msg[pos];
        if b == 0 {
            Some((pos + 1, Seq::empty()))
        } else if b >= 192 {
            if hops <= 0 {
                None
            } else if pos + 1 >= msg.len() {
                None
            } else {
                let offset = (b - 192) * 256 + msg[pos + 1];
                if offset > msg.len() {
                    None
                } else {
                    match spec_name(msg, offset, hops - 1) {
                        None => None,
                        Some((_, tail)) => Some((pos + 2, tail)),
                    }
                }
            }
        } else if b >= 64 {
            None
        } else if pos + 1 + b > msg.len() {
            None
        } else {
            let lab = msg.subrange(pos + 1, pos + 1 + b);
            if !utf8_ok(lab) {
                None
            } else {
                match spec_name(msg, pos + 1 + b, hops) {
                    None => None,
                    Some((end, rest)) => Some(
                        (
                            end,
                            if msg[pos + 1 + b] == 0 {
                                lab
                            } else {
                                lab + seq![wire::DOT] + rest
                            },
                        ),
                    ),
                }
            }
        }
    }
}

/// Decodes a domain name. Returns the position after the name and the
/// name's bytes, labels joined by dots.
pub fn domain_name(msg: &[u8], pos: usize, hops: u8) -> (r: Result<(usize, Vec<u8>), ()>)
    ensures
        match r {
            Ok((end, name)) => spec_name(msg@, pos as int, hops as int) == Some(
                (end as int, name@),
            ) && pos < end <= msg@.len(),
            Err(_) => spec_name(msg@, pos as int, hops as int) is None,
        },
    decreases hops, msg@.len() - pos,
{
    if pos >= msg.len() {
        return Err(());
    }
    let b = msg[pos];
    if b == 0 {
        let name: Vec<u8> = Vec::new();
        proof {
            assert(name@ =~= Seq::<u8>::empty());
        }
        return Ok((pos + 1, name));
    }
    if b >= 192 {
        if hops == 0 {
            return Err(());
        }
        if pos + 1 >= msg.len() {
            return Err(());
        }
        let offset = (b as usize - 192) * 256 + msg[pos + 1] as usize;
        if offset > msg.len() {
            return Err(());
        }
        match domain_name(msg, offset, hops - 1) {
            Ok((_, tail)) => Ok((pos + 2, tail)),
            Err(e) => Err(e),
        }
    } else if b >= 64 {
        Err(())
    } else {
        let blen = b as usize;
        if blen > msg.len() - pos - 1 {
            return Err(());
        }
        let mut lab: Vec<u8> = Vec::new();
        let mut k: usize = 0;
        proof {
            assert(lab@ =~= msg@.subrange(pos + 1, pos + 1));
        }
        while k < blen
            invariant
                k <= blen,
                pos + 1 + blen <= msg@.len(),
                msg@.len() <= usize::MAX as int,
                lab@ == msg@.subrange(pos + 1, pos + 1 + k),
            decreases blen - k,
        {
            lab.push(msg[pos + 1 + k]);
            proof {
                assert(lab@ =~= msg@.subrange(pos + 1, pos + 1 + (k + 1)));
            }
            k += 1;
        }
        if !is_utf8(lab.as_slice()) {
            return Err(());
        }
        let next = pos + 1 + blen;
        match domain_name(msg, next, hops) {
            Err(e) => Err(e),
            Ok((end, rest)) => {
                if msg[next] == 0 {
                    Ok((end, lab))
                } else {
                    let ghost lab0 = lab@;
                    lab.push(wire::DOT);
                    let mut tail = rest;
                    lab.append(&mut tail);
                    proof {
                        assert(lab@ =~= lab0 + seq![wire::DOT] + rest@);
                    }
                    Ok((end, lab))
                }
            },
        }
    }
}

/// What decoding one character-string at `pos` yields: the position after
/// it and its bytes. `None` when its length byte overruns the message or
/// the bytes are not UTF-8.
pub open spec fn spec_char_string(msg: Seq<u8>, pos: int) -> Option<(int, Seq<u8>)> {
    if pos < 0 || pos >= msg.len() {
        None
    } else {
        let l = msg[pos];
        if pos + 1 + l > msg.len() {
            None
        } else {
            let cs = msg.subrange(pos + 1, pos + 1 + l);
            if !utf8_ok(cs) {
                None
            } else {
                Some((pos + 1 + l, cs))
            }
        }
    }
}

/// Decodes one character-string.
pub fn character_string(msg: &[u8], pos: usize) -> (r: Result<(usize, Vec<u8>), ()>)
    ensures
        match r {
            Ok((end, cs)) => spec_char_string(msg@, pos as int) == Some((end as int, cs@)) && pos
                < end <= msg@.len(),
            Err(_) => spec_char_string(msg@, pos as int) is None,
        },
{
    if pos >= msg.len() {
        return Err(());
    }
    let l = msg[pos] as usize;
    if l > msg.len() - pos - 1 {
        return Err(());
    }
    let mut cs: Vec<u8> = Vec::new();
    let mut k: usize = 0;
    proof {
        assert(cs@ =~= msg@.subrange(pos + 1, pos + 1));
    }
    while k < l
        invariant
            k <= l,
            pos + 1 + l <= msg@.len(),
            msg@.len() <= usize::MAX as int,
            cs@ == msg@.subrange(pos + 1, pos + 1 + k),
        decreases l - k,
    {
        cs.push(msg[pos + 1 + k]);
        proof {
            assert(cs@ =~= msg@.subrange(pos + 1, pos + 1 + (k + 1)));
        }
        k += 1;
    }
    if !is_utf8(cs.as_slice()) {
        return Err(());
    }
    Ok((pos + 1 + l, cs))
}

/// What decoding a text record's character-strings yields: strings are
/// consumed until their cumulative encoded length, each string's own
/// length byte included, reaches `remaining`.
pub open spec fn spec_txt(msg: Seq<u8>, pos: int, remaining: int) -> Option<(int, Seq<Seq<u8>>)>
    decreases remaining,
{
    if remaining <= 0 {
        Some((pos, Seq::empty()))
    } else {
        match spec_char_string(msg, pos) {
            None => None,
            Some((p2, cs)) => {
                let next = remaining - (p2 - pos);
                match spec_txt(msg, p2, if next < 0 { 0 } else { next }) {
                    None => None,
                    Some((end, rest)) => Some((end, seq![cs] + rest)),
                }
            },
        }
    }
}

/// Decodes text data: character-strings until `total_len` bytes of them,
/// length bytes included, have been consumed.
pub fn txt(msg: &[u8], pos: usize, total_len: usize) -> (r: Result<(usize, Vec<Vec<u8>>), ()>)
    requires
        pos <= msg@.len(),
    ensures
        match r {
            Ok((end, list)) => spec_txt(msg@, pos as int, total_len as int) == Some(
                (end as int, list@.map_values(|v: Vec<u8>| v@)),
            ) && pos <= end <= msg@.len(),
            Err(_) => spec_txt(msg@, pos as int, total_len as int) is None,
        },
{
    let mut list: Vec<Vec<u8>> = Vec::new();
    let mut cur: usize = pos;
    while cur - pos < total_len
        invariant
            pos <= cur <= msg@.len(),
            spec_txt(msg@, pos as int, total_len as int) == match spec_txt(
                msg@,
                cur as int,
                total_len as int - (cur - pos),
            ) {
                None => None::<(int, Seq<Seq<u8>>)>,
                Some((end, rest)) => Some((end, list@.map_values(|v: Vec<u8>| v@) + rest)),
            },
        decreases (if total_len as int - (cur - pos) < 0 {
            0int
        } else {
            total_len as int - (cur - pos)
        }),
    {
        let ghost lv = list@.map_values(|v: Vec<u8>| v@);
        let ghost rem = total_len as int - (cur - pos);
        match character_string(msg, cur) {
            Err(_) => {
                return Err(());
            },
            Ok((p2, cs)) => {
                proof {
                    let rem2 = rem - (p2 - cur);
                    if rem2 < 0 {
                        assert(spec_txt(msg@, p2 as int, rem2) == spec_txt(msg@, p2 as int, 0));
                    }
                    assert((list@.push(cs)).map_values(|v: Vec<u8>| v@) =~= lv.push(cs@));
                    assert forall|rest: Seq<Seq<u8>>|
                        true implies lv + (seq![cs@] + rest) =~= lv.push(cs@) + rest by {}
                }
                list.push(cs);
                cur = p2;
            },
        }
    }
    proof {
        assert(spec_txt(msg@, cur as int, total_len as int - (cur - pos)) == Some(
            (cur as int, Seq::<Seq<u8>>::empty()),
        ));
        assert(list@.map_values(|v: Vec<u8>| v@) + Seq::<Seq<u8>>::empty() =~= list@.map_values(
            |v: Vec<u8>| v@,
        ));
    }
    Ok((cur, list))
}

/// What decoding IPv4 address data yields: four raw octets.
pub open spec fn spec_a(msg: Seq<u8>, pos: int) -> Option<(int, DataV)> {
    if pos < 0 || pos + 4 > msg.len() {
        None
    } else {
        Some((pos + 4, DataV::A(msg.subrange(pos, pos + 4))))
    }
}

/// Decodes IPv4 address data.
pub fn a(msg: &[u8], pos: usize) -> (r: Result<(usize, Data), ()>)
    ensures
        match r {
            Ok((end, d)) => spec_a(msg@, pos as int) == Some((end as int, d@)) && pos < end
                <= msg@.len(),
            Err(_) => spec_a(msg@, pos as int) is None,
        },
{
    if msg.len() < 4 || pos > msg.len() - 4 {
        return Err(());
    }
    let octets: [u8; 4] = [msg[pos], msg[pos + 1], msg[pos + 2], msg[pos + 3]];
    proof {
        assert(octets@ =~= msg@.subrange(pos as int, pos + 4));
    }
    Ok((pos + 4, Data::A(octets)))
}

/// What decoding IPv6 address data yields: eight big-endian 16-bit
/// segments.
pub open spec fn spec_aaaa(msg: Seq<u8>, pos: int) -> Option<(int, DataV)> {
    if pos < 0 || pos + 16 > msg.len() {
        None
    } else {
        Some(
            (
                pos + 16,
                DataV::Aaaa(
                    seq![
                        wire::be_u16(msg[pos], msg[pos + 1]),
                        wire::be_u16(msg[pos + 2], msg[pos + 3]),
                        wire::be_u16(msg[pos + 4], msg[pos + 5]),
                        wire::be_u16(msg[pos + 6], msg[pos + 7]),
                        wire::be_u16(msg[pos + 8], msg[pos + 9]),
                        wire::be_u16(msg[pos + 10], msg[pos + 11]),
                        wire::be_u16(msg[pos + 12], msg[pos + 13]),
                        wire::be_u16(msg[pos + 14], msg[pos + 15]),
                    ],
                ),
            ),
        )
    }
}

/// Decodes IPv6 address data.
pub fn aaaa(msg: &[u8], pos: usize) -> (r: Result<(usize, Data), ()>)
    ensures
        match r {
            Ok((end, d)) => spec_aaaa(msg@, pos as int) == Some((end as int, d@)) && pos < end
                <= msg@.len(),
            Err(_) => spec_aaaa(msg@, pos as int) is None,
        },
{
    if msg.len() < 16 || pos > msg.len() - 16 {
        return Err(());
    }
    let segments: [u16; 8] = [
        msg[pos] as u16 * 256 + msg[pos + 1] as u16,
        msg[pos + 2] as u16 * 256 + msg[pos + 3] as u16,
        msg[pos + 4] as u16 * 256 + msg[pos + 5] as u16,
        msg[pos + 6] as u16 * 256 + msg[pos + 7] as u16,
        msg[pos + 8] as u16 * 256 + msg[pos + 9] as u16,
        msg[pos + 10] as u16 * 256 + msg[pos + 11] as u16,
        msg[pos + 12] as u16 * 256 + msg[pos + 13] as u16,
        msg[pos + 14] as u16 * 256 + msg[pos + 15] as u16,
    ];
    let d = Data::Aaaa(segments);
    proof {
        assert(spec_aaaa(msg@, pos as int) == Some(((pos + 16) as int, d@)));
    }
    Ok((pos + 16, d))
}

/// What decoding mail-exchange data yields: the signed preference, then
/// the exchange name.
pub open spec fn spec_mx(msg: Seq<u8>, pos: int) -> Option<(int, DataV)> {
    if pos < 0 || pos + 2 > msg.len() {
        None
    } else {
        match spec_name(msg, pos + 2, MAX_HOPS as int) {
            None => None,
            Some((end, nm)) => Some(
                (end, DataV::Mx(wire::be_u16(msg[pos], msg[pos + 1]) as i16, nm)),
            ),
        }
    }
}

/// Decodes mail-exchange data.
pub fn mx(msg: &[u8], pos: usize) -> (r: Result<(usize, Data), ()>)
    ensures
        match r {
            Ok((end, d)) => spec_mx(msg@, pos as int) == Some((end as int, d@)) && pos < end
                <= msg@.len(),
            Err(_) => spec_mx(msg@, pos as int) is None,
        },
{
    if msg.len() < 2 || pos > msg.len() - 2 {
        return Err(());
    }
    let preference = match cursor::read_i16_be(msg, pos) {
        Some(v) => v,
        None => {
            return Err(());
        },
    };
    match domain_name(msg, pos + 2, MAX_HOPS) {
        Err(e) => Err(e),
        Ok((end, nm)) => Ok((end, Data::Mx(preference, nm))),
    }
}

/// What decoding domain-name-pointer data yields: just the name.
pub open spec fn spec_ptr(msg: Seq<u8>, pos: int) -> Option<(int, DataV)> {
    match spec_name(msg, pos, MAX_HOPS as int) {
        None => None,
        Some((end, nm)) => Some((end, DataV::Ptr(nm))),
    }
}

/// Decodes domain-name-pointer data.
pub fn ptr(msg: &[u8], pos: usize) -> (r: Result<(usize, Data), ()>)
    ensures
        match r {
            Ok((end, d)) => spec_ptr(msg@, pos as int) == Some((end as int, d@)) && pos < end
                <= msg@.len(),
            Err(_) => spec_ptr(msg@, pos as int) is None,
        },
{
    match domain_name(msg, pos, MAX_HOPS) {
        Err(e) => Err(e),
        Ok((end, nm)) => Ok((end, Data::Ptr(nm))),
    }
}

/// What decoding responsible-person data yields: the mailbox name, then
/// the text domain name.
pub open spec fn spec_rp(msg: Seq<u8>, pos: int) -> Option<(int, DataV)> {
    match spec_name(msg, pos, MAX_HOPS as int) {
        None => None,
        Some((p1, mbox)) => match spec_name(msg, p1, MAX_HOPS as int) {
            None => None,
            Some((end, txt_domain)) => Some((end, DataV::Rp(mbox, txt_domain))),
        },
    }
}

/// Decodes responsible-person data.
pub fn rp(msg: &[u8], pos: usize) -> (r: Result<(usize, Data), ()>)
    ensures
        match r {
            Ok((end, d)) => spec_rp(msg@, pos as int) == Some((end as int, d@)) && pos < end
                <= msg@.len(),
            Err(_) => spec_rp(msg@, pos as int) is None,
        },
{
    match domain_name(msg, pos, MAX_HOPS) {
        Err(e) => Err(e),
        Ok((p1, mbox)) => match domain_name(msg, p1, MAX_HOPS) {
            Err(e) => Err(e),
            Ok((end, txt_domain)) => Ok((end, Data::Rp(mbox, txt_domain))),
        },
    }
}

/// What decoding typed record data yields, by recognized type. The
/// declared data length drives text records only; `All` never carries
/// data.
pub open spec fn spec_rdata(msg: Seq<u8>, pos: int, ty: Type, rdlen: int) -> Option<(int, DataV)> {
    match ty {
        Type::A => spec_a(msg, pos),
        Type::Aaaa => spec_aaaa(msg, pos),
        Type::Mx => spec_mx(msg, pos),
        Type::Ptr => spec_ptr(msg, pos),
        Type::Rp => spec_rp(msg, pos),
        Type::Txt => match spec_txt(msg, pos, rdlen) {
            None => None,
            Some((end, ss)) => Some((end, DataV::Txt(ss))),
        },
        Type::All => None,
    }
}

/// Maps a wire code to a query kind.
pub fn kind(k: u16) -> (r: Result<QueryKind, ()>)
    ensures
        match r {
            Ok(q) => wire::code_kind(k) == Some(q),
            Err(_) => wire::code_kind(k) is None,
        },
{
    match k {
        0 => Ok(QueryKind::Standard),
        1 => Ok(QueryKind::Inverse),
        2 => Ok(QueryKind::Status),
        _ => Err(()),
    }
}

/// Maps a wire code to a response code.
pub fn response_code(code: u16) -> (r: Result<ResponseCode, ()>)
    ensures
        match r {
            Ok(rc) => wire::code_rcode(code) == Some(rc),
            Err(_) => wire::code_rcode(code) is None,
        },
{
    match code {
        0 => Ok(ResponseCode::NoError),
        1 => Ok(ResponseCode::FormatError),
        2 => Ok(ResponseCode::ServerFailure),
        3 => Ok(ResponseCode::NameError),
        4 => Ok(ResponseCode::NotImplemented),
        5 => Ok(ResponseCode::Refused),
        _ => Err(()),
    }
}

/// Maps a wire code to a record type.
pub fn ty(code: u16) -> (r: Result<Type, ()>)
    ensures
        match r {
            Ok(t) => wire::code_type(code) == Some(t),
            Err(_) => wire::code_type(code) is None,
        },
{
    match code {
        1 => Ok(Type::A),
        28 => Ok(Type::Aaaa),
        15 => Ok(Type::Mx),
        12 => Ok(Type::Ptr),
        17 => Ok(Type::Rp),
        16 => Ok(Type::Txt),
        255 => Ok(Type::All),
        _ => Err(()),
    }
}

/// Maps a wire code to a class.
pub fn class(code: u16) -> (r: Result<Class, ()>)
    ensures
        match r {
            Ok(c) => wire::code_class(code) == Some(c),
            Err(_) => wire::code_class(code) is None,
        },
{
    match code {
        1 => Ok(Class::In),
        255 => Ok(Class::All),
        _ => Err(()),
    }
}

/// What decoding a question yields: its name, type and class. Any failure
/// here, an unrecognized type or class included, is strict and aborts the
/// whole message parse.
pub open spec fn spec_question(msg: Seq<u8>, pos: int) -> Option<(int, QuestionV)> {
    match spec_name(msg, pos, MAX_HOPS as int) {
        None => None,
        Some((p1, name)) => {
            if p1 + 4 > msg.len() {
                None
            } else {
                match (
                    wire::code_type(wire::be_u16(msg[p1], msg[p1 + 1])),
                    wire::code_class(wire::be_u16(msg[p1 + 2], msg[p1 + 3])),
                ) {
                    (Some(t), Some(c)) => Some((p1 + 4, QuestionV { name, ty: t, class: c })),
                    _ => None,
                }
            }
        },
    }
}

/// Decodes a question.
pub fn question(msg: &[u8], pos: usize) -> (r: Result<(usize, Question), ()>)
    ensures
        match r {
            Ok((end, q)) => spec_question(msg@, pos as int) == Some((end as int, q@)) && pos < end
                <= msg@.len(),
            Err(_) => spec_question(msg@, pos as int) is None,
        },
{
    let (p1, name) = match domain_name(msg, pos, MAX_HOPS) {
        Ok(v) => v,
        Err(_) => {
            return Err(());
        },
    };
    if msg.len() - p1 < 4 {
        return Err(());
    }
    let tc = match cursor::read_u16_be(msg, p1) {
        Some(v) => v,
        None => {
            return Err(());
        },
    };
    let cc = match cursor::read_u16_be(msg, p1 + 2) {
        Some(v) => v,
        None => {
            return Err(());
        },
    };
    match (ty(tc), class(cc)) {
        (Ok(t), Ok(c)) => Ok((p1 + 4, Question { name, ty: t, class: c })),
        _ => Err(()),
    }
}

/// What decoding a record yields: `Some((end, None))` when an unrecognized
/// type or class makes the record skippable and its declared data length
/// fits the remaining bytes; `Some((end, Some(record)))` for a recognized
/// record; `None` when the message must be abandoned.
pub open spec fn spec_record(msg: Seq<u8>, pos: int) -> Option<(int, Option<RecordV>)> {
    match spec_name(msg, pos, MAX_HOPS as int) {
        None => None,
        Some((p1, name)) => {
            if p1 + 10 > msg.len() {
                None
            } else {
                let tc = wire::be_u16(msg[p1], msg[p1 + 1]);
                let cc = wire::be_u16(msg[p1 + 2], msg[p1 + 3]);
                let ttl = wire::be_u32(msg[p1 + 4], msg[p1 + 5], msg[p1 + 6], msg[p1 + 7]) as i32;
                let rdlen = wire::be_u16(msg[p1 + 8], msg[p1 + 9]);
                let p2 = p1 + 10;
                match (wire::code_type(tc), wire::code_class(cc)) {
                    (Some(t), Some(c)) => {
                        if t is All {
                            None
                        } else {
                            match spec_rdata(msg, p2, t, rdlen as int) {
                                None => None,
                                Some((p3, d)) => Some(
                                    (
                                        p3,
                                        Some(
                                            RecordV {
                                                name,
                                                class: c,
                                                time_to_live: ttl,
                                                data: d,
                                            },
                                        ),
                                    ),
                                ),
                            }
                        }
                    },
                    _ => {
                        if p2 + rdlen <= msg.len() {
                            Some((p2 + rdlen, None))
                        } else {
                            None
                        }
                    },
                }
            }
        },
    }
}

/// Decodes a record, tolerating unrecognized types and classes by
/// skipping the declared data length.
pub fn record(msg: &[u8], pos: usize) -> (r: Result<(usize, Option<Record>), ()>)
    ensures
        match r {
            Ok((end, orec)) => spec_record(msg@, pos as int) == Some(
                (
                    end as int,
                    match orec {
                        Some(rec) => Some(rec@),
                        None => None::<RecordV>,
                    },
                ),
            ) && pos < end <= msg@.len(),
            Err(_) => spec_record(msg@, pos as int) is None,
        },
{
    let (p1, name) = match domain_name(msg, pos, MAX_HOPS) {
        Ok(v) => v,
        Err(_) => {
            return Err(());
        },
    };
    if msg.len() - p1 < 10 {
        return Err(());
    }
    let tc = match cursor::read_u16_be(msg, p1) {
        Some(v) => v,
        None => {
            return Err(());
        },
    };
    let cc = match cursor::read_u16_be(msg, p1 + 2) {
        Some(v) => v,
        None => {
            return Err(());
        },
    };
    let ttl = match cursor::read_i32_be(msg, p1 + 4) {
        Some(v) => v,
        None => {
            return Err(());
        },
    };
    let rdlen = match cursor::read_u16_be(msg, p1 + 8) {
        Some(v) => v,
        None => {
            return Err(());
        },
    };
    let p2 = p1 + 10;
    match (ty(tc), class(cc)) {
        (Ok(t), Ok(c)) => {
            let rd = match t {
                Type::A => a(msg, p2),
                Type::Aaaa => aaaa(msg, p2),
                Type::Mx => mx(msg, p2),
                Type::Ptr => ptr(msg, p2),
                Type::Rp => rp(msg, p2),
                Type::Txt => match txt(msg, p2, rdlen as usize) {
                    Ok((end, list)) => Ok((end, Data::Txt(list))),
                    Err(e) => Err(e),
                },
                Type::All => {
                    return Err(());
                },
            };
            match rd {
                Err(_) => Err(()),
                Ok((p3, d)) => Ok(
                    (p3, Some(Record { name, class: c, time_to_live: ttl, data: d })),
                ),
            }
        },
        _ => {
            if rdlen as usize <= msg.len() - p2 {
                Ok((p2 + rdlen as usize, None))
            } else {
                Err(())
            }
        },
    }
}

/// What decoding `n` questions in a row yields.
pub open spec fn spec_questions(msg: Seq<u8>, pos: int, n: int) -> Option<(int, Seq<QuestionV>)>
    decreases n,
{
    if n <= 0 {
        Some((pos, Seq::empty()))
    } else {
        match spec_question(msg, pos) {
            None => None,
            Some((p1, q)) => match spec_questions(msg, p1, n - 1) {
                None => None,
                Some((end, qs)) => Some((end, seq![q] + qs)),
            },
        }
    }
}

/// What decoding `n` records in a row yields; skipped records leave no
/// trace but their bytes.
pub open spec fn spec_records(msg: Seq<u8>, pos: int, n: int) -> Option<(int, Seq<RecordV>)>
    decreases n,
{
    if n <= 0 {
        Some((pos, Seq::empty()))
    } else {
        match spec_record(msg, pos) {
            None => None,
            Some((p1, orec)) => match spec_records(msg, p1, n - 1) {
                None => None,
                Some((end, rs)) => Some(
                    (
                        end,
                        match orec {
                            Some(rec) => seq![rec] + rs,
                            None => rs,
                        },
                    ),
                ),
            },
        }
    }
}

/// Decodes `count` questions from `pos` on.
fn questions(msg: &[u8], pos: usize, count: u16) -> (r: Result<(usize, Vec<Question>), ()>)
    requires
        pos <= msg@.len(),
    ensures
        match r {
            Ok((end, list)) => spec_questions(msg@, pos as int, count as int) == Some(
                (end as int, list@.map_values(|q: Question| q@)),
            ) && pos <= end <= msg@.len(),
            Err(_) => spec_questions(msg@, pos as int, count as int) is None,
        },
{
    let mut list: Vec<Question> = Vec::new();
    let mut cur: usize = pos;
    let mut k: u16 = 0;
    proof {
        assert(list@.map_values(|q: Question| q@) =~= Seq::<QuestionV>::empty());
    }
    while k < count
        invariant
            k <= count,
            pos <= cur <= msg@.len(),
            spec_questions(msg@, pos as int, count as int) == (match spec_questions(
                msg@,
                cur as int,
                count as int - k,
            ) {
                None => None::<(int, Seq<QuestionV>)>,
                Some((end, rest)) => Some((end, list@.map_values(|q: Question| q@) + rest)),
            }),
        decreases count - k,
    {
        let ghost lv = list@.map_values(|q: Question| q@);
        match question(msg, cur) {
            Err(_) => {
                return Err(());
            },
            Ok((p1, q)) => {
                proof {
                    assert((list@.push(q)).map_values(|x: Question| x@) =~= lv.push(q@));
                    assert forall|rest: Seq<QuestionV>| true implies lv + (seq![q@] + rest)
                        =~= lv.push(q@) + rest by {}
                }
                list.push(q);
                cur = p1;
                k += 1;
            },
        }
    }
    proof {
        assert(list@.map_values(|q: Question| q@) + Seq::<QuestionV>::empty() =~= list@.map_values(
            |q: Question| q@,
        ));
    }
    Ok((cur, list))
}

/// Decodes `count` records from `pos` on, dropping skipped ones.
fn records(msg: &[u8], pos: usize, count: u16) -> (r: Result<(usize, Vec<Record>), ()>)
    requires
        pos <= msg@.len(),
    ensures
        match r {
            Ok((end, list)) => spec_records(msg@, pos as int, count as int) == Some(
                (end as int, list@.map_values(|x: Record| x@)),
            ) && pos <= end <= msg@.len(),
            Err(_) => spec_records(msg@, pos as int, count as int) is None,
        },
{
    let mut list: Vec<Record> = Vec::new();
    let mut cur: usize = pos;
    let mut k: u16 = 0;
    proof {
        assert(list@.map_values(|x: Record| x@) =~= Seq::<RecordV>::empty());
    }
    while k < count
        invariant
            k <= count,
            pos <= cur <= msg@.len(),
            spec_records(msg@, pos as int, count as int) == (match spec_records(
                msg@,
                cur as int,
                count as int - k,
            ) {
                None => None::<(int, Seq<RecordV>)>,
                Some((end, rest)) => Some((end, list@.map_values(|x: Record| x@) + rest)),
            }),
        decreases count - k,
    {
        let ghost lv = list@.map_values(|x: Record| x@);
        match record(msg, cur) {
            Err(_) => {
                return Err(());
            },
            Ok((p1, orec)) => {
                match orec {
                    Some(rec) => {
                        proof {
                            assert((list@.push(rec)).map_values(|x: Record| x@) =~= lv.push(rec@));
                            assert forall|rest: Seq<RecordV>| true implies lv + (seq![rec@] + rest)
                                =~= lv.push(rec@) + rest by {}
                        }
                        list.push(rec);
                    },
                    None => {},
                }
                cur = p1;
                k += 1;
            },
        }
    }
    proof {
        assert(list@.map_values(|x: Record| x@) + Seq::<RecordV>::empty() =~= list@.map_values(
            |x: Record| x@,
        ));
    }
    Ok((cur, list))
}

/// What decoding a whole message yields: the position after the last
/// additional record and the packet. The header's bit layout inverts the
/// formatter's exactly; an unrecognized kind or response code aborts the
/// parse.
pub open spec fn spec_packet(s: Seq<u8>) -> Option<(int, PacketV)> {
    if s.len() < 12 {
        None
    } else {
        let b2 = s[2];
        let b3 = s[3];
        match (wire::code_kind(((b2 / 8) % 16) as u16), wire::code_rcode((b3 % 16) as u16)) {
            (Some(kind), Some(rcode)) => {
                match spec_questions(s, 12, wire::be_u16(s[4], s[5]) as int) {
                    None => None,
                    Some((p1, qs)) => match spec_records(s, p1, wire::be_u16(s[6], s[7]) as int) {
                        None => None,
                        Some((p2, ans)) => match spec_records(
                            s,
                            p2,
                            wire::be_u16(s[8], s[9]) as int,
                        ) {
                            None => None,
                            Some((p3, auth)) => match spec_records(
                                s,
                                p3,
                                wire::be_u16(s[10], s[11]) as int,
                            ) {
                                None => None,
                                Some((p4, add)) => Some(
                                    (
                                        p4,
                                        PacketV {
                                            id: wire::be_u16(s[0], s[1]) as i16,
                                            is_query: b2 < 128,
                                            kind,
                                            is_authoritative: (b2 / 4) % 2 == 1,
                                            truncated: (b2 / 2) % 2 == 1,
                                            recursion_desired: b2 % 2 == 1,
                                            recursion_available: b3 >= 128,
                                            response_code: rcode,
                                            question: qs,
                                            answer: ans,
                                            authority: auth,
                                            additional: add,
                                        },
                                    ),
                                ),
                            },
                        },
                    },
                }
            },
            _ => None,
        }
    }
}

/// Decodes a whole message from the start of `src`. Returns the number of
/// bytes consumed and the packet.
pub fn packet(src: &[u8]) -> (r: Result<(usize, Packet), ()>)
    ensures
        match r {
            Ok((n, p)) => spec_packet(src@) == Some((n as int, p@)) && n <= src@.len(),
            Err(_) => spec_packet(src@) is None,
        },
{
    let id = match cursor::read_i16_be(src, 0) {
        Some(v) => v,
        None => {
            return Err(());
        },
    };
    let b2 = match cursor::read_u8(src, 2) {
        Some(v) => v,
        None => {
            return Err(());
        },
    };
    let b3 = match cursor::read_u8(src, 3) {
        Some(v) => v,
        None => {
            return Err(());
        },
    };
    let kind_v = match kind(((b2 / 8) % 16) as u16) {
        Ok(v) => v,
        Err(_) => {
            return Err(());
        },
    };
    let rcode_v = match response_code((b3 % 16) as u16) {
        Ok(v) => v,
        Err(_) => {
            return Err(());
        },
    };
    let qd = match cursor::read_u16_be(src, 4) {
        Some(v) => v,
        None => {
            return Err(());
        },
    };
    let an = match cursor::read_u16_be(src, 6) {
        Some(v) => v,
        None => {
            return Err(());
        },
    };
    let ns = match cursor::read_u16_be(src, 8) {
        Some(v) => v,
        None => {
            return Err(());
        },
    };
    let ar = match cursor::read_u16_be(src, 10) {
        Some(v) => v,
        None => {
            return Err(());
        },
    };
    let (p1, question_list) = match questions(src, 12, qd) {
        Ok(v) => v,
        Err(_) => {
            return Err(());
        },
    };
    let (p2, answer) = match records(src, p1, an) {
        Ok(v) => v,
        Err(_) => {
            return Err(());
        },
    };
    let (p3, authority) = match records(src, p2, ns) {
        Ok(v) => v,
        Err(_) => {
            return Err(());
        },
    };
    let (p4, additional) = match records(src, p3, ar) {
        Ok(v) => v,
        Err(_) => {
            return Err(());
        },
    };
    let p = Packet {
        id,
        is_query: b2 < 128,
        kind: kind_v,
        is_authoritative: (b2 / 4) % 2 == 1,
        truncated: (b2 / 2) % 2 == 1,
        recursion_desired: b2 % 2 == 1,
        recursion_available: b3 >= 128,
        response_code: rcode_v,
        question: question_list,
        answer,
        authority,
        additional,
    };
    Ok((p4, p))
}

} // verus!
