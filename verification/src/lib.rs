//! A small DNS message codec for the RFC 1035 wire format.
//!
//! The crate offers a data model for DNS messages ([`Packet`], [`Question`],
//! [`Record`], [`Data`]), an exact size calculator ([`len`]), a serializer
//! into a caller-provided buffer ([`format`] and [`Packet::format`]), and a
//! parser with bounded decompression of domain-name pointers ([`parse`] and
//! [`Packet::parse`]).
//!
//! Domain names and text entries are byte strings; a domain name holds its
//! labels joined by `b'.'`. On the wire each label is length-prefixed and a
//! name ends with a zero length byte; labels and character-strings must be
//! valid UTF-8 when parsed.

use vstd::prelude::*;

pub mod cursor;
pub mod format;
pub mod laws;
pub mod len;
pub mod parse;
pub mod wire;

verus! {

/// The kind of a query, carried in three header bits.
#[derive(Copy, Clone, PartialEq, Eq, Structural, Debug)]
pub enum QueryKind {
    /// Standard query.
    Standard,
    /// Inverse query.
    Inverse,
    /// Server status request.
    Status,
}

/// The response code, carried in the low four bits of the second flag byte.
#[derive(Copy, Clone, PartialEq, Eq, Structural, Debug)]
pub enum ResponseCode {
    /// No error.
    NoError,
    /// Format error.
    FormatError,
    /// Server failure.
    ServerFailure,
    /// Name error.
    NameError,
    /// Not implemented.
    NotImplemented,
    /// Refused.
    Refused,
}

/// Type of a record or question.
#[derive(Copy, Clone, PartialEq, Eq, Structural, Debug)]
pub enum Type {
    /// IPv4 address.
    A,
    /// IPv6 address.
    Aaaa,
    /// Mail exchange.
    Mx,
    /// Pointer to a domain name.
    Ptr,
    /// Responsible person.
    Rp,
    /// Text.
    Txt,
    /// All types.
    All,
}

/// Class of a record or question.
#[derive(Copy, Clone, PartialEq, Eq, Structural, Debug)]
pub enum Class {
    /// Internet.
    In,
    /// All classes.
    All,
}

/// An error that can occur during formatting.
#[derive(Copy, Clone, PartialEq, Eq, Structural, Debug)]
pub enum FormatError {
    /// The size of the packet would exceed 512 bytes.
    Size,
    /// The buffer is too small. The argument is the required buffer size.
    Buffer(usize),
    /// One of the domain labels is larger than 63 bytes. The argument is the
    /// byte length of the offending label.
    Label(usize),
    /// A character string is larger than 255 bytes. The argument is the byte
    /// length of the offending string.
    String(usize),
}

/// A question: a domain name asked about, with a type and a class.
#[derive(Clone, PartialEq, Eq, Debug)]
pub struct Question {
    /// Domain name, labels joined by `b'.'`.
    pub name: Vec<u8>,
    /// Question type.
    pub ty: Type,
    /// Question class.
    pub class: Class,
}

/// Record data: one variant per supported record type.
#[derive(Clone, PartialEq, Eq, Debug)]
pub enum Data {
    /// IPv4 address, four octets.
    A([u8; 4]),
    /// IPv6 address, eight 16-bit segments.
    Aaaa([u16; 8]),
    /// Mail exchange: preference and exchange domain name.
    Mx(i16, Vec<u8>),
    /// Pointer to a domain name.
    Ptr(Vec<u8>),
    /// Responsible person: mailbox name and text domain name.
    Rp(Vec<u8>, Vec<u8>),
    /// Text: a list of character-strings.
    Txt(Vec<Vec<u8>>),
}

/// A record of one of the answer, authority, or additional sections.
#[derive(Clone, PartialEq, Eq, Debug)]
pub struct Record {
    /// Domain name, labels joined by `b'.'`.
    pub name: Vec<u8>,
    /// Class.
    pub class: Class,
    /// Time to live in seconds; may be negative on the wire.
    pub time_to_live: i32,
    /// Data.
    pub data: Data,
}

/// A DNS packet.
#[derive(Clone, PartialEq, Eq, Debug)]
pub struct Packet {
    /// ID of the packet.
    pub id: i16,
    /// Set if this is a query.
    pub is_query: bool,
    /// Kind of the query.
    pub kind: QueryKind,
    /// Set if the answer is authoritative.
    pub is_authoritative: bool,
    /// Set if the packet has been truncated.
    pub truncated: bool,
    /// Set if recursion is desired for this query.
    pub recursion_desired: bool,
    /// Set if recursion is available.
    pub recursion_available: bool,
    /// Response code.
    pub response_code: ResponseCode,
    /// Questions.
    pub question: Vec<Question>,
    /// Answers.
    pub answer: Vec<Record>,
    /// Pointers to authorities.
    pub authority: Vec<Record>,
    /// Additional information.
    pub additional: Vec<Record>,
}

/// Mathematical model of a question.
pub ghost struct QuestionV {
    /// Domain name bytes.
    pub name: Seq<u8>,
    /// Question type.
    pub ty: Type,
    /// Question class.
    pub class: Class,
}

/// Mathematical model of record data.
pub ghost enum DataV {
    /// IPv4 address, four octets.
    A(Seq<u8>),
    /// IPv6 address, eight 16-bit segments.
    Aaaa(Seq<u16>),
    /// Mail exchange: preference and exchange domain name.
    Mx(i16, Seq<u8>),
    /// Pointer to a domain name.
    Ptr(Seq<u8>),
    /// Responsible person: mailbox name and text domain name.
    Rp(Seq<u8>, Seq<u8>),
    /// Text: a list of character-strings.
    Txt(Seq<Seq<u8>>),
}

/// Mathematical model of a record.
pub ghost struct RecordV {
    /// Domain name bytes.
    pub name: Seq<u8>,
    /// Class.
    pub class: Class,
    /// Time to live in seconds.
    pub time_to_live: i32,
    /// Data.
    pub data: DataV,
}

/// Mathematical model of a packet.
pub ghost struct PacketV {
    /// ID of the packet.
    pub id: i16,
    /// Set if this is a query.
    pub is_query: bool,
    /// Kind of the query.
    pub kind: QueryKind,
    /// Set if the answer is authoritative.
    pub is_authoritative: bool,
    /// Set if the packet has been truncated.
    pub truncated: bool,
    /// Set if recursion is desired.
    pub recursion_desired: bool,
    /// Set if recursion is available.
    pub recursion_available: bool,
    /// Response code.
    pub response_code: ResponseCode,
    /// Questions.
    pub question: Seq<QuestionV>,
    /// Answers.
    pub answer: Seq<RecordV>,
    /// Authority records.
    pub authority: Seq<RecordV>,
    /// Additional records.
    pub additional: Seq<RecordV>,
}

impl View for Question {
    type V = QuestionV;

    open spec fn view(&self) -> QuestionV {
        QuestionV { name: self.name@, ty: self.ty, class: self.class }
    }
}

impl View for Data {
    type V = DataV;

    open spec fn view(&self) -> DataV {
        match self {
            Data::A(octets) => DataV::A(octets@),
            Data::Aaaa(segments) => DataV::Aaaa(segments@),
            Data::Mx(preference, exchange) => DataV::Mx(*preference, exchange@),
            Data::Ptr(domain) => DataV::Ptr(domain@),
            Data::Rp(mbox, txt) => DataV::Rp(mbox@, txt@),
            Data::Txt(text) => DataV::Txt(text@.map_values(|s: Vec<u8>| s@)),
        }
    }
}

impl View for Record {
    type V = RecordV;

    open spec fn view(&self) -> RecordV {
        RecordV {
            name: self.name@,
            class: self.class,
            time_to_live: self.time_to_live,
            data: self.data@,
        }
    }
}

impl View for Packet {
    type V = PacketV;

    open spec fn view(&self) -> PacketV {
        PacketV {
            id: self.id,
            is_query: self.is_query,
            kind: self.kind,
            is_authoritative: self.is_authoritative,
            truncated: self.truncated,
            recursion_desired: self.recursion_desired,
            recursion_available: self.recursion_available,
            response_code: self.response_code,
            question: self.question@.map_values(|q: Question| q@),
            answer: self.answer@.map_values(|r: Record| r@),
            authority: self.authority@.map_values(|r: Record| r@),
            additional: self.additional@.map_values(|r: Record| r@),
        }
    }
}

impl Type {
    /// The numeric wire code of this type.
    pub fn code(&self) -> (c: u16)
        ensures
            c == wire::type_code(*self),
    {
        match self {
            Type::A => 1,
            Type::Aaaa => 28,
            Type::Mx => 15,
            Type::Ptr => 12,
            Type::Rp => 17,
            Type::Txt => 16,
            Type::All => 255,
        }
    }
}

impl Class {
    /// The numeric wire code of this class.
    pub fn code(&self) -> (c: u16)
        ensures
            c == wire::class_code(*self),
    {
        match self {
            Class::In => 1,
            Class::All => 255,
        }
    }
}

impl QueryKind {
    /// The numeric wire code of this query kind.
    pub fn code(&self) -> (c: u8)
        ensures
            c == wire::kind_code(*self),
    {
        match self {
            QueryKind::Standard => 0,
            QueryKind::Inverse => 1,
            QueryKind::Status => 2,
        }
    }
}

impl ResponseCode {
    /// The numeric wire code of this response code.
    pub fn code(&self) -> (c: u8)
        ensures
            c == wire::rcode_code(*self),
    {
        match self {
            ResponseCode::NoError => 0,
            ResponseCode::FormatError => 1,
            ResponseCode::ServerFailure => 2,
            ResponseCode::NameError => 3,
            ResponseCode::NotImplemented => 4,
            ResponseCode::Refused => 5,
        }
    }
}

impl Data {
    /// Returns the type of the data.
    pub fn to_type(&self) -> (t: Type)
        ensures
            t == wire::data_type(self@),
    {
        match self {
            Data::A(..) => Type::A,
            Data::Aaaa(..) => Type::Aaaa,
            Data::Mx(..) => Type::Mx,
            Data::Ptr(..) => Type::Ptr,
            Data::Rp(..) => Type::Rp,
            Data::Txt(..) => Type::Txt,
        }
    }
}

impl Packet {
    /// Parses the bytes in `src` as a DNS packet. The whole behaviour,
    /// success and failure alike, is pinned by [`parse::spec_packet`].
    ///
    /// # Return value
    ///
    /// Returns the number of bytes read and the packet on success.
    pub fn parse(src: &[u8]) -> (r: Result<(usize, Packet), ()>)
        ensures
            match r {
                Ok((n, p)) => parse::spec_packet(src@) == Some((n as int, p@)) && n <= src@.len(),
                Err(_) => parse::spec_packet(src@) is None,
            },
    {
        parse::packet(src)
    }

    /// Formats the packet into the provided buffer.
    ///
    /// The exact wire length is computed first: when it exceeds 512 bytes
    /// the size error comes back, and when the buffer is shorter than the
    /// length the buffer error carries that length, in both cases before a
    /// single byte is written. A label over 63 bytes or a text entry over
    /// 255 bytes fails with the first such error in write order. On any
    /// failure the buffer is unchanged; on success the wire encoding fills
    /// the first bytes of the buffer and the remainder keeps its contents.
    ///
    /// # Return value
    ///
    /// Returns the number of bytes written on success.
    pub fn format(&self, dst: &mut Vec<u8>) -> (r: Result<usize, FormatError>)
        ensures
            final(dst)@.len() == old(dst)@.len(),
            match r {
                Ok(n) => {
                    &&& n as int == wire::packet_len(self@)
                    &&& wire::packet_len(self@) <= 512
                    &&& wire::packet_len(self@) <= old(dst)@.len()
                    &&& wire::fmt_packet_err(self@) is None
                    &&& final(dst)@ == wire::encode_packet(self@) + old(dst)@.skip(n as int)
                },
                Err(e) => {
                    &&& final(dst)@ == old(dst)@
                    &&& match e {
                        FormatError::Size => wire::packet_len(self@) > 512,
                        FormatError::Buffer(need) => wire::packet_len(self@) <= 512 && need as int
                            == wire::packet_len(self@) && old(dst)@.len() < wire::packet_len(
                            self@,
                        ),
                        _ => wire::packet_len(self@) <= 512 && wire::packet_len(self@) <= old(
                            dst,
                        )@.len() && wire::fmt_packet_err(self@) == Some(e),
                    }
                },
            },
    {
        let need = len::packet_capped(self);
        if need > 512 {
            return Err(FormatError::Size);
        }
        if need > dst.len() {
            return Err(FormatError::Buffer(need));
        }
        let mut out: Vec<u8> = Vec::new();
        match format::packet(&mut out, self) {
            Ok(_) => {},
            Err(e) => {
                proof {
                    wire::lemma_fmt_packet_err_kind(self@);
                }
                return Err(e);
            },
        }
        proof {
            assert(out@ =~= wire::encode_packet(self@));
        }
        let n = out.len();
        let mut i: usize = 0;
        while i < n
            invariant
                i <= n,
                n == out@.len(),
                n <= dst@.len(),
                dst@.len() == old(dst)@.len(),
                forall|k: int| 0 <= k < i ==> dst@[k] == out@[k],
                forall|k: int| i <= k < dst@.len() ==> dst@[k] == old(dst)@[k],
            decreases n - i,
        {
            let b = out[i];
            dst.set(i, b);
            i += 1;
        }
        proof {
            assert(dst@ =~= wire::encode_packet(self@) + old(dst)@.skip(need as int));
        }
        Ok(need)
    }

    /// Creates a new packet that has all header values preset for a query:
    /// query flag set, standard kind, recursion desired, no flags otherwise,
    /// response code clear, and all four sections empty.
    pub fn query(id: i16) -> (p: Packet)
        ensures
            p@ == (PacketV {
                id: id,
                is_query: true,
                kind: QueryKind::Standard,
                is_authoritative: false,
                truncated: false,
                recursion_desired: true,
                recursion_available: false,
                response_code: ResponseCode::NoError,
                question: Seq::<QuestionV>::empty(),
                answer: Seq::<RecordV>::empty(),
                authority: Seq::<RecordV>::empty(),
                additional: Seq::<RecordV>::empty(),
            }),
    {
        let p = Packet {
            id: id,
            is_query: true,
            kind: QueryKind::Standard,
            is_authoritative: false,
            truncated: false,
            recursion_desired: true,
            recursion_available: false,
            response_code: ResponseCode::NoError,
            question: Vec::new(),
            answer: Vec::new(),
            authority: Vec::new(),
            additional: Vec::new(),
        };
        proof {
            assert(p@.question =~= Seq::<QuestionV>::empty());
            assert(p@.answer =~= Seq::<RecordV>::empty());
            assert(p@.authority =~= Seq::<RecordV>::empty());
            assert(p@.additional =~= Seq::<RecordV>::empty());
        }
        p
    }
}

} // verus!
