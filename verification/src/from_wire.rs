//! Decoding of DNS messages from their wire format (RFC 1035 - Section 4).
use crate::message::{
    CharacterString, DomainName, Message, MessageKind, Question, ResourceRecord,
    ResourceRecordData, SpecMessage, SpecQuestion, SpecRecordData, SpecResourceRecord, labels_view,
    questions_view, records_view,
};
use crate::types::{
    opcode_of, qclass_of, qtype_of, rclass_of, response_code_of, rtype_of, Opcode, QClass, QType,
    RClass, RType, ResponseCode,
};
use vstd::prelude::*;

verus! {

/// Why a buffer is not a well-formed DNS message.
#[derive(Debug, Clone, PartialEq, Eq, Structural)]
pub enum FromWireError {
    BufferTooShort,
    InvalidHeader,
    InvalidQuestion,
    InvalidResourceRecord,
    InvalidDomainName,
    InvalidDomainNamePointer,
    InvalidCharacterString,
    LabelTooLong,
    DomainNameTooLong,
    TrailingBytes,
}

// ---------------------------------------------------------------------------
// Reading fixed-size fields out of a buffer
// ---------------------------------------------------------------------------

/// The `n` bytes at `pos`, if the buffer holds them.
pub open spec fn bytes_at(buf: Seq<u8>, pos: int, n: int) -> Option<Seq<u8>> {
    if 0 <= pos && 0 <= n && pos + n <= buf.len() {
        Some(buf.subrange(pos, pos + n))
    } else {
        None
    }
}

/// The byte at `pos`, if the buffer holds it.
pub open spec fn u8_at(buf: Seq<u8>, pos: int) -> Option<u8> {
    if 0 <= pos < buf.len() {
        Some(buf[pos])
    } else {
        None
    }
}

/// The 16 bit integer whose big-endian bytes are `hi`, `lo`.
pub open spec fn be_u16(hi: u8, lo: u8) -> u16 {
    (hi * 256 + lo) as u16
}

/// The 32 bit integer whose big-endian bytes are `b0` .. `b3`.
pub open spec fn be_u32(b0: u8, b1: u8, b2: u8, b3: u8) -> u32 {
    (b0 * 0x1000000 + b1 * 0x10000 + b2 * 0x100 + b3) as u32
}

/// The big-endian 16 bit integer at `pos`, if the buffer holds it.
pub open spec fn u16_at(buf: Seq<u8>, pos: int) -> Option<u16> {
    if 0 <= pos && pos + 2 <= buf.len() {
        Some(be_u16(buf[pos], buf[pos + 1]))
    } else {
        None
    }
}

/// The big-endian 32 bit integer at `pos`, if the buffer holds it.
pub open spec fn u32_at(buf: Seq<u8>, pos: int) -> Option<u32> {
    if 0 <= pos && pos + 4 <= buf.len() {
        Some(be_u32(buf[pos], buf[pos + 1], buf[pos + 2], buf[pos + 3]))
    } else {
        None
    }
}

/// A cursor over a message buffer.
pub struct Parser<'a> {
    buf: &'a [u8],
    pos: usize,
}

impl<'a> Parser<'a> {
    /// The bytes this parser reads from.
    pub closed spec fn input(&self) -> Seq<u8> {
        self.buf@
    }

    /// The position of the next byte to read.
    pub closed spec fn cursor(&self) -> int {
        self.pos as int
    }

    /// The cursor never stands before the start of the buffer.
    pub proof fn lemma_cursor_nonneg(&self)
        ensures
            0 <= self.cursor(),
    {
    }

    /// A parser at the start of `buf`.
    pub fn new(buf: &'a [u8]) -> (parser: Parser<'a>)
        ensures
            parser.input() == buf@,
            parser.cursor() == 0,
    {
        Parser { buf, pos: 0usize }
    }

    /// A parser over the same buffer, at `pos`.
    pub fn at(&self, pos: usize) -> (parser: Parser<'a>)
        ensures
            parser.input() == self.input(),
            parser.cursor() == pos,
    {
        Parser { buf: self.buf, pos }
    }

    /// Reads the next `N` bytes; `None`, with the cursor unchanged, when the
    /// buffer does not hold them.
    pub fn read_array<const N: usize>(&mut self) -> (bytes: Option<[u8; N]>)
        ensures
            final(self).input() == old(self).input(),
            match bytes_at(old(self).input(), old(self).cursor(), N as int) {
                Some(b) => bytes matches Some(a) && a@ == b
                    && final(self).cursor() == old(self).cursor() + N,
                None => bytes is None && final(self).cursor() == old(self).cursor(),
            },
    {
        if self.pos > self.buf.len() || N > self.buf.len() - self.pos {
            return None;
        }
        let start = self.pos;
        let mut bytes = [0u8; N];
        let mut i: usize = 0;
        while i < N
            invariant
                start == self.pos,
                start + N <= self.buf.len(),
                0 <= i <= N,
                bytes@.len() == N,
                forall|j: int| 0 <= j < i ==> bytes@[j] == self.buf@[self.pos + j],
            decreases N - i,
        {
            bytes[i] = self.buf[start + i];
            i = i + 1;
        }
        assert(bytes@ =~= self.buf@.subrange(self.pos as int, self.pos + N));
        self.pos = self.pos + N;
        Some(bytes)
    }

    /// Reads the next byte.
    pub fn read_u8(&mut self) -> (byte: Option<u8>)
        ensures
            final(self).input() == old(self).input(),
            match u8_at(old(self).input(), old(self).cursor()) {
                Some(b) => byte == Some(b) && final(self).cursor() == old(self).cursor() + 1,
                None => byte is None && final(self).cursor() == old(self).cursor(),
            },
    {
        match self.read_array::<1>() {
            Some(a) => Some(a[0]),
            None => None,
        }
    }

    /// Reads the next big-endian 16 bit integer.
    pub fn read_u16(&mut self) -> (value: Option<u16>)
        ensures
            final(self).input() == old(self).input(),
            match u16_at(old(self).input(), old(self).cursor()) {
                Some(v) => value == Some(v) && final(self).cursor() == old(self).cursor() + 2,
                None => value is None && final(self).cursor() == old(self).cursor(),
            },
    {
        match self.read_array::<2>() {
            Some(a) => Some(a[0] as u16 * 256 + a[1] as u16),
            None => None,
        }
    }

    /// Reads the next big-endian 32 bit integer.
    pub fn read_u32(&mut self) -> (value: Option<u32>)
        ensures
            final(self).input() == old(self).input(),
            match u32_at(old(self).input(), old(self).cursor()) {
                Some(v) => value == Some(v) && final(self).cursor() == old(self).cursor() + 4,
                None => value is None && final(self).cursor() == old(self).cursor(),
            },
    {
        match self.read_array::<4>() {
            Some(a) => Some(
                a[0] as u32 * 0x1000000 + a[1] as u32 * 0x10000 + a[2] as u32 * 0x100 + a[3] as u32,
            ),
            None => None,
        }
    }

    /// Reads the next `n` bytes; `None`, with the cursor unchanged, when the
    /// buffer does not hold them.
    pub fn read_bytes(&mut self, n: usize) -> (bytes: Option<Vec<u8>>)
        ensures
            final(self).input() == old(self).input(),
            match bytes_at(old(self).input(), old(self).cursor(), n as int) {
                Some(b) => bytes matches Some(v) && v@ == b
                    && final(self).cursor() == old(self).cursor() + n,
                None => bytes is None && final(self).cursor() == old(self).cursor(),
            },
    {
        if self.pos > self.buf.len() || n > self.buf.len() - self.pos {
            return None;
        }
        let res = vstd::slice::slice_to_vec(vstd::slice::slice_subrange(self.buf, self.pos, self.pos + n));
        self.pos = self.pos + n;
        Some(res)
    }
}


// ---------------------------------------------------------------------------
// Domain names (RFC 1035 - Sections 3.1 and 4.1.4)
// ---------------------------------------------------------------------------

/// Why reading failed, with the position where the cursor stands when the
/// error is returned (reads that fail leave the cursor where it was).
pub type Failure = (FromWireError, int);

/// The outcome of reading a domain name: its labels and the position just
/// past its encoding in the stream it was read from.
pub type NameOutcome = Result<(Seq<Seq<u8>>, int), Failure>;

/// `outcome` with the labels `first` put in front of its labels.
pub open spec fn prepend_labels(first: Seq<Seq<u8>>, outcome: NameOutcome) -> NameOutcome {
    match outcome {
        Ok((labels, end)) => Ok((first + labels, end)),
        Err(f) => Err(f),
    }
}

/// The domain name encoded at `pos`: a sequence of labels, each a length
/// octet below 64 and that many octets, ended by a zero octet or by a
/// compression pointer (two octets whose top two bits are set) to an earlier
/// position, whose name completes this one. `total` counts the octets of
/// the labels read so far, each with its length octet; with the final zero
/// octet the name may take at most 255 octets. At most `limit` names (the
/// first one and those reached through pointers) are followed.
pub open spec fn domain_name_at(buf: Seq<u8>, pos: int, total: int, limit: nat) -> NameOutcome
    decreases limit, buf.len() - pos,
{
    if !(0 <= pos < buf.len()) {
        Err((FromWireError::InvalidDomainName, pos))
    } else if limit == 0 {
        Err((FromWireError::InvalidDomainName, pos + 1))
    } else {
        let len = buf[pos];
        if len >= 192 {
            if pos + 1 >= buf.len() {
                Err((FromWireError::InvalidDomainName, pos + 1))
            } else {
                let offset = (len - 192) * 256 + buf[pos + 1];
                if offset >= pos {
                    Err((FromWireError::InvalidDomainNamePointer, pos + 2))
                } else {
                    // The rest of the name is read elsewhere; the cursor stays
                    // just past the pointer.
                    match domain_name_at(buf, offset, total, (limit - 1) as nat) {
                        Ok((labels, _)) => Ok((labels, pos + 2)),
                        Err((e, _)) => Err((e, pos + 2)),
                    }
                }
            }
        } else if len == 0 {
            Ok((Seq::empty(), pos + 1))
        } else if len >= 64 {
            Err((FromWireError::LabelTooLong, pos + 1))
        } else if pos + 1 + len > buf.len() {
            Err((FromWireError::InvalidDomainName, pos + 1))
        } else if total + len + 1 + 1 > 255 {
            Err((FromWireError::DomainNameTooLong, pos + 1 + len))
        } else {
            prepend_labels(
                seq![buf.subrange(pos + 1, pos + 1 + len)],
                domain_name_at(buf, pos + 1 + len, total + len + 1, limit),
            )
        }
    }
}

/// How many names (the first one and those reached through compression
/// pointers) are followed when reading one domain name.
pub open spec fn name_depth_limit() -> nat {
    20
}

/// The domain name at `pos`, read as a field of a message.
pub open spec fn domain_name_field(buf: Seq<u8>, pos: int) -> NameOutcome {
    domain_name_at(buf, pos, 0, name_depth_limit())
}

/// Reads a domain name at the parser's cursor and appends its labels to
/// `name`; `total_len` counts the octets of labels already read (each with
/// its length octet) and `recursion_limit` bounds how many names are followed.
pub fn parse_domain_name(
    parser: &mut Parser,
    name: &mut DomainName,
    total_len: usize,
    recursion_limit: usize,
) -> (res: Result<(), FromWireError>)
    requires
        total_len + 65 <= usize::MAX,
    ensures
        final(parser).input() == old(parser).input(),
        match domain_name_at(old(parser).input(), old(parser).cursor(), total_len as int, recursion_limit as nat) {
            Ok((labels, end)) => res is Ok && labels_view(final(name)@) == labels_view(old(name)@) + labels
                && final(parser).cursor() == end,
            Err((e, end)) => res == Err::<(), FromWireError>(e) && final(parser).cursor() == end,
        },
    decreases recursion_limit,
{
    let ghost buf = parser.input();
    let ghost pos0 = parser.cursor();
    let ghost name0 = labels_view(name@);
    let ghost outcome0 = domain_name_at(buf, pos0, total_len as int, recursion_limit as nat);
    let ghost mut acc: Seq<Seq<u8>> = Seq::empty();
    let mut total = total_len;
    loop
        invariant
            buf == old(parser).input(),
            pos0 == old(parser).cursor(),
            name0 == labels_view(old(name)@),
            outcome0 == domain_name_at(buf, pos0, total_len as int, recursion_limit as nat),
            parser.input() == buf,
            total + 65 <= usize::MAX,
            labels_view(name@) == name0 + acc,
            outcome0 == prepend_labels(acc, domain_name_at(buf, parser.cursor(), total as int, recursion_limit as nat)),
        decreases buf.len() - parser.cursor(),
    {
        let pos = parser.pos;
        let len = match parser.read_u8() {
            Some(len) => len,
            None => {
                return Err(FromWireError::InvalidDomainName);
            },
        };
        assert((len & 0b1100_0000u8 == 0b1100_0000u8) == (len >= 192)) by (bit_vector);
        if recursion_limit == 0usize {
            return Err(FromWireError::InvalidDomainName);
        } else if len & 0b1100_0000u8 == 0b1100_0000u8 {
            let second = match parser.read_u8() {
                Some(second) => second,
                None => {
                    return Err(FromWireError::InvalidDomainName);
                },
            };
            assert(len >= 192 ==> (len & 0b0011_1111u8) == len - 192) by (bit_vector);
            let offset = ((len & 0b0011_1111u8) as usize) * 256 + second as usize;
            if offset >= pos {
                return Err(FromWireError::InvalidDomainNamePointer);
            } else {
                let mut target = parser.at(offset);
                let res = parse_domain_name(&mut target, name, total, recursion_limit - 1);
                proof {
                    match domain_name_at(buf, offset as int, total as int, (recursion_limit - 1) as nat) {
                        Ok((labels, _)) => {
                            assert(labels_view(name@) == name0 + (acc + labels));
                        },
                        Err(e) => {},
                    }
                }
                return res;
            }
        } else if len == 0u8 {
            proof {
                assert(acc + Seq::<Seq<u8>>::empty() == acc);
            }
            return Ok(());
        } else if len >= 64u8 {
            return Err(FromWireError::LabelTooLong);
        } else {
            let label = match parser.read_bytes(len as usize) {
                Some(label) => label,
                None => {
                    return Err(FromWireError::InvalidDomainName);
                },
            };
            total = total + label.len() + 1usize;
            if total + 1 > 255 {
                return Err(FromWireError::DomainNameTooLong);
            } else {
                let ghost before = labels_view(name@);
                name.push(label);
                proof {
                    assert(labels_view(name@) == before.push(label@));
                    if let Ok((rest, _)) = domain_name_at(buf, parser.cursor(), total as int, recursion_limit as nat) {
                        assert(acc + seq![label@] + rest == acc + (seq![label@] + rest));
                    }
                    acc = acc + seq![label@];
                }
            }
        }
    }
}


/// Decoding of one entity of a message at a parser's cursor.
pub trait FromWireEntity: Sized {
    fn from_wire_entity(parser: &mut Parser) -> Result<Self, FromWireError>;
}

impl FromWireEntity for DomainName {
    /// Reads a domain name, following compression pointers.
    fn from_wire_entity(parser: &mut Parser) -> (res: Result<DomainName, FromWireError>)
        ensures
            final(parser).input() == old(parser).input(),
            match domain_name_field(old(parser).input(), old(parser).cursor()) {
                Ok((labels, end)) => res matches Ok(name) && labels_view(name@) == labels
                    && final(parser).cursor() == end,
                Err((e, end)) => res == Err::<DomainName, FromWireError>(e) && final(parser).cursor() == end,
            },
    {
        let mut domain_name: DomainName = Vec::new();
        proof {
            assert(labels_view(domain_name@) =~= Seq::<Seq<u8>>::empty());
        }
        match parse_domain_name(parser, &mut domain_name, 0usize, 20usize) {
            Ok(()) => {
                proof {
                    let labels = domain_name_field(old(parser).input(), old(parser).cursor())->Ok_0.0;
                    assert(Seq::<Seq<u8>>::empty() + labels == labels);
                }
                Ok(domain_name)
            },
            Err(e) => Err(e),
        }
    }
}

/// RFC 1035 - Section 3.3: the <character-string> at `pos`, a length octet
/// followed by that many octets, and the position just past it.
pub open spec fn character_string_at(buf: Seq<u8>, pos: int) -> Result<(Seq<u8>, int), Failure> {
    match u8_at(buf, pos) {
        None => Err((FromWireError::InvalidDomainName, pos)),
        Some(len) => match bytes_at(buf, pos + 1, len as int) {
            None => Err((FromWireError::InvalidCharacterString, pos + 1)),
            Some(s) => Ok((s, pos + 1 + len)),
        },
    }
}

impl FromWireEntity for CharacterString {
    /// Reads a <character-string>.
    fn from_wire_entity(parser: &mut Parser) -> (res: Result<CharacterString, FromWireError>)
        ensures
            final(parser).input() == old(parser).input(),
            match character_string_at(old(parser).input(), old(parser).cursor()) {
                Ok((s, end)) => res matches Ok(v) && v@ == s && final(parser).cursor() == end,
                Err((e, end)) => res == Err::<CharacterString, FromWireError>(e) && final(parser).cursor() == end,
            },
    {
        let len = match parser.read_u8() {
            Some(len) => len,
            None => {
                return Err(FromWireError::InvalidDomainName);
            },
        };
        match parser.read_bytes(len as usize) {
            Some(s) => Ok(s),
            None => Err(FromWireError::InvalidCharacterString),
        }
    }
}

/// RFC 1035 - Section 4.1.2: the question at `pos` and the position just past it.
pub open spec fn question_at(buf: Seq<u8>, pos: int) -> Result<(SpecQuestion, int), Failure> {
    match domain_name_field(buf, pos) {
        Err(f) => Err(f),
        Ok((qname, p)) => match u16_at(buf, p) {
            None => Err((FromWireError::InvalidQuestion, p)),
            Some(t) => match u16_at(buf, p + 2) {
                None => Err((FromWireError::InvalidQuestion, p + 2)),
                Some(c) => Ok((SpecQuestion { qname, qtype: qtype_of(t), qclass: qclass_of(c) }, p + 4)),
            },
        },
    }
}

impl FromWireEntity for Question {
    /// RFC 1035 - Section 4.1.2
    fn from_wire_entity(parser: &mut Parser) -> (res: Result<Question, FromWireError>)
        ensures
            final(parser).input() == old(parser).input(),
            match question_at(old(parser).input(), old(parser).cursor()) {
                Ok((q, end)) => res matches Ok(v) && v@ == q && final(parser).cursor() == end,
                Err((e, end)) => res == Err::<Question, FromWireError>(e) && final(parser).cursor() == end,
            },
    {
        let qname = DomainName::from_wire_entity(parser)?;
        let qtype = match parser.read_u16() {
            Some(t) => QType::from(t),
            None => {
                return Err(FromWireError::InvalidQuestion);
            },
        };
        let qclass = match parser.read_u16() {
            Some(c) => QClass::from(c),
            None => {
                return Err(FromWireError::InvalidQuestion);
            },
        };
        Ok(Question { qname, qtype, qclass })
    }
}


/// The outcome of reading the strings of a TXT record.
pub type StringsOutcome = Result<(Seq<Seq<u8>>, int), Failure>;

/// RFC 1035 - Section 3.3.14: the <character-string>s that fill the
/// `remaining` octets at `pos`, and the position just past them; a string
/// that runs past those octets makes the record invalid.
pub open spec fn txt_strings_at(buf: Seq<u8>, pos: int, remaining: int) -> StringsOutcome
    decreases remaining,
{
    if remaining <= 0 {
        Ok((Seq::empty(), pos))
    } else {
        match character_string_at(buf, pos) {
            Err(f) => Err(f),
            Ok((s, next)) => if remaining < s.len() + 1 {
                Err((FromWireError::InvalidResourceRecord, next))
            } else {
                prepend_labels(seq![s], txt_strings_at(buf, next, remaining - (s.len() + 1)))
            },
        }
    }
}

/// The record data made of one domain name, for the types whose data is one.
pub open spec fn single_name_rdata(rtype: RType, name: Seq<Seq<u8>>) -> SpecRecordData {
    match rtype {
        RType::NS => SpecRecordData::NS(name),
        RType::MD => SpecRecordData::MD(name),
        RType::MF => SpecRecordData::MF(name),
        RType::MB => SpecRecordData::MB(name),
        RType::MG => SpecRecordData::MG(name),
        RType::MR => SpecRecordData::MR(name),
        RType::PTR => SpecRecordData::PTR(name),
        _ => SpecRecordData::CNAME(name),
    }
}

/// The outcome of reading record data.
pub type RDataOutcome = Result<(SpecRecordData, int), Failure>;

/// Record data that is the `rdlength` octets at `pos`, kept as they are.
pub open spec fn opaque_rdata_at(buf: Seq<u8>, pos: int, rtype: u16, rdlength: u16) -> RDataOutcome {
    match bytes_at(buf, pos, rdlength as int) {
        None => Err((FromWireError::InvalidResourceRecord, pos)),
        Some(d) => Ok((SpecRecordData::Unknown { rtype, rdata: d }, pos + rdlength)),
    }
}

/// RFC 1035 - Section 3.3.13: the data of an SOA record at `pos`.
pub open spec fn soa_rdata_at(buf: Seq<u8>, pos: int) -> RDataOutcome {
    match domain_name_field(buf, pos) {
        Err(f) => Err(f),
        Ok((mname, p1)) => match domain_name_field(buf, p1) {
            Err(f) => Err(f),
            Ok((rname, p)) => match u32_at(buf, p) {
                None => Err((FromWireError::InvalidResourceRecord, p)),
                Some(serial) => match u32_at(buf, p + 4) {
                    None => Err((FromWireError::InvalidResourceRecord, p + 4)),
                    Some(refresh) => match u32_at(buf, p + 8) {
                        None => Err((FromWireError::InvalidResourceRecord, p + 8)),
                        Some(retry) => match u32_at(buf, p + 12) {
                            None => Err((FromWireError::InvalidResourceRecord, p + 12)),
                            Some(expire) => match u32_at(buf, p + 16) {
                                None => Err((FromWireError::InvalidResourceRecord, p + 16)),
                                Some(minimum) => Ok((
                                    SpecRecordData::SOA { mname, rname, serial, refresh, retry, expire, minimum },
                                    p + 20,
                                )),
                            },
                        },
                    },
                },
            },
        },
    }
}

/// RFC 1035 - Sections 3.3 and 3.4: the data of a record of type `rtype` and
/// class `class` whose declared length is `rdlength`, at `pos`, and the
/// position just past what was read of it.
pub open spec fn rdata_at(buf: Seq<u8>, pos: int, rtype: RType, class: RClass, rdlength: u16) -> RDataOutcome {
    match rtype {
        RType::A => if class == RClass::IN {
            match bytes_at(buf, pos, 4) {
                None => Err((FromWireError::InvalidResourceRecord, pos)),
                Some(a) => Ok((SpecRecordData::A(a), pos + 4)),
            }
        } else {
            opaque_rdata_at(buf, pos, 1, rdlength)
        },
        RType::NS | RType::MD | RType::MF | RType::CNAME | RType::MB | RType::MG | RType::MR | RType::PTR =>
            match domain_name_field(buf, pos) {
            Err(f) => Err(f),
            Ok((name, end)) => Ok((single_name_rdata(rtype, name), end)),
        },
        RType::SOA => soa_rdata_at(buf, pos),
        RType::NULL => match bytes_at(buf, pos, rdlength as int) {
            None => Err((FromWireError::InvalidResourceRecord, pos)),
            Some(d) => Ok((SpecRecordData::NULL(d), pos + rdlength)),
        },
        RType::WKS => if class == RClass::IN {
            match bytes_at(buf, pos, 4) {
                None => Err((FromWireError::InvalidResourceRecord, pos)),
                Some(address) => match u8_at(buf, pos + 4) {
                    None => Err((FromWireError::InvalidResourceRecord, pos + 4)),
                    Some(protocol) => if rdlength < 5 {
                        Err((FromWireError::InvalidResourceRecord, pos + 5))
                    } else {
                        match bytes_at(buf, pos + 5, rdlength - 5) {
                            None => Err((FromWireError::InvalidResourceRecord, pos + 5)),
                            Some(bitmap) => Ok((
                                SpecRecordData::WKS { address, protocol, bitmap },
                                pos + rdlength,
                            )),
                        }
                    },
                },
            }
        } else {
            opaque_rdata_at(buf, pos, 11, rdlength)
        },
        RType::HINFO => match character_string_at(buf, pos) {
            Err(f) => Err(f),
            Ok((cpu, p1)) => match character_string_at(buf, p1) {
                Err(f) => Err(f),
                Ok((os, p2)) => Ok((SpecRecordData::HINFO { cpu, os }, p2)),
            },
        },
        RType::MINFO => match domain_name_field(buf, pos) {
            Err(f) => Err(f),
            Ok((rmailbx, p1)) => match domain_name_field(buf, p1) {
                Err(f) => Err(f),
                Ok((emailbx, p2)) => Ok((SpecRecordData::MINFO { rmailbx, emailbx }, p2)),
            },
        },
        RType::MX => match u16_at(buf, pos) {
            None => Err((FromWireError::InvalidResourceRecord, pos)),
            Some(preference) => match domain_name_field(buf, pos + 2) {
                Err(f) => Err(f),
                Ok((exchange, end)) => Ok((SpecRecordData::MX { preference, exchange }, end)),
            },
        },
        RType::TXT => match txt_strings_at(buf, pos, rdlength as int) {
            Err(f) => Err(f),
            Ok((strings, end)) => if strings.len() == 0 {
                Err((FromWireError::InvalidResourceRecord, end))
            } else {
                Ok((SpecRecordData::TXT(strings), end))
            },
        },
        RType::Unknown(t) => opaque_rdata_at(buf, pos, t, rdlength),
    }
}

/// Reads the data of a record of type `rtype` and class `rclass` whose
/// declared length is `rdlength`.
pub fn parse_rdata(
    parser: &mut Parser,
    rtype: RType,
    rclass: RClass,
    rdlength: u16,
) -> (res: Result<ResourceRecordData, FromWireError>)
    ensures
        final(parser).input() == old(parser).input(),
        match rdata_at(old(parser).input(), old(parser).cursor(), rtype, rclass, rdlength) {
            Ok((data, end)) => res matches Ok(v) && v@ == data && final(parser).cursor() == end,
            Err((e, end)) => res == Err::<ResourceRecordData, FromWireError>(e) && final(parser).cursor() == end,
        },
{
    let ghost buf = parser.input();
    let ghost pos = parser.cursor();
    match rtype {
        RType::A => {
            if let RClass::IN = rclass {
                match parser.read_array::<4>() {
                    Some(a) => Ok(ResourceRecordData::A(a)),
                    None => Err(FromWireError::InvalidResourceRecord),
                }
            } else {
                match parser.read_bytes(rdlength as usize) {
                    Some(rdata) => Ok(ResourceRecordData::Unknown { rtype: u16::from(RType::A), rdata }),
                    None => Err(FromWireError::InvalidResourceRecord),
                }
            }
        },
        RType::NS => Ok(ResourceRecordData::NS(DomainName::from_wire_entity(parser)?)),
        RType::MD => Ok(ResourceRecordData::MD(DomainName::from_wire_entity(parser)?)),
        RType::MF => Ok(ResourceRecordData::MF(DomainName::from_wire_entity(parser)?)),
        RType::CNAME => Ok(ResourceRecordData::CNAME(DomainName::from_wire_entity(parser)?)),
        RType::SOA => {
            let mname = DomainName::from_wire_entity(parser)?;
            let rname = DomainName::from_wire_entity(parser)?;
            let serial = match parser.read_u32() {
                Some(v) => v,
                None => {
                    return Err(FromWireError::InvalidResourceRecord);
                },
            };
            let refresh = match parser.read_u32() {
                Some(v) => v,
                None => {
                    return Err(FromWireError::InvalidResourceRecord);
                },
            };
            let retry = match parser.read_u32() {
                Some(v) => v,
                None => {
                    return Err(FromWireError::InvalidResourceRecord);
                },
            };
            let expire = match parser.read_u32() {
                Some(v) => v,
                None => {
                    return Err(FromWireError::InvalidResourceRecord);
                },
            };
            let minimum = match parser.read_u32() {
                Some(v) => v,
                None => {
                    return Err(FromWireError::InvalidResourceRecord);
                },
            };
            Ok(ResourceRecordData::SOA { mname, rname, serial, refresh, retry, expire, minimum })
        },
        RType::MB => Ok(ResourceRecordData::MB(DomainName::from_wire_entity(parser)?)),
        RType::MG => Ok(ResourceRecordData::MG(DomainName::from_wire_entity(parser)?)),
        RType::MR => Ok(ResourceRecordData::MR(DomainName::from_wire_entity(parser)?)),
        RType::NULL => match parser.read_bytes(rdlength as usize) {
            Some(d) => Ok(ResourceRecordData::NULL(d)),
            None => Err(FromWireError::InvalidResourceRecord),
        },
        RType::WKS => {
            if let RClass::IN = rclass {
                let address = match parser.read_array::<4>() {
                    Some(a) => a,
                    None => {
                        return Err(FromWireError::InvalidResourceRecord);
                    },
                };
                let protocol = match parser.read_u8() {
                    Some(p) => p,
                    None => {
                        return Err(FromWireError::InvalidResourceRecord);
                    },
                };
                // address (4) + protocol (1) already consumed; guard against
                // a declared RDLENGTH smaller than that fixed prefix.
                let bitmap_len = match (rdlength as usize).checked_sub(5) {
                    Some(n) => n,
                    None => {
                        return Err(FromWireError::InvalidResourceRecord);
                    },
                };
                match parser.read_bytes(bitmap_len) {
                    Some(bitmap) => Ok(ResourceRecordData::WKS { address, protocol, bitmap }),
                    None => Err(FromWireError::InvalidResourceRecord),
                }
            } else {
                match parser.read_bytes(rdlength as usize) {
                    Some(rdata) => Ok(ResourceRecordData::Unknown { rtype: u16::from(RType::WKS), rdata }),
                    None => Err(FromWireError::InvalidResourceRecord),
                }
            }
        },
        RType::PTR => Ok(ResourceRecordData::PTR(DomainName::from_wire_entity(parser)?)),
        RType::HINFO => {
            let cpu = CharacterString::from_wire_entity(parser)?;
            let os = CharacterString::from_wire_entity(parser)?;
            Ok(ResourceRecordData::HINFO { cpu, os })
        },
        RType::MINFO => {
            let rmailbx = DomainName::from_wire_entity(parser)?;
            let emailbx = DomainName::from_wire_entity(parser)?;
            Ok(ResourceRecordData::MINFO { rmailbx, emailbx })
        },
        RType::MX => {
            let preference = match parser.read_u16() {
                Some(v) => v,
                None => {
                    return Err(FromWireError::InvalidResourceRecord);
                },
            };
            let exchange = DomainName::from_wire_entity(parser)?;
            Ok(ResourceRecordData::MX { preference, exchange })
        },
        RType::TXT => {
            let mut strings: Vec<CharacterString> = Vec::new();
            let mut remaining = rdlength as usize;
            let ghost outcome0 = txt_strings_at(buf, pos, rdlength as int);
            proof {
                assert(labels_view(strings@) =~= Seq::<Seq<u8>>::empty());
                assert(outcome0 == prepend_labels(Seq::empty(), txt_strings_at(buf, pos, rdlength as int))) by {
                    match outcome0 {
                        Ok((l, e)) => {
                            assert(Seq::<Seq<u8>>::empty() + l == l);
                        },
                        Err(_) => {},
                    }
                }
            }
            while remaining > 0
                invariant
                    buf == old(parser).input(),
                    pos == old(parser).cursor(),
                    parser.input() == buf,
                    rtype == RType::TXT,
                    outcome0 == txt_strings_at(buf, pos, rdlength as int),
                    outcome0 == prepend_labels(labels_view(strings@), txt_strings_at(buf, parser.cursor(), remaining as int)),
                decreases remaining,
            {
                let string = CharacterString::from_wire_entity(parser)?;
                // checked_sub consumes the string plus its length octet and, in the
                // same step, rejects a <character-string> that overruns the RDATA.
                remaining = match remaining.checked_sub(string.len() + 1) {
                    Some(r) => r,
                    None => {
                        return Err(FromWireError::InvalidResourceRecord);
                    },
                };
                let ghost before = labels_view(strings@);
                strings.push(string);
                proof {
                    assert(labels_view(strings@) == before + seq![string@]);
                    match txt_strings_at(buf, parser.cursor(), remaining as int) {
                        Ok((l, e)) => {
                            assert(before + seq![string@] + l == before + (seq![string@] + l));
                        },
                        Err(_) => {},
                    }
                }
            }
            proof {
                assert(labels_view(strings@) + Seq::<Seq<u8>>::empty() == labels_view(strings@));
            }
            // RFC 1035 - Section 3.3.14: TXT RDATA is "one or more" <character-string>s.
            if strings.len() == 0 {
                return Err(FromWireError::InvalidResourceRecord);
            }
            Ok(ResourceRecordData::TXT(strings))
        },
        RType::Unknown(t) => match parser.read_bytes(rdlength as usize) {
            Some(rdata) => Ok(ResourceRecordData::Unknown { rtype: t, rdata }),
            None => Err(FromWireError::InvalidResourceRecord),
        },
    }
}


/// RFC 1035 - Section 4.1.3: the resource record at `pos` and the position
/// just past it. Its data must take exactly the length that its RDLENGTH
/// field declares.
pub open spec fn resource_record_at(buf: Seq<u8>, pos: int) -> Result<(SpecResourceRecord, int), Failure> {
    match domain_name_field(buf, pos) {
        Err(f) => Err(f),
        Ok((name, p)) => match u16_at(buf, p) {
            None => Err((FromWireError::InvalidResourceRecord, p)),
            Some(t) => match u16_at(buf, p + 2) {
                None => Err((FromWireError::InvalidResourceRecord, p + 2)),
                Some(c) => match u32_at(buf, p + 4) {
                    None => Err((FromWireError::InvalidResourceRecord, p + 4)),
                    Some(ttl) => match u16_at(buf, p + 8) {
                        None => Err((FromWireError::InvalidResourceRecord, p + 8)),
                        Some(rdlength) => {
                            let start = p + 10;
                            match rdata_at(buf, start, rtype_of(t), rclass_of(c), rdlength) {
                                Err(f) => Err(f),
                                Ok((rdata, end)) => if end != start + rdlength {
                                    Err((FromWireError::InvalidResourceRecord, end))
                                } else {
                                    Ok((SpecResourceRecord { name, class: rclass_of(c), ttl, rdata }, end))
                                },
                            }
                        },
                    },
                },
            },
        },
    }
}

impl FromWireEntity for ResourceRecord {
    /// RFC 1035 - Section 4.1.3
    fn from_wire_entity(parser: &mut Parser) -> (res: Result<ResourceRecord, FromWireError>)
        ensures
            final(parser).input() == old(parser).input(),
            match resource_record_at(old(parser).input(), old(parser).cursor()) {
                Ok((r, end)) => res matches Ok(v) && v@ == r && final(parser).cursor() == end,
                Err((e, end)) => res == Err::<ResourceRecord, FromWireError>(e) && final(parser).cursor() == end,
            },
    {
        let name = DomainName::from_wire_entity(parser)?;
        let rtype = match parser.read_u16() {
            Some(t) => RType::from(t),
            None => {
                return Err(FromWireError::InvalidResourceRecord);
            },
        };
        let class = match parser.read_u16() {
            Some(c) => RClass::from(c),
            None => {
                return Err(FromWireError::InvalidResourceRecord);
            },
        };
        let ttl = match parser.read_u32() {
            Some(v) => v,
            None => {
                return Err(FromWireError::InvalidResourceRecord);
            },
        };
        let rdlength = match parser.read_u16() {
            Some(v) => v,
            None => {
                return Err(FromWireError::InvalidResourceRecord);
            },
        };
        let rdata_start = parser.pos;
        let rdata = parse_rdata(parser, rtype, class, rdlength)?;
        if parser.pos < rdata_start || parser.pos - rdata_start != rdlength as usize {
            Err(FromWireError::InvalidResourceRecord)
        } else {
            Ok(ResourceRecord { name, class, ttl, rdata })
        }
    }
}

/// The fixed-size header section of a message (RFC 1035 - Section 4.1.1),
/// with the number of entries in each of the other sections.
#[derive(Clone, Copy)]
pub struct Header {
    pub id: u16,
    pub kind: MessageKind,
    pub opcode: Opcode,
    pub truncation: bool,
    pub recursion_desired: bool,
    pub qdcount: u16,
    pub ancount: u16,
    pub nscount: u16,
    pub arcount: u16,
}

/// Whether the bit of weight `weight` is set in `info`.
pub open spec fn bit_set(info: u16, weight: int) -> bool {
    (info as int / weight) % 2 == 1
}

/// The header at `pos` and the position just past it. The second 16 bit
/// word holds, from the most significant bit down: QR (set in responses),
/// a four bit OPCODE, AA, TC, RD, RA, three reserved bits and a four bit
/// RCODE. A query may not have AA or RA set, nor a non-zero RCODE.
pub open spec fn header_at(buf: Seq<u8>, pos: int) -> Result<(Header, int), Failure> {
    match u16_at(buf, pos) {
        None => Err((FromWireError::InvalidHeader, pos)),
        Some(id) => match u16_at(buf, pos + 2) {
            None => Err((FromWireError::InvalidHeader, pos + 2)),
            Some(info) => {
                let is_query = !bit_set(info, 0x8000);
                let authoritative = bit_set(info, 0x400);
                let recursion_available = bit_set(info, 0x80);
                let rcode = info % 16;
                if is_query && (authoritative || recursion_available || rcode != 0) {
                    Err((FromWireError::InvalidHeader, pos + 4))
                } else {
                    match (u16_at(buf, pos + 4), u16_at(buf, pos + 6), u16_at(buf, pos + 8), u16_at(buf, pos + 10)) {
                        (Some(qdcount), Some(ancount), Some(nscount), Some(arcount)) => Ok((
                            Header {
                                id,
                                kind: if is_query {
                                    MessageKind::Query
                                } else {
                                    MessageKind::Response {
                                        authoritative,
                                        recursion_available,
                                        response_code: response_code_of(rcode as u8),
                                    }
                                },
                                opcode: opcode_of(((info / 0x800) % 16) as u8),
                                truncation: bit_set(info, 0x200),
                                recursion_desired: bit_set(info, 0x100),
                                qdcount,
                                ancount,
                                nscount,
                                arcount,
                            },
                            pos + 12,
                        )),
                        (None, _, _, _) => Err((FromWireError::InvalidHeader, pos + 4)),
                        (_, None, _, _) => Err((FromWireError::InvalidHeader, pos + 6)),
                        (_, _, None, _) => Err((FromWireError::InvalidHeader, pos + 8)),
                        (_, _, _, None) => Err((FromWireError::InvalidHeader, pos + 10)),
                    }
                }
            },
        },
    }
}

proof fn lemma_header_bits(info: u16)
    ensures
        (info & (1u16 << 15) == 0u16) == !bit_set(info, 0x8000),
        (info & (1u16 << 10) != 0u16) == bit_set(info, 0x400),
        (info & (1u16 << 9) != 0u16) == bit_set(info, 0x200),
        (info & (1u16 << 8) != 0u16) == bit_set(info, 0x100),
        (info & (1u16 << 7) != 0u16) == bit_set(info, 0x80),
        (info & 0b1111u16) == info % 16,
        ((info >> 11u16) & 0b1111u16) == (info / 0x800) % 16,
{
    assert((info & (1u16 << 15) == 0u16) == ((info / 0x8000) % 2 != 1)) by (bit_vector);
    assert((info & (1u16 << 10) != 0u16) == ((info / 0x400) % 2 == 1)) by (bit_vector);
    assert((info & (1u16 << 9) != 0u16) == ((info / 0x200) % 2 == 1)) by (bit_vector);
    assert((info & (1u16 << 8) != 0u16) == ((info / 0x100) % 2 == 1)) by (bit_vector);
    assert((info & (1u16 << 7) != 0u16) == ((info / 0x80) % 2 == 1)) by (bit_vector);
    assert((info & 0b1111u16) == info % 16) by (bit_vector);
    assert(((info >> 11u16) & 0b1111u16) == (info / 0x800) % 16) by (bit_vector);
}

impl FromWireEntity for Header {
    /// RFC 1035 - Section 4.1.1
    fn from_wire_entity(parser: &mut Parser) -> (res: Result<Header, FromWireError>)
        ensures
            final(parser).input() == old(parser).input(),
            match header_at(old(parser).input(), old(parser).cursor()) {
                Ok((h, end)) => res == Ok::<Header, FromWireError>(h) && final(parser).cursor() == end,
                Err((e, end)) => res == Err::<Header, FromWireError>(e) && final(parser).cursor() == end,
            },
    {
        let id = match parser.read_u16() {
            Some(v) => v,
            None => {
                return Err(FromWireError::InvalidHeader);
            },
        };
        let header_info = match parser.read_u16() {
            Some(v) => v,
            None => {
                return Err(FromWireError::InvalidHeader);
            },
        };
        proof {
            lemma_header_bits(header_info);
        }
        let is_query = header_info & (1u16 << 15) == 0u16;
        let opcode = Opcode::from((header_info >> 11) & 0b1111u16);
        let authoritative = header_info & (1u16 << 10) != 0u16;
        let truncation = header_info & (1u16 << 9) != 0u16;
        let recursion_desired = header_info & (1u16 << 8) != 0u16;
        let recursion_available = header_info & (1u16 << 7) != 0u16;
        let rcode = header_info & 0b1111u16;

        if is_query && (authoritative || recursion_available || rcode != 0u16) {
            return Err(FromWireError::InvalidHeader);
        }
        let response_code = ResponseCode::from(rcode);
        let kind = if is_query {
            MessageKind::Query
        } else {
            MessageKind::Response { authoritative, recursion_available, response_code }
        };

        let qdcount = match parser.read_u16() {
            Some(v) => v,
            None => {
                return Err(FromWireError::InvalidHeader);
            },
        };
        let ancount = match parser.read_u16() {
            Some(v) => v,
            None => {
                return Err(FromWireError::InvalidHeader);
            },
        };
        let nscount = match parser.read_u16() {
            Some(v) => v,
            None => {
                return Err(FromWireError::InvalidHeader);
            },
        };
        let arcount = match parser.read_u16() {
            Some(v) => v,
            None => {
                return Err(FromWireError::InvalidHeader);
            },
        };
        Ok(Header {
            id,
            kind,
            opcode,
            truncation,
            recursion_desired,
            qdcount,
            ancount,
            nscount,
            arcount,
        })
    }
}


/// The `n` questions that follow one another from `pos`, and the position
/// just past them.
pub open spec fn questions_at(buf: Seq<u8>, pos: int, n: nat) -> Result<(Seq<SpecQuestion>, int), Failure>
    decreases n,
{
    if n == 0 {
        Ok((Seq::empty(), pos))
    } else {
        match questions_at(buf, pos, (n - 1) as nat) {
            Err(f) => Err(f),
            Ok((items, p)) => match question_at(buf, p) {
                Err(f) => Err(f),
                Ok((item, end)) => Ok((items.push(item), end)),
            },
        }
    }
}

/// The `n` resource records that follow one another from `pos`, and the
/// position just past them.
pub open spec fn records_at(buf: Seq<u8>, pos: int, n: nat) -> Result<(Seq<SpecResourceRecord>, int), Failure>
    decreases n,
{
    if n == 0 {
        Ok((Seq::empty(), pos))
    } else {
        match records_at(buf, pos, (n - 1) as nat) {
            Err(f) => Err(f),
            Ok((items, p)) => match resource_record_at(buf, p) {
                Err(f) => Err(f),
                Ok((item, end)) => Ok((items.push(item), end)),
            },
        }
    }
}

/// Once reading the first questions fails, reading more fails the same way.
proof fn lemma_questions_error_persists(buf: Seq<u8>, pos: int, n: nat, m: nat)
    requires
        n <= m,
        questions_at(buf, pos, n) is Err,
    ensures
        questions_at(buf, pos, m) == questions_at(buf, pos, n),
    decreases m,
{
    if m > n {
        lemma_questions_error_persists(buf, pos, n, (m - 1) as nat);
    }
}

/// Once reading the first records fails, reading more fails the same way.
proof fn lemma_records_error_persists(buf: Seq<u8>, pos: int, n: nat, m: nat)
    requires
        n <= m,
        records_at(buf, pos, n) is Err,
    ensures
        records_at(buf, pos, m) == records_at(buf, pos, n),
    decreases m,
{
    if m > n {
        lemma_records_error_persists(buf, pos, n, (m - 1) as nat);
    }
}

/// Reads `count` questions.
fn parse_questions(parser: &mut Parser, count: u16) -> (res: Result<Vec<Question>, FromWireError>)
    ensures
        final(parser).input() == old(parser).input(),
        match questions_at(old(parser).input(), old(parser).cursor(), count as nat) {
            Ok((qs, end)) => res matches Ok(v) && questions_view(v@) == qs && final(parser).cursor() == end,
            Err((e, end)) => res == Err::<Vec<Question>, FromWireError>(e) && final(parser).cursor() == end,
        },
{
    let ghost buf = parser.input();
    let ghost pos = parser.cursor();
    let mut items: Vec<Question> = Vec::new();
    let mut i: u16 = 0;
    proof {
        assert(questions_view(items@) =~= Seq::<SpecQuestion>::empty());
    }
    while i < count
        invariant
            buf == old(parser).input(),
            pos == old(parser).cursor(),
            parser.input() == buf,
            i <= count,
            questions_at(buf, pos, i as nat) == Ok::<(Seq<SpecQuestion>, int), Failure>(
                (questions_view(items@), parser.cursor()),
            ),
        decreases count - i,
    {
        match Question::from_wire_entity(parser) {
            Ok(q) => {
                let ghost before = items@;
                items.push(q);
                proof {
                    assert(questions_view(items@) =~= questions_view(before).push(q@));
                }
                i = i + 1;
            },
            Err(e) => {
                proof {
                    lemma_questions_error_persists(buf, pos, (i + 1) as nat, count as nat);
                }
                return Err(e);
            },
        }
    }
    Ok(items)
}

/// Reads `count` resource records.
fn parse_records(parser: &mut Parser, count: u16) -> (res: Result<Vec<ResourceRecord>, FromWireError>)
    ensures
        final(parser).input() == old(parser).input(),
        match records_at(old(parser).input(), old(parser).cursor(), count as nat) {
            Ok((rs, end)) => res matches Ok(v) && records_view(v@) == rs && final(parser).cursor() == end,
            Err((e, end)) => res == Err::<Vec<ResourceRecord>, FromWireError>(e) && final(parser).cursor() == end,
        },
{
    let ghost buf = parser.input();
    let ghost pos = parser.cursor();
    let mut items: Vec<ResourceRecord> = Vec::new();
    let mut i: u16 = 0;
    proof {
        assert(records_view(items@) =~= Seq::<SpecResourceRecord>::empty());
    }
    while i < count
        invariant
            buf == old(parser).input(),
            pos == old(parser).cursor(),
            parser.input() == buf,
            i <= count,
            records_at(buf, pos, i as nat) == Ok::<(Seq<SpecResourceRecord>, int), Failure>(
                (records_view(items@), parser.cursor()),
            ),
        decreases count - i,
    {
        match ResourceRecord::from_wire_entity(parser) {
            Ok(r) => {
                let ghost before = items@;
                items.push(r);
                proof {
                    assert(records_view(items@) =~= records_view(before).push(r@));
                }
                i = i + 1;
            },
            Err(e) => {
                proof {
                    lemma_records_error_persists(buf, pos, (i + 1) as nat, count as nat);
                }
                return Err(e);
            },
        }
    }
    Ok(items)
}

/// A decoded message, with the TC bit of its header: whether it was
/// truncated because it did not fit the transmission channel.
#[derive(Debug, PartialEq, Eq)]
pub struct FromWireResult {
    pub message: Message,
    pub truncation: bool,
}

/// The view of a [`FromWireResult`].
pub struct SpecFromWireResult {
    pub message: SpecMessage,
    pub truncation: bool,
}

impl View for FromWireResult {
    type V = SpecFromWireResult;

    open spec fn view(&self) -> SpecFromWireResult {
        SpecFromWireResult { message: self.message@, truncation: self.truncation }
    }
}

/// RFC 1035 - Section 4.1: the message that `buf` holds. The header takes
/// the first 12 octets; the question, answer, authority and additional
/// sections follow with as many entries as the header counts, and must end
/// exactly where the buffer ends.
pub open spec fn message_from_wire(buf: Seq<u8>) -> Result<SpecFromWireResult, FromWireError> {
    if buf.len() < 12 {
        Err(FromWireError::BufferTooShort)
    } else {
        match header_at(buf, 0) {
            Err((e, _)) => Err(e),
            Ok((h, p0)) => match questions_at(buf, p0, h.qdcount as nat) {
                Err((e, _)) => Err(e),
                Ok((question, p1)) => match records_at(buf, p1, h.ancount as nat) {
                    Err((e, _)) => Err(e),
                    Ok((answer, p2)) => match records_at(buf, p2, h.nscount as nat) {
                        Err((e, _)) => Err(e),
                        Ok((authority, p3)) => match records_at(buf, p3, h.arcount as nat) {
                            Err((e, _)) => Err(e),
                            Ok((additional, p4)) => if p4 != buf.len() {
                                Err(FromWireError::TrailingBytes)
                            } else {
                                Ok(SpecFromWireResult {
                                    message: SpecMessage {
                                        id: h.id,
                                        kind: h.kind,
                                        opcode: h.opcode,
                                        recursion_desired: h.recursion_desired,
                                        question,
                                        answer,
                                        authority,
                                        additional,
                                    },
                                    truncation: h.truncation,
                                })
                            },
                        },
                    },
                },
            },
        }
    }
}

/// Decoding of a whole message from its wire format.
pub trait FromWire {
    fn from_wire(buf: &[u8]) -> Result<FromWireResult, FromWireError>;
}

impl FromWire for Message {
    fn from_wire(buf: &[u8]) -> (res: Result<FromWireResult, FromWireError>)
        ensures
            match message_from_wire(buf@) {
                Ok(r) => res matches Ok(v) && v@ == r,
                Err(e) => res == Err::<FromWireResult, FromWireError>(e),
            },
    {
        if buf.len() < 12 {
            return Err(FromWireError::BufferTooShort);
        }
        let mut parser = Parser::new(buf);
        let header = Header::from_wire_entity(&mut parser)?;
        let question = parse_questions(&mut parser, header.qdcount)?;
        let answer = parse_records(&mut parser, header.ancount)?;
        let authority = parse_records(&mut parser, header.nscount)?;
        let additional = parse_records(&mut parser, header.arcount)?;

        if parser.pos != buf.len() {
            return Err(FromWireError::TrailingBytes);
        }
        let message = Message {
            id: header.id,
            kind: header.kind,
            opcode: header.opcode,
            recursion_desired: header.recursion_desired,
            question,
            answer,
            authority,
            additional,
        };
        Ok(FromWireResult { message, truncation: header.truncation })
    }
}

} // verus!

verus! {

// ---------------------------------------------------------------------------
// Numeric codes -> vocabulary values
// ---------------------------------------------------------------------------

/// RFC 1035 - Section 4.1.1
impl From<u8> for Opcode {
    fn from(opcode: u8) -> (res: Opcode) {
        match opcode {
            0u8 => Opcode::Standard,
            1u8 => Opcode::Inverse,
            2u8 => Opcode::Status,
            o => Opcode::Unknown(o),
        }
    }
}

impl vstd::std_specs::convert::FromSpecImpl<u8> for Opcode {
    open spec fn obeys_from_spec() -> bool {
        true
    }

    open spec fn from_spec(opcode: u8) -> Opcode {
        opcode_of(opcode)
    }
}

impl From<u16> for Opcode {
    fn from(opcode: u16) -> (res: Opcode) {
        Opcode::from(opcode as u8)
    }
}

impl vstd::std_specs::convert::FromSpecImpl<u16> for Opcode {
    open spec fn obeys_from_spec() -> bool {
        true
    }

    open spec fn from_spec(opcode: u16) -> Opcode {
        opcode_of(opcode as u8)
    }
}

/// RFC 1035 - Section 4.1.1
impl From<u8> for ResponseCode {
    fn from(response_code: u8) -> (res: ResponseCode) {
        match response_code {
            0u8 => ResponseCode::NoError,
            1u8 => ResponseCode::FormatError,
            2u8 => ResponseCode::ServerFailure,
            3u8 => ResponseCode::NameError,
            4u8 => ResponseCode::NotImplemented,
            5u8 => ResponseCode::Refused,
            c => ResponseCode::Unknown(c),
        }
    }
}

impl vstd::std_specs::convert::FromSpecImpl<u8> for ResponseCode {
    open spec fn obeys_from_spec() -> bool {
        true
    }

    open spec fn from_spec(response_code: u8) -> ResponseCode {
        response_code_of(response_code)
    }
}

impl From<u16> for ResponseCode {
    fn from(response_code: u16) -> (res: ResponseCode) {
        ResponseCode::from(response_code as u8)
    }
}

impl vstd::std_specs::convert::FromSpecImpl<u16> for ResponseCode {
    open spec fn obeys_from_spec() -> bool {
        true
    }

    open spec fn from_spec(response_code: u16) -> ResponseCode {
        response_code_of(response_code as u8)
    }
}

/// RFC 1035 - Section 3.2.4
impl From<u16> for RClass {
    fn from(class: u16) -> (res: RClass) {
        match class {
            1u16 => RClass::IN,
            2u16 => RClass::CS,
            3u16 => RClass::CH,
            4u16 => RClass::HS,
            c => RClass::Unknown(c),
        }
    }
}

impl vstd::std_specs::convert::FromSpecImpl<u16> for RClass {
    open spec fn obeys_from_spec() -> bool {
        true
    }

    open spec fn from_spec(class: u16) -> RClass {
        rclass_of(class)
    }
}

/// RFC 1035 - Section 3.2.5
impl From<u16> for QClass {
    fn from(qclass: u16) -> (res: QClass) {
        match qclass {
            255u16 => QClass::Any,
            c => QClass::RClass(RClass::from(c)),
        }
    }
}

impl vstd::std_specs::convert::FromSpecImpl<u16> for QClass {
    open spec fn obeys_from_spec() -> bool {
        true
    }

    open spec fn from_spec(qclass: u16) -> QClass {
        qclass_of(qclass)
    }
}

/// RFC 1035 - Section 3.2.2
impl From<u16> for RType {
    fn from(rtype: u16) -> (res: RType) {
        match rtype {
            1u16 => RType::A,
            2u16 => RType::NS,
            3u16 => RType::MD,
            4u16 => RType::MF,
            5u16 => RType::CNAME,
            6u16 => RType::SOA,
            7u16 => RType::MB,
            8u16 => RType::MG,
            9u16 => RType::MR,
            10u16 => RType::NULL,
            11u16 => RType::WKS,
            12u16 => RType::PTR,
            13u16 => RType::HINFO,
            14u16 => RType::MINFO,
            15u16 => RType::MX,
            16u16 => RType::TXT,
            t => RType::Unknown(t),
        }
    }
}

impl vstd::std_specs::convert::FromSpecImpl<u16> for RType {
    open spec fn obeys_from_spec() -> bool {
        true
    }

    open spec fn from_spec(rtype: u16) -> RType {
        rtype_of(rtype)
    }
}

/// RFC 1035 - Section 3.2.3
impl From<u16> for QType {
    fn from(qtype: u16) -> (res: QType) {
        match qtype {
            252u16 => QType::AXFR,
            253u16 => QType::MAILB,
            254u16 => QType::MAILA,
            255u16 => QType::Any,
            t => QType::RType(RType::from(t)),
        }
    }
}

impl vstd::std_specs::convert::FromSpecImpl<u16> for QType {
    open spec fn obeys_from_spec() -> bool {
        true
    }

    open spec fn from_spec(qtype: u16) -> QType {
        qtype_of(qtype)
    }
}

} // verus!
