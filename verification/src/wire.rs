//! Encoding of DNS messages into their wire format (RFC 1035 - Section 4).
use crate::message::{
    labels_view, questions_view, rdata_rtype, DomainName, Message, MessageKind, Question,
    ResourceRecordData, SpecMessage, SpecQuestion,
};
use crate::types::{
    opcode_code, qclass_code, qtype_code, rclass_code, response_code_code, rtype_code, Opcode,
    QClass, QType, RClass, RType, ResponseCode,
};
use vstd::prelude::*;

verus! {

/// Why a message cannot be put in wire format.
#[derive(Debug, Copy, Clone)]
pub enum ToWireError<'a> {
    TooManyQuestionRecords,
    TooManyAnswerRecords,
    TooManyAuthorityRecords,
    TooManyAdditionalRecords,
    LabelTooLong(&'a [u8]),
}

/// The view of a [`ToWireError`]: the offending label as a sequence.
pub enum SpecToWireError {
    TooManyQuestionRecords,
    TooManyAnswerRecords,
    TooManyAuthorityRecords,
    TooManyAdditionalRecords,
    LabelTooLong(Seq<u8>),
}

impl<'a> View for ToWireError<'a> {
    type V = SpecToWireError;

    open spec fn view(&self) -> SpecToWireError {
        match self {
            ToWireError::TooManyQuestionRecords => SpecToWireError::TooManyQuestionRecords,
            ToWireError::TooManyAnswerRecords => SpecToWireError::TooManyAnswerRecords,
            ToWireError::TooManyAuthorityRecords => SpecToWireError::TooManyAuthorityRecords,
            ToWireError::TooManyAdditionalRecords => SpecToWireError::TooManyAdditionalRecords,
            ToWireError::LabelTooLong(label) => SpecToWireError::LabelTooLong(label@),
        }
    }
}

/// The outcome of an encoding, as a view.
pub open spec fn outcome_view(res: Result<(), ToWireError>) -> Result<(), SpecToWireError> {
    match res {
        Ok(()) => Ok(()),
        Err(e) => Err(e@),
    }
}

/// What encoding writes, and whether it succeeds. Encoding appends to the
/// buffer as it goes, so on failure what was written before stays.
pub type Written = (Seq<u8>, Result<(), SpecToWireError>);

/// A 16 bit integer in network (big-endian) byte order.
pub open spec fn u16_bytes(v: u16) -> Seq<u8> {
    seq![(v / 256) as u8, (v % 256) as u8]
}

/// One label: its length octet, then its octets.
pub open spec fn label_bytes(label: Seq<u8>) -> Seq<u8> {
    seq![label.len() as u8] + label
}

/// RFC 1035 - Section 3.1: a domain name is its labels, each a length octet
/// followed by that many octets, ended by a zero octet. A label of 64
/// octets or more has no such form: encoding stops there with an error.
pub open spec fn name_wire(labels: Seq<Seq<u8>>) -> Written
    decreases labels.len(),
{
    if labels.len() == 0 {
        (seq![0u8], Ok(()))
    } else if labels[0].len() >= 64 {
        (Seq::empty(), Err(SpecToWireError::LabelTooLong(labels[0])))
    } else {
        let rest = name_wire(labels.drop_first());
        (label_bytes(labels[0]) + rest.0, rest.1)
    }
}

/// RFC 1035 - Section 4.1.2: a question is its name, then its type and class.
pub open spec fn question_wire(q: SpecQuestion) -> Written {
    let name = name_wire(q.qname);
    if name.1 is Err {
        name
    } else {
        (name.0 + u16_bytes(qtype_code(q.qtype)) + u16_bytes(qclass_code(q.qclass)), Ok(()))
    }
}

/// Questions one after another, stopping at the first that cannot be encoded.
pub open spec fn questions_wire(qs: Seq<SpecQuestion>) -> Written
    decreases qs.len(),
{
    if qs.len() == 0 {
        (Seq::empty(), Ok(()))
    } else {
        let first = question_wire(qs[0]);
        if first.1 is Err {
            first
        } else {
            let rest = questions_wire(qs.drop_first());
            (first.0 + rest.0, rest.1)
        }
    }
}

/// `b` as a 16 bit integer.
pub open spec fn flag(b: bool) -> u16 {
    if b {
        1
    } else {
        0
    }
}

/// RFC 1035 - Section 4.1.1: the second 16 bit word of the header: QR
/// (bit 15), OPCODE (bits 11 to 14), AA (10), TC (9), RD (8), RA (7) and
/// RCODE (bits 0 to 3). OPCODE and RCODE are four bit fields: each code is
/// cut to its low four bits, so it never reaches another field.
pub open spec fn header_info(m: SpecMessage, truncation: bool) -> u16 {
    let info = (opcode_code(m.opcode) as u16 & 0xfu16) << 11u16 | flag(truncation) << 9u16 | flag(m.recursion_desired) << 8u16;
    match m.kind {
        MessageKind::Query => info,
        MessageKind::Response { authoritative, recursion_available, response_code } => info | (1u16 << 15u16
            | flag(authoritative) << 10u16 | flag(recursion_available) << 7u16
            | (response_code_code(response_code) as u16 & 0xfu16)),
    }
}

/// RFC 1035 - Section 4.1: a message is its 12 octet header (ID, the
/// information word, then the QDCOUNT, ANCOUNT, NSCOUNT and ARCOUNT
/// section counts) followed by its question section. A query counts no
/// records; a response counts those of its sections. A section of more
/// than 65535 entries cannot be counted: encoding stops there with an error.
pub open spec fn message_wire(m: SpecMessage, truncation: bool) -> Written {
    let start = u16_bytes(m.id) + u16_bytes(header_info(m, truncation));
    if m.question.len() > 0xffff {
        (start, Err(SpecToWireError::TooManyQuestionRecords))
    } else {
        let start = start + u16_bytes(m.question.len() as u16);
        let counts: Result<(u16, u16, u16), SpecToWireError> = match m.kind {
            MessageKind::Query => Ok((0u16, 0u16, 0u16)),
            MessageKind::Response { .. } => if m.answer.len() > 0xffff {
                Err(SpecToWireError::TooManyAnswerRecords)
            } else if m.authority.len() > 0xffff {
                Err(SpecToWireError::TooManyAuthorityRecords)
            } else if m.additional.len() > 0xffff {
                Err(SpecToWireError::TooManyAdditionalRecords)
            } else {
                Ok((m.answer.len() as u16, m.authority.len() as u16, m.additional.len() as u16))
            },
        };
        match counts {
            Err(e) => (start, Err(e)),
            Ok((an, ns, ar)) => {
                let questions = questions_wire(m.question);
                (start + u16_bytes(an) + u16_bytes(ns) + u16_bytes(ar) + questions.0, questions.1)
            },
        }
    }
}

/// Appends `v` in network byte order.
fn push_u16(buf: &mut Vec<u8>, v: u16)
    ensures
        final(buf)@ == old(buf)@ + u16_bytes(v),
{
    buf.push((v / 256) as u8);
    buf.push((v % 256) as u8);
    proof {
        assert(final(buf)@ =~= old(buf)@ + u16_bytes(v));
    }
}

/// Encoding of an entity into wire format, appended to a buffer.
pub trait ToWire {
    fn to_wire(&self, buf: &mut Vec<u8>) -> Result<(), ToWireError>;
}

/// The header information word of `message` (RFC 1035 - Section 4.1.1).
fn extract_header_info(message: &Message, truncation: bool) -> (info: u16)
    ensures
        info == header_info(message@, truncation),
{
    let mut info = (u16::from(message.opcode) & 0xfu16) << 11u16
        | (if truncation { 1u16 } else { 0u16 }) << 9u16
        | (if message.recursion_desired { 1u16 } else { 0u16 }) << 8u16;

    if let MessageKind::Response { authoritative, recursion_available, response_code } = message.kind {
        info = info | (1u16 << 15u16
            | (if authoritative { 1u16 } else { 0u16 }) << 10u16
            | (if recursion_available { 1u16 } else { 0u16 }) << 7u16
            | (u16::from(response_code) & 0xfu16));
    }
    info
}

impl ToWire for DomainName {
    fn to_wire(&self, buf: &mut Vec<u8>) -> (res: Result<(), ToWireError<'_>>)
        ensures
            final(buf)@ == old(buf)@ + name_wire(labels_view(self@)).0,
            outcome_view(res) == name_wire(labels_view(self@)).1,
    {
        let ghost labels = labels_view(self@);
        let mut i: usize = 0;
        assert(labels.skip(0) == labels);
        while i < self.len()
            invariant
                labels == labels_view(self@),
                i <= self.len(),
                old(buf)@ + name_wire(labels).0 == buf@ + name_wire(labels.skip(i as int)).0,
                name_wire(labels).1 == name_wire(labels.skip(i as int)).1,
            decreases self.len() - i,
        {
            let label = &self[i];
            proof {
                assert(labels.skip(i as int)[0] == label@);
                assert(labels.skip(i as int).drop_first() == labels.skip(i + 1));
            }
            if label.len() >= 64 {
                return Err(ToWireError::LabelTooLong(label.as_slice()));
            }
            let ghost before = buf@;
            buf.push(label.len() as u8);
            let mut j: usize = 0;
            while j < label.len()
                invariant
                    j <= label.len() < 64,
                    buf@ == before + seq![label.len() as u8] + label@.take(j as int),
                decreases label.len() - j,
            {
                buf.push(label[j]);
                proof {
                    assert(label@.take(j + 1) == label@.take(j as int).push(label@[j as int]));
                }
                j = j + 1;
            }
            proof {
                assert(label@.take(j as int) == label@);
                let rest = name_wire(labels.skip(i + 1)).0;
                assert(before + label_bytes(label@) + rest == before + (label_bytes(label@) + rest));
            }
            i = i + 1;
        }
        buf.push(0u8);
        proof {
            assert(labels.skip(i as int).len() == 0);
        }
        Ok(())
    }
}

impl ToWire for Question {
    fn to_wire(&self, buf: &mut Vec<u8>) -> (res: Result<(), ToWireError<'_>>)
        ensures
            final(buf)@ == old(buf)@ + question_wire(self@).0,
            outcome_view(res) == question_wire(self@).1,
    {
        self.qname.to_wire(buf)?;
        push_u16(buf, u16::from(self.qtype));
        push_u16(buf, u16::from(self.qclass));
        proof {
            let name = name_wire(self@.qname).0;
            assert(old(buf)@ + name + u16_bytes(qtype_code(self.qtype)) + u16_bytes(qclass_code(self.qclass))
                == old(buf)@ + (name + u16_bytes(qtype_code(self.qtype)) + u16_bytes(qclass_code(self.qclass))));
        }
        Ok(())
    }
}


/// Appends the questions one after another, stopping at the first that
/// cannot be encoded.
fn questions_to_wire<'a>(questions: &'a Vec<Question>, buf: &mut Vec<u8>) -> (res: Result<(), ToWireError<'a>>)
    ensures
        final(buf)@ == old(buf)@ + questions_wire(questions_view(questions@)).0,
        outcome_view(res) == questions_wire(questions_view(questions@)).1,
{
    let ghost qs = questions_view(questions@);
    let mut i: usize = 0;
    assert(qs.skip(0) == qs);
    while i < questions.len()
        invariant
            qs == questions_view(questions@),
            i <= questions.len(),
            old(buf)@ + questions_wire(qs).0 == buf@ + questions_wire(qs.skip(i as int)).0,
            questions_wire(qs).1 == questions_wire(qs.skip(i as int)).1,
        decreases questions.len() - i,
    {
        let ghost before = buf@;
        proof {
            assert(qs.skip(i as int)[0] == questions@[i as int]@);
            assert(qs.skip(i as int).drop_first() == qs.skip(i + 1));
        }
        questions[i].to_wire(buf)?;
        proof {
            let rest = questions_wire(qs.skip(i + 1)).0;
            let first = question_wire(questions@[i as int]@).0;
            assert(before + first + rest == before + (first + rest));
        }
        i = i + 1;
    }
    proof {
        assert(qs.skip(i as int).len() == 0);
        assert(buf@ + Seq::<u8>::empty() == buf@);
    }
    Ok(())
}

impl ToWire for Message {
    /// Encodes the header and the question section; the TC bit is clear.
    fn to_wire(&self, buf: &mut Vec<u8>) -> (res: Result<(), ToWireError<'_>>)
        ensures
            final(buf)@ == old(buf)@ + message_wire(self@, false).0,
            outcome_view(res) == message_wire(self@, false).1,
    {
        // Header section
        push_u16(buf, self.id);
        let info = extract_header_info(self, false);
        push_u16(buf, info);
        let ghost start = u16_bytes(self.id) + u16_bytes(info);
        assert(buf@ == old(buf)@ + start);

        if self.question.len() > 0xffff {
            return Err(ToWireError::TooManyQuestionRecords);
        }
        let qd_count = self.question.len() as u16;
        push_u16(buf, qd_count);
        let ghost start = start + u16_bytes(qd_count);
        assert(buf@ == old(buf)@ + start);

        let (an_count, ns_count, ar_count) = match self.kind {
            MessageKind::Query => (0u16, 0u16, 0u16),
            MessageKind::Response { .. } => {
                if self.answer.len() > 0xffff {
                    return Err(ToWireError::TooManyAnswerRecords);
                }
                if self.authority.len() > 0xffff {
                    return Err(ToWireError::TooManyAuthorityRecords);
                }
                if self.additional.len() > 0xffff {
                    return Err(ToWireError::TooManyAdditionalRecords);
                }
                (self.answer.len() as u16, self.authority.len() as u16, self.additional.len() as u16)
            },
        };
        push_u16(buf, an_count);
        push_u16(buf, ns_count);
        push_u16(buf, ar_count);
        let ghost start = start + u16_bytes(an_count) + u16_bytes(ns_count) + u16_bytes(ar_count);
        assert(buf@ == old(buf)@ + start);

        // Question section
        let res = questions_to_wire(&self.question, buf);
        proof {
            let q = questions_wire(questions_view(self.question@)).0;
            assert(old(buf)@ + start + q == old(buf)@ + (start + q));
        }
        res
    }
}

} // verus!

verus! {

// ---------------------------------------------------------------------------
// Vocabulary values -> numeric codes
// ---------------------------------------------------------------------------

impl From<Opcode> for u8 {
    fn from(opcode: Opcode) -> (code: u8) {
        match opcode {
            Opcode::Standard => 0u8,
            Opcode::Inverse => 1u8,
            Opcode::Status => 2u8,
            Opcode::Unknown(o) => o,
        }
    }
}

impl vstd::std_specs::convert::FromSpecImpl<Opcode> for u8 {
    open spec fn obeys_from_spec() -> bool {
        true
    }

    open spec fn from_spec(opcode: Opcode) -> u8 {
        opcode_code(opcode)
    }
}

impl From<Opcode> for u16 {
    fn from(opcode: Opcode) -> (code: u16) {
        u8::from(opcode) as u16
    }
}

impl vstd::std_specs::convert::FromSpecImpl<Opcode> for u16 {
    open spec fn obeys_from_spec() -> bool {
        true
    }

    open spec fn from_spec(opcode: Opcode) -> u16 {
        opcode_code(opcode) as u16
    }
}

impl From<ResponseCode> for u8 {
    fn from(response_code: ResponseCode) -> (code: u8) {
        match response_code {
            ResponseCode::NoError => 0u8,
            ResponseCode::FormatError => 1u8,
            ResponseCode::ServerFailure => 2u8,
            ResponseCode::NameError => 3u8,
            ResponseCode::NotImplemented => 4u8,
            ResponseCode::Refused => 5u8,
            ResponseCode::Unknown(c) => c,
        }
    }
}

impl vstd::std_specs::convert::FromSpecImpl<ResponseCode> for u8 {
    open spec fn obeys_from_spec() -> bool {
        true
    }

    open spec fn from_spec(response_code: ResponseCode) -> u8 {
        response_code_code(response_code)
    }
}

impl From<ResponseCode> for u16 {
    fn from(response_code: ResponseCode) -> (code: u16) {
        u8::from(response_code) as u16
    }
}

impl vstd::std_specs::convert::FromSpecImpl<ResponseCode> for u16 {
    open spec fn obeys_from_spec() -> bool {
        true
    }

    open spec fn from_spec(response_code: ResponseCode) -> u16 {
        response_code_code(response_code) as u16
    }
}

impl From<RClass> for u16 {
    fn from(class: RClass) -> (code: u16) {
        match class {
            RClass::IN => 1u16,
            RClass::CS => 2u16,
            RClass::CH => 3u16,
            RClass::HS => 4u16,
            RClass::Unknown(c) => c,
        }
    }
}

impl vstd::std_specs::convert::FromSpecImpl<RClass> for u16 {
    open spec fn obeys_from_spec() -> bool {
        true
    }

    open spec fn from_spec(class: RClass) -> u16 {
        rclass_code(class)
    }
}

impl From<QClass> for u16 {
    fn from(qclass: QClass) -> (code: u16) {
        match qclass {
            QClass::RClass(c) => u16::from(c),
            QClass::Any => 255u16,
        }
    }
}

impl vstd::std_specs::convert::FromSpecImpl<QClass> for u16 {
    open spec fn obeys_from_spec() -> bool {
        true
    }

    open spec fn from_spec(qclass: QClass) -> u16 {
        qclass_code(qclass)
    }
}

impl From<RType> for u16 {
    fn from(rtype: RType) -> (code: u16) {
        match rtype {
            RType::A => 1u16,
            RType::NS => 2u16,
            RType::MD => 3u16,
            RType::MF => 4u16,
            RType::CNAME => 5u16,
            RType::SOA => 6u16,
            RType::MB => 7u16,
            RType::MG => 8u16,
            RType::MR => 9u16,
            RType::NULL => 10u16,
            RType::WKS => 11u16,
            RType::PTR => 12u16,
            RType::HINFO => 13u16,
            RType::MINFO => 14u16,
            RType::MX => 15u16,
            RType::TXT => 16u16,
            RType::Unknown(t) => t,
        }
    }
}

impl vstd::std_specs::convert::FromSpecImpl<RType> for u16 {
    open spec fn obeys_from_spec() -> bool {
        true
    }

    open spec fn from_spec(rtype: RType) -> u16 {
        rtype_code(rtype)
    }
}

impl From<QType> for u16 {
    fn from(qtype: QType) -> (code: u16) {
        match qtype {
            QType::RType(t) => u16::from(t),
            QType::AXFR => 252u16,
            QType::MAILB => 253u16,
            QType::MAILA => 254u16,
            QType::Any => 255u16,
        }
    }
}

impl vstd::std_specs::convert::FromSpecImpl<QType> for u16 {
    open spec fn obeys_from_spec() -> bool {
        true
    }

    open spec fn from_spec(qtype: QType) -> u16 {
        qtype_code(qtype)
    }
}

impl<'a> From<&'a ResourceRecordData> for u16 {
    fn from(record: &'a ResourceRecordData) -> (code: u16) {
        u16::from(RType::from(record))
    }
}

impl<'a> vstd::std_specs::convert::FromSpecImpl<&'a ResourceRecordData> for u16 {
    open spec fn obeys_from_spec() -> bool {
        true
    }

    open spec fn from_spec(record: &'a ResourceRecordData) -> u16 {
        rtype_code(rdata_rtype(record@))
    }
}

} // verus!
