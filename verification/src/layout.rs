//! Where each decoded field comes from in the buffer: properties that tie
//! the decoder's results to the octets they were read from.
use crate::from_wire::{
    be_u16, bit_set, character_string_at, domain_name_at, domain_name_field, header_at,
    message_from_wire, question_at, questions_at, rdata_at,
    records_at, resource_record_at, txt_strings_at, Failure, FromWireError,
};
use crate::wire::{header_info, message_wire, questions_wire};
use crate::message::{MessageKind, SpecMessage, SpecQuestion, SpecRecordData, SpecResourceRecord};
use crate::types::{opcode_code, opcode_of, response_code_of, qclass_of, qtype_of, rclass_of, rtype_code, rtype_of, RClass, RType};
use vstd::prelude::*;

verus! {

/// The 16 bit integer stored big-endian at `p`.
pub open spec fn int16_at(buf: Seq<u8>, p: int) -> int {
    buf[p] as int * 256 + buf[p + 1] as int
}

/// The 32 bit integer stored big-endian at `p`.
pub open spec fn int32_at(buf: Seq<u8>, p: int) -> int {
    buf[p] as int * 0x1000000 + buf[p + 1] as int * 0x10000 + buf[p + 2] as int * 0x100 + buf[p + 3] as int
}

/// RFC 1035 - Section 4.1.4: a compression pointer is two octets whose top
/// two bits are set and whose other fourteen bits hold an offset `q`; the
/// name it stands for is the one encoded at `q`, which must come before the
/// pointer, and reading goes on just past the pointer. This holds for every
/// offset, also those of 256 or more.
pub proof fn lemma_pointer_refers_to_offset(buf: Seq<u8>, pos: int, q: int, total: int, limit: nat)
    requires
        0 <= q < pos,
        q < 0x4000,
        pos + 1 < buf.len(),
        buf[pos] == 0xc0 + q / 256,
        buf[pos + 1] == q % 256,
    ensures
        domain_name_at(buf, pos, total, limit + 1) == match domain_name_at(buf, q, total, limit) {
            Ok((labels, _)) => Ok::<(Seq<Seq<u8>>, int), Failure>((labels, pos + 2)),
            Err((e, _)) => Err((e, pos + 2)),
        },
{
    assert((buf[pos] - 192) * 256 + buf[pos + 1] == q);
}

/// A pointer to a position at or after itself is refused.
pub proof fn lemma_forward_pointer_refused(buf: Seq<u8>, pos: int, q: int, total: int, limit: nat)
    requires
        0 <= pos <= q < 0x4000,
        pos + 1 < buf.len(),
        buf[pos] == 0xc0 + q / 256,
        buf[pos + 1] == q % 256,
    ensures
        domain_name_at(buf, pos, total, limit + 1) == Err::<(Seq<Seq<u8>>, int), Failure>(
            (crate::from_wire::FromWireError::InvalidDomainNamePointer, pos + 2),
        ),
{
    assert((buf[pos] - 192) * 256 + buf[pos + 1] == q);
}


/// RFC 1035 - Section 3.3: <character-string>s one after another, each a
/// length octet followed by that many octets.
pub open spec fn character_strings_bytes(strings: Seq<Seq<u8>>) -> Seq<u8>
    decreases strings.len(),
{
    if strings.len() == 0 {
        Seq::empty()
    } else {
        seq![strings[0].len() as u8] + strings[0] + character_strings_bytes(strings.drop_first())
    }
}

/// The strings that fill `remaining` octets are exactly those octets: each
/// string with its length octet, one after another.
pub proof fn lemma_txt_strings_fill(buf: Seq<u8>, pos: int, remaining: int)
    requires
        0 <= pos <= buf.len(),
        0 <= remaining,
    ensures
        txt_strings_at(buf, pos, remaining) matches Ok((strings, end)) ==> end == pos + remaining
            && end <= buf.len() && character_strings_bytes(strings) == buf.subrange(pos, end),
    decreases remaining,
{
    if remaining > 0 {
        if let Ok((s, next)) = character_string_at(buf, pos) {
            if remaining >= s.len() + 1 {
                lemma_txt_strings_fill(buf, next, remaining - (s.len() + 1));
                if let Ok((rest, end)) = txt_strings_at(buf, next, remaining - (s.len() + 1)) {
                    let strings = seq![s] + rest;
                    assert(strings[0] == s);
                    assert(strings.drop_first() =~= rest);
                    assert(s.len() == buf[pos]);
                    assert(buf.subrange(pos, end) =~= seq![buf[pos]] + s + buf.subrange(next, end));
                }
            }
        }
    } else {
        assert(buf.subrange(pos, pos) =~= Seq::<u8>::empty());
    }
}

/// RFC 1035 - Sections 3.3 and 3.4: what decoded record data holds, in terms
/// of the octets at `pos`: addresses, octet strings and bitmaps are those
/// octets, integers are read big-endian, names are the domain names encoded
/// there, TXT strings fill the whole data, and data of a fixed or declared
/// length ends there.
pub proof fn lemma_rdata_fields(buf: Seq<u8>, pos: int, rtype: RType, class: RClass, rdlength: u16)
    requires
        0 <= pos,
    ensures
        rdata_at(buf, pos, rtype, class, rdlength) matches Ok((data, end)) ==> pos <= end <= buf.len() && match data {
            SpecRecordData::A(a) => end == pos + 4 && a == buf.subrange(pos, end),
            SpecRecordData::NULL(d) => end == pos + rdlength && d == buf.subrange(pos, end),
            SpecRecordData::Unknown { rtype: t, rdata } => t == rtype_code(rtype) && end == pos + rdlength
                && rdata == buf.subrange(pos, end),
            SpecRecordData::WKS { address, protocol, bitmap } => end == pos + rdlength
                && address == buf.subrange(pos, pos + 4) && protocol == buf[pos + 4]
                && bitmap == buf.subrange(pos + 5, end),
            SpecRecordData::MX { preference, exchange } => preference == int16_at(buf, pos)
                && domain_name_field(buf, pos + 2) == Ok::<(Seq<Seq<u8>>, int), Failure>((exchange, end)),
            SpecRecordData::SOA { mname, rname, serial, refresh, retry, expire, minimum } => {
                &&& domain_name_field(buf, pos) matches Ok((m, p1)) && m == mname
                    && domain_name_field(buf, p1) == Ok::<(Seq<Seq<u8>>, int), Failure>((rname, end - 20))
                &&& serial == int32_at(buf, end - 20)
                &&& refresh == int32_at(buf, end - 16)
                &&& retry == int32_at(buf, end - 12)
                &&& expire == int32_at(buf, end - 8)
                &&& minimum == int32_at(buf, end - 4)
            },
            SpecRecordData::HINFO { cpu, os } => {
                let q = pos + 1 + buf[pos];
                &&& cpu == buf.subrange(pos + 1, q)
                &&& os == buf.subrange(q + 1, end)
                &&& end == q + 1 + buf[q]
            },
            SpecRecordData::MINFO { rmailbx, emailbx } => domain_name_field(buf, pos) matches Ok((r, p1))
                && r == rmailbx && domain_name_field(buf, p1) == Ok::<(Seq<Seq<u8>>, int), Failure>((emailbx, end)),
            SpecRecordData::TXT(strings) => strings.len() >= 1 && end == pos + rdlength
                && character_strings_bytes(strings) == buf.subrange(pos, end),
            SpecRecordData::CNAME(n) => domain_name_field(buf, pos) == Ok::<(Seq<Seq<u8>>, int), Failure>((n, end)),
            SpecRecordData::NS(n) => domain_name_field(buf, pos) == Ok::<(Seq<Seq<u8>>, int), Failure>((n, end)),
            SpecRecordData::MD(n) => domain_name_field(buf, pos) == Ok::<(Seq<Seq<u8>>, int), Failure>((n, end)),
            SpecRecordData::MF(n) => domain_name_field(buf, pos) == Ok::<(Seq<Seq<u8>>, int), Failure>((n, end)),
            SpecRecordData::MB(n) => domain_name_field(buf, pos) == Ok::<(Seq<Seq<u8>>, int), Failure>((n, end)),
            SpecRecordData::MG(n) => domain_name_field(buf, pos) == Ok::<(Seq<Seq<u8>>, int), Failure>((n, end)),
            SpecRecordData::MR(n) => domain_name_field(buf, pos) == Ok::<(Seq<Seq<u8>>, int), Failure>((n, end)),
            SpecRecordData::PTR(n) => domain_name_field(buf, pos) == Ok::<(Seq<Seq<u8>>, int), Failure>((n, end)),
        },
{
    if pos <= buf.len() {
        lemma_txt_strings_fill(buf, pos, rdlength as int);
    }
    lemma_name_end(buf, pos);
    if let Ok((_, p1)) = domain_name_field(buf, pos) {
        lemma_name_end(buf, p1);
    }
    if pos + 2 >= 0 {
        lemma_name_end(buf, pos + 2);
    }
}

/// A decoded domain name ends after where it starts, within the buffer.
pub proof fn lemma_name_end(buf: Seq<u8>, pos: int)
    ensures
        domain_name_field(buf, pos) matches Ok((_, end)) ==> pos < end <= buf.len(),
{
    lemma_name_end_at(buf, pos, 0, crate::from_wire::name_depth_limit());
}

proof fn lemma_name_end_at(buf: Seq<u8>, pos: int, total: int, limit: nat)
    ensures
        domain_name_at(buf, pos, total, limit) matches Ok((_, end)) ==> pos < end <= buf.len(),
    decreases limit, buf.len() - pos,
{
    if 0 <= pos < buf.len() && limit > 0 {
        let len = buf[pos];
        if len < 192 && len != 0 && len < 64 && pos + 1 + len <= buf.len() {
            lemma_name_end_at(buf, pos + 1 + len, total + len + 1, limit);
        }
    }
}


/// RFC 1035 - Section 4.1.3: a resource record is its owner name, then TYPE
/// and CLASS (16 bits each), TTL (32 bits) and RDLENGTH (16 bits), all
/// big-endian, then RDLENGTH octets of data of that type and class.
pub proof fn lemma_record_fields(buf: Seq<u8>, pos: int)
    ensures
        resource_record_at(buf, pos) matches Ok((r, end)) ==> domain_name_field(buf, pos) matches Ok((name, p)) && {
            &&& r.name == name
            &&& p + 10 <= buf.len()
            &&& r.class == rclass_of(int16_at(buf, p + 2) as u16)
            &&& r.ttl == int32_at(buf, p + 4)
            &&& end == p + 10 + int16_at(buf, p + 8)
            &&& rdata_at(buf, p + 10, rtype_of(int16_at(buf, p) as u16), r.class, int16_at(buf, p + 8) as u16)
                == Ok::<(SpecRecordData, int), Failure>((r.rdata, end))
        },
{
}

/// RFC 1035 - Section 4.1.2: a question is its name, then QTYPE and QCLASS
/// (16 bits each, big-endian).
pub proof fn lemma_question_fields(buf: Seq<u8>, pos: int)
    ensures
        question_at(buf, pos) matches Ok((q, end)) ==> domain_name_field(buf, pos) matches Ok((name, p)) && {
            &&& q.qname == name
            &&& end == p + 4
            &&& end <= buf.len()
            &&& q.qtype == qtype_of(int16_at(buf, p) as u16)
            &&& q.qclass == qclass_of(int16_at(buf, p + 2) as u16)
        },
{
}

/// A run of questions is read front to back: the first is the one at the
/// start, the others follow right after it.
pub proof fn lemma_questions_in_order(buf: Seq<u8>, pos: int, n: nat)
    ensures
        questions_at(buf, pos, n) matches Ok((qs, end)) ==> qs.len() == n && (n > 0 ==> (
            question_at(buf, pos) matches Ok((first, next)) && qs[0] == first
                && questions_at(buf, next, (n - 1) as nat)
                == Ok::<(Seq<SpecQuestion>, int), Failure>((qs.drop_first(), end)))),
    decreases n,
{
    if n > 1 {
        lemma_questions_in_order(buf, pos, (n - 1) as nat);
        if let Ok((prev, p)) = questions_at(buf, pos, (n - 1) as nat) {
            if let Ok((q, end)) = question_at(buf, p) {
                let (first, next) = question_at(buf, pos)->Ok_0;
                lemma_questions_append(buf, next, (n - 2) as nat, prev.drop_first(), p);
                assert(prev.push(q).drop_first() =~= prev.drop_first().push(q));
            }
        }
    } else if n == 1 {
        if let Ok((q, end)) = question_at(buf, pos) {
            assert(Seq::<SpecQuestion>::empty().push(q).drop_first() =~= Seq::<SpecQuestion>::empty());
        }
    }
}

proof fn lemma_questions_append(buf: Seq<u8>, pos: int, k: nat, qs: Seq<SpecQuestion>, p: int)
    requires
        questions_at(buf, pos, k) == Ok::<(Seq<SpecQuestion>, int), Failure>((qs, p)),
    ensures
        questions_at(buf, pos, k + 1) == match question_at(buf, p) {
            Ok((q, end)) => Ok::<(Seq<SpecQuestion>, int), Failure>((qs.push(q), end)),
            Err(f) => Err(f),
        },
{
}

/// A run of records is read front to back: the first is the one at the
/// start, the others follow right after it.
pub proof fn lemma_records_in_order(buf: Seq<u8>, pos: int, n: nat)
    ensures
        records_at(buf, pos, n) matches Ok((rs, end)) ==> rs.len() == n && (n > 0 ==> (
            resource_record_at(buf, pos) matches Ok((first, next)) && rs[0] == first
                && records_at(buf, next, (n - 1) as nat)
                == Ok::<(Seq<SpecResourceRecord>, int), Failure>((rs.drop_first(), end)))),
    decreases n,
{
    if n > 1 {
        lemma_records_in_order(buf, pos, (n - 1) as nat);
        if let Ok((prev, p)) = records_at(buf, pos, (n - 1) as nat) {
            if let Ok((r, end)) = resource_record_at(buf, p) {
                let (first, next) = resource_record_at(buf, pos)->Ok_0;
                assert(prev.push(r).drop_first() =~= prev.drop_first().push(r));
            }
        }
    } else if n == 1 {
        if let Ok((r, end)) = resource_record_at(buf, pos) {
            assert(Seq::<SpecResourceRecord>::empty().push(r).drop_first() =~= Seq::<SpecResourceRecord>::empty());
        }
    }
}


/// The flag bits of the header's information word, read from its two octets.
proof fn lemma_info_octets(b2: u8, b3: u8)
    ensures
        bit_set(be_u16(b2, b3), 0x8000) == (b2 >= 128),
        bit_set(be_u16(b2, b3), 0x400) == ((b2 / 4) % 2 == 1),
        bit_set(be_u16(b2, b3), 0x200) == ((b2 / 2) % 2 == 1),
        bit_set(be_u16(b2, b3), 0x100) == (b2 % 2 == 1),
        bit_set(be_u16(b2, b3), 0x80) == (b3 >= 128),
        (be_u16(b2, b3) / 0x800) % 16 == (b2 / 8) % 16,
        be_u16(b2, b3) % 16 == b3 % 16,
{
    let info = be_u16(b2, b3) as int;
    assert(info == b2 * 256 + b3);
    assert(info / 0x8000 == b2 / 128);
    assert(info / 0x400 == b2 / 4);
    assert(info / 0x200 == b2 / 2);
    assert(info / 0x100 == b2);
    assert(info / 0x80 == b2 * 2 + b3 / 128);
    assert(info / 0x800 == b2 / 8);
}

/// RFC 1035 - Section 4.1: what a decoded message holds, in terms of the
/// octets of the buffer. The header takes the first 12 octets: ID, then QR,
/// OPCODE, AA, TC and RD in the third octet, RA and RCODE in the fourth,
/// then QDCOUNT, ANCOUNT, NSCOUNT and ARCOUNT. The sections hold as many
/// entries as these counts and follow one another from octet 12 in the
/// order question, answer, authority, additional, up to the end of the
/// buffer.
pub proof fn lemma_message_layout(buf: Seq<u8>)
    ensures
        message_from_wire(buf) matches Ok(r) ==> {
            let m = r.message;
            &&& buf.len() >= 12
            &&& m.id == int16_at(buf, 0)
            &&& (m.kind is Response) == (buf[2] >= 128)
            &&& m.opcode == opcode_of(((buf[2] / 8) % 16) as u8)
            &&& r.truncation == ((buf[2] / 2) % 2 == 1)
            &&& m.recursion_desired == (buf[2] % 2 == 1)
            &&& match m.kind {
                MessageKind::Query => (buf[2] / 4) % 2 == 0 && buf[3] < 128 && buf[3] % 16 == 0,
                MessageKind::Response { authoritative, recursion_available, response_code } => {
                    &&& authoritative == ((buf[2] / 4) % 2 == 1)
                    &&& recursion_available == (buf[3] >= 128)
                    &&& response_code == response_code_of(buf[3] % 16)
                },
            }
            &&& m.question.len() == int16_at(buf, 4)
            &&& m.answer.len() == int16_at(buf, 6)
            &&& m.authority.len() == int16_at(buf, 8)
            &&& m.additional.len() == int16_at(buf, 10)
            &&& match questions_at(buf, 12, m.question.len()) {
                Err(_) => false,
                Ok((qs, p1)) => qs == m.question && match records_at(buf, p1, m.answer.len()) {
                    Err(_) => false,
                    Ok((an, p2)) => an == m.answer && match records_at(buf, p2, m.authority.len()) {
                        Err(_) => false,
                        Ok((ns, p3)) => ns == m.authority && records_at(buf, p3, m.additional.len())
                            == Ok::<(Seq<SpecResourceRecord>, int), Failure>((m.additional, buf.len() as int)),
                    },
                },
            }
        },
{
    if let Ok(r) = message_from_wire(buf) {
        lemma_info_octets(buf[2], buf[3]);
        let (h, p0) = header_at(buf, 0)->Ok_0;
        let (qs, p1) = questions_at(buf, p0, h.qdcount as nat)->Ok_0;
        let (an, p2) = records_at(buf, p1, h.ancount as nat)->Ok_0;
        let (ns, p3) = records_at(buf, p2, h.nscount as nat)->Ok_0;
        lemma_questions_in_order(buf, p0, h.qdcount as nat);
        lemma_records_in_order(buf, p1, h.ancount as nat);
        lemma_records_in_order(buf, p2, h.nscount as nat);
        lemma_records_in_order(buf, p3, h.arcount as nat);
    }
}


/// RFC 1035 - Section 3.1: a zero octet is the root label, which ends a
/// name; an octet from 1 to 63 is the length of the label that follows it,
/// after which the name goes on (while it stays within 255 octets).
pub proof fn lemma_label_layout(buf: Seq<u8>, pos: int, total: int, limit: nat)
    requires
        0 <= pos < buf.len(),
        limit > 0,
    ensures
        buf[pos] == 0 ==> domain_name_at(buf, pos, total, limit)
            == Ok::<(Seq<Seq<u8>>, int), Failure>((Seq::empty(), pos + 1)),
        1 <= buf[pos] <= 63 && pos + 1 + buf[pos] <= buf.len() && total + buf[pos] + 2 <= 255 ==> (
            domain_name_at(buf, pos, total, limit) == match domain_name_at(buf, pos + 1 + buf[pos], total + buf[pos] + 1, limit) {
                Ok((rest, end)) => Ok::<(Seq<Seq<u8>>, int), Failure>(
                    (seq![buf.subrange(pos + 1, pos + 1 + buf[pos])] + rest, end)),
                Err(f) => Err(f),
            }),
        64 <= buf[pos] < 192 ==> domain_name_at(buf, pos, total, limit) == Err::<(Seq<Seq<u8>>, int), Failure>(
            (FromWireError::LabelTooLong, pos + 1)),
        1 <= buf[pos] <= 63 && pos + 1 + buf[pos] <= buf.len() && total + buf[pos] + 2 > 255 ==> domain_name_at(
            buf, pos, total, limit) == Err::<(Seq<Seq<u8>>, int), Failure>(
            (FromWireError::DomainNameTooLong, pos + 1 + buf[pos])),
{
}

/// When decoding a whole message fails for want of octets, for a bad
/// header, or for octets left over.
pub proof fn lemma_message_errors(buf: Seq<u8>)
    ensures
        (message_from_wire(buf) == Err::<crate::from_wire::SpecFromWireResult, FromWireError>(FromWireError::BufferTooShort))
            <==> buf.len() < 12,
        buf.len() >= 12 ==> ((message_from_wire(buf) == Err::<crate::from_wire::SpecFromWireResult, FromWireError>(
            FromWireError::InvalidHeader)) <==> (buf[2] < 128 && ((buf[2] / 4) % 2 == 1 || buf[3] >= 128 || buf[3] % 16 != 0))),
{
    if buf.len() >= 12 {
        lemma_info_octets(buf[2], buf[3]);
        // No later step fails with InvalidHeader.
        lemma_no_invalid_header_after(buf);
    }
}

/// Past the header, no step of decoding a message reports a bad header or
/// a short buffer.
proof fn lemma_no_invalid_header_after(buf: Seq<u8>)
    requires
        buf.len() >= 12,
    ensures
        header_at(buf, 0) is Ok ==> message_from_wire(buf) != Err::<crate::from_wire::SpecFromWireResult, FromWireError>(
            FromWireError::InvalidHeader) && message_from_wire(buf) != Err::<crate::from_wire::SpecFromWireResult, FromWireError>(
            FromWireError::BufferTooShort),
{
    if let Ok((h, p0)) = header_at(buf, 0) {
        lemma_questions_errors(buf, p0, h.qdcount as nat);
        if let Ok((_, p1)) = questions_at(buf, p0, h.qdcount as nat) {
            lemma_records_errors(buf, p1, h.ancount as nat);
            if let Ok((_, p2)) = records_at(buf, p1, h.ancount as nat) {
                lemma_records_errors(buf, p2, h.nscount as nat);
                if let Ok((_, p3)) = records_at(buf, p2, h.nscount as nat) {
                    lemma_records_errors(buf, p3, h.arcount as nat);
                }
            }
        }
    }
}

proof fn lemma_name_errors(buf: Seq<u8>, pos: int, total: int, limit: nat)
    ensures
        domain_name_at(buf, pos, total, limit) matches Err((e, _)) ==> e != FromWireError::InvalidHeader && e != FromWireError::BufferTooShort,
    decreases limit, buf.len() - pos,
{
    if 0 <= pos < buf.len() && limit > 0 {
        let len = buf[pos];
        if len >= 192 {
            if pos + 1 < buf.len() {
                let offset = (len - 192) * 256 + buf[pos + 1];
                if offset < pos {
                    lemma_name_errors(buf, offset, total, (limit - 1) as nat);
                }
            }
        } else if len != 0 && len < 64 && pos + 1 + len <= buf.len() {
            lemma_name_errors(buf, pos + 1 + len, total + len + 1, limit);
        }
    }
}

proof fn lemma_txt_errors(buf: Seq<u8>, pos: int, remaining: int)
    ensures
        txt_strings_at(buf, pos, remaining) matches Err((e, _)) ==> e != FromWireError::InvalidHeader && e != FromWireError::BufferTooShort,
    decreases remaining,
{
    if remaining > 0 {
        if let Ok((s, next)) = character_string_at(buf, pos) {
            if remaining >= s.len() + 1 {
                lemma_txt_errors(buf, next, remaining - (s.len() + 1));
            }
        }
    }
}

proof fn lemma_record_errors(buf: Seq<u8>, pos: int)
    ensures
        resource_record_at(buf, pos) matches Err((e, _)) ==> e != FromWireError::InvalidHeader && e != FromWireError::BufferTooShort,
{
    lemma_name_errors(buf, pos, 0, crate::from_wire::name_depth_limit());
    if let Ok((_, p)) = domain_name_field(buf, pos) {
        let start = p + 10;
        lemma_name_errors(buf, start, 0, crate::from_wire::name_depth_limit());
        lemma_name_errors(buf, start + 2, 0, crate::from_wire::name_depth_limit());
        if let Ok((_, p1)) = domain_name_field(buf, start) {
            lemma_name_errors(buf, p1, 0, crate::from_wire::name_depth_limit());
        }
        if let Some(rdlength) = crate::from_wire::u16_at(buf, p + 8) {
            lemma_txt_errors(buf, start, rdlength as int);
        }
    }
}

proof fn lemma_questions_errors(buf: Seq<u8>, pos: int, n: nat)
    ensures
        questions_at(buf, pos, n) matches Err((e, _)) ==> e != FromWireError::InvalidHeader && e != FromWireError::BufferTooShort,
    decreases n,
{
    if n > 0 {
        lemma_questions_errors(buf, pos, (n - 1) as nat);
        if let Ok((_, p)) = questions_at(buf, pos, (n - 1) as nat) {
            lemma_name_errors(buf, p, 0, crate::from_wire::name_depth_limit());
        }
    }
}

proof fn lemma_records_errors(buf: Seq<u8>, pos: int, n: nat)
    ensures
        records_at(buf, pos, n) matches Err((e, _)) ==> e != FromWireError::InvalidHeader && e != FromWireError::BufferTooShort,
    decreases n,
{
    if n > 0 {
        lemma_records_errors(buf, pos, (n - 1) as nat);
        if let Ok((_, p)) = records_at(buf, pos, (n - 1) as nat) {
            lemma_record_errors(buf, p);
        }
    }
}

/// RFC 1035 - Section 4.1.1: the header the encoder writes: the ID, the
/// information word, then QDCOUNT (the number of questions), then ANCOUNT,
/// NSCOUNT and ARCOUNT (the sizes of a response's sections, zero in a
/// query), each 16 bits big-endian; the questions follow.
pub proof fn lemma_message_wire_header(m: SpecMessage, truncation: bool)
    ensures
        message_wire(m, truncation).1 is Ok ==> {
            let w = message_wire(m, truncation).0;
            &&& w.len() == 12 + questions_wire(m.question).0.len()
            &&& int16_at(w, 0) == m.id
            &&& int16_at(w, 2) == header_info(m, truncation)
            &&& int16_at(w, 4) == m.question.len()
            &&& int16_at(w, 6) == if m.kind is Response { m.answer.len() } else { 0 }
            &&& int16_at(w, 8) == if m.kind is Response { m.authority.len() } else { 0 }
            &&& int16_at(w, 10) == if m.kind is Response { m.additional.len() } else { 0 }
            &&& w.subrange(12, w.len() as int) == questions_wire(m.question).0
        },
{
    if message_wire(m, truncation).1 is Ok {
        let w = message_wire(m, truncation).0;
        assert(w.subrange(12, w.len() as int) =~= questions_wire(m.question).0);
    }
}

} // verus!
