//! Properties that hold across the decoder and the encoder.
use crate::types::{
    opcode_canonical, opcode_code, opcode_of, qclass_canonical, qclass_code, qclass_of,
    qtype_canonical, qtype_code, qtype_of, rclass_canonical, rclass_code, rclass_of,
    response_code_canonical, response_code_code, response_code_of, rtype_canonical, rtype_code,
    rtype_of, Opcode, QClass, QType, RClass, RType, ResponseCode,
};
use crate::from_wire::{
    be_u16, bit_set, domain_name_at, domain_name_field, header_at, message_from_wire,
    name_depth_limit, question_at, questions_at, rdata_at, records_at, single_name_rdata,
    u16_at, SpecFromWireResult,
};
use crate::message::{rdata_rtype, MessageKind, SpecMessage, SpecQuestion};
use crate::wire::{
    flag, header_info, label_bytes, message_wire, name_wire, question_wire, questions_wire,
    u16_bytes,
};
use vstd::prelude::*;

verus! {

/// RFC 1035 - Section 3.2.2: the TYPE codes. Every code without a name
/// stands for itself, and each named type is written with its code.
pub proof fn lemma_rtype_table()
    ensures
        rtype_of(1) == RType::A && rtype_code(RType::A) == 1,
        rtype_of(2) == RType::NS && rtype_code(RType::NS) == 2,
        rtype_of(3) == RType::MD && rtype_code(RType::MD) == 3,
        rtype_of(4) == RType::MF && rtype_code(RType::MF) == 4,
        rtype_of(5) == RType::CNAME && rtype_code(RType::CNAME) == 5,
        rtype_of(6) == RType::SOA && rtype_code(RType::SOA) == 6,
        rtype_of(7) == RType::MB && rtype_code(RType::MB) == 7,
        rtype_of(8) == RType::MG && rtype_code(RType::MG) == 8,
        rtype_of(9) == RType::MR && rtype_code(RType::MR) == 9,
        rtype_of(10) == RType::NULL && rtype_code(RType::NULL) == 10,
        rtype_of(11) == RType::WKS && rtype_code(RType::WKS) == 11,
        rtype_of(12) == RType::PTR && rtype_code(RType::PTR) == 12,
        rtype_of(13) == RType::HINFO && rtype_code(RType::HINFO) == 13,
        rtype_of(14) == RType::MINFO && rtype_code(RType::MINFO) == 14,
        rtype_of(15) == RType::MX && rtype_code(RType::MX) == 15,
        rtype_of(16) == RType::TXT && rtype_code(RType::TXT) == 16,
        forall|c: u16| !(1 <= c <= 16) ==> #[trigger] rtype_of(c) == RType::Unknown(c),
        forall|c: u16| #[trigger] rtype_code(RType::Unknown(c)) == c,
{
}

/// RFC 1035 - Section 3.2.3: the QTYPE codes: AXFR 252, MAILB 253, MAILA
/// 254 and * 255; every other code is the TYPE of that code.
pub proof fn lemma_qtype_table()
    ensures
        qtype_of(252) == QType::AXFR && qtype_code(QType::AXFR) == 252,
        qtype_of(253) == QType::MAILB && qtype_code(QType::MAILB) == 253,
        qtype_of(254) == QType::MAILA && qtype_code(QType::MAILA) == 254,
        qtype_of(255) == QType::Any && qtype_code(QType::Any) == 255,
        forall|c: u16| !(252 <= c <= 255) ==> #[trigger] qtype_of(c) == QType::RType(rtype_of(c)),
        forall|t: RType| #[trigger] qtype_code(QType::RType(t)) == rtype_code(t),
{
}

/// RFC 1035 - Section 3.2.4: the CLASS codes; every code without a name
/// stands for itself.
pub proof fn lemma_rclass_table()
    ensures
        rclass_of(1) == RClass::IN && rclass_code(RClass::IN) == 1,
        rclass_of(2) == RClass::CS && rclass_code(RClass::CS) == 2,
        rclass_of(3) == RClass::CH && rclass_code(RClass::CH) == 3,
        rclass_of(4) == RClass::HS && rclass_code(RClass::HS) == 4,
        forall|c: u16| !(1 <= c <= 4) ==> #[trigger] rclass_of(c) == RClass::Unknown(c),
        forall|c: u16| #[trigger] rclass_code(RClass::Unknown(c)) == c,
{
}

/// RFC 1035 - Section 3.2.5: the QCLASS codes: * is 255; every other code
/// is the CLASS of that code.
pub proof fn lemma_qclass_table()
    ensures
        qclass_of(255) == QClass::Any && qclass_code(QClass::Any) == 255,
        forall|c: u16| c != 255 ==> #[trigger] qclass_of(c) == QClass::RClass(rclass_of(c)),
        forall|c: RClass| #[trigger] qclass_code(QClass::RClass(c)) == rclass_code(c),
{
}

/// RFC 1035 - Section 4.1.1: the OPCODE codes (0 standard query, 1 inverse
/// query, 2 status request) and the RCODE codes (0 no error, 1 format
/// error, 2 server failure, 3 name error, 4 not implemented, 5 refused);
/// every other code stands for itself.
pub proof fn lemma_opcode_and_response_code_tables()
    ensures
        opcode_of(0) == Opcode::Standard && opcode_code(Opcode::Standard) == 0,
        opcode_of(1) == Opcode::Inverse && opcode_code(Opcode::Inverse) == 1,
        opcode_of(2) == Opcode::Status && opcode_code(Opcode::Status) == 2,
        forall|c: u8| c >= 3 ==> #[trigger] opcode_of(c) == Opcode::Unknown(c),
        forall|c: u8| #[trigger] opcode_code(Opcode::Unknown(c)) == c,
        response_code_of(0) == ResponseCode::NoError && response_code_code(ResponseCode::NoError) == 0,
        response_code_of(1) == ResponseCode::FormatError && response_code_code(ResponseCode::FormatError) == 1,
        response_code_of(2) == ResponseCode::ServerFailure && response_code_code(ResponseCode::ServerFailure) == 2,
        response_code_of(3) == ResponseCode::NameError && response_code_code(ResponseCode::NameError) == 3,
        response_code_of(4) == ResponseCode::NotImplemented && response_code_code(ResponseCode::NotImplemented) == 4,
        response_code_of(5) == ResponseCode::Refused && response_code_code(ResponseCode::Refused) == 5,
        forall|c: u8| c >= 6 ==> #[trigger] response_code_of(c) == ResponseCode::Unknown(c),
        forall|c: u8| #[trigger] response_code_code(ResponseCode::Unknown(c)) == c,
{
}

/// Decoding a code and encoding the value gives the code back, for every
/// code of every kind, and decoding always gives a canonical value.
pub proof fn lemma_code_decode_encode(code8: u8, code16: u16)
    ensures
        opcode_code(opcode_of(code8)) == code8,
        opcode_canonical(opcode_of(code8)),
        response_code_code(response_code_of(code8)) == code8,
        response_code_canonical(response_code_of(code8)),
        rclass_code(rclass_of(code16)) == code16,
        rclass_canonical(rclass_of(code16)),
        qclass_code(qclass_of(code16)) == code16,
        qclass_canonical(qclass_of(code16)),
        rtype_code(rtype_of(code16)) == code16,
        rtype_canonical(rtype_of(code16)),
        qtype_code(qtype_of(code16)) == code16,
        qtype_canonical(qtype_of(code16)),
{
}

/// Encoding a canonical value and decoding its code gives the value back.
pub proof fn lemma_code_encode_decode(
    opcode: Opcode,
    rcode: ResponseCode,
    class: RClass,
    qclass: QClass,
    rtype: RType,
    qtype: QType,
)
    ensures
        opcode_canonical(opcode) ==> opcode_of(opcode_code(opcode)) == opcode,
        response_code_canonical(rcode) ==> response_code_of(response_code_code(rcode)) == rcode,
        rclass_canonical(class) ==> rclass_of(rclass_code(class)) == class,
        qclass_canonical(qclass) ==> qclass_of(qclass_code(qclass)) == qclass,
        rtype_canonical(rtype) ==> rtype_of(rtype_code(rtype)) == rtype,
        qtype_canonical(qtype) ==> qtype_of(qtype_code(qtype)) == qtype,
{
}


/// The type of decoded record data is the type it was decoded as, but for
/// A and WKS data of a class other than IN, which is kept as opaque data
/// of the same type code.
pub proof fn lemma_rdata_type(buf: Seq<u8>, pos: int, rtype: RType, class: RClass, rdlength: u16)
    ensures
        rdata_at(buf, pos, rtype, class, rdlength) matches Ok((data, _)) ==> {
            &&& rtype_code(rdata_rtype(data)) == rtype_code(rtype)
            &&& (class == RClass::IN || !(rtype == RType::A || rtype == RType::WKS)) ==> rdata_rtype(data) == rtype
        },
{
}

/// The number of octets that the labels of a name take on the wire, each
/// with its length octet (without the final zero octet).
pub open spec fn name_octets(labels: Seq<Seq<u8>>) -> int
    decreases labels.len(),
{
    if labels.len() == 0 {
        0
    } else {
        labels[0].len() + 1 + name_octets(labels.drop_first())
    }
}

/// RFC 1034 - Section 3.1 / RFC 1035 - Section 3.1: every label of a name
/// holds 1 to 63 octets (the empty label is the root, which ends a name).
pub open spec fn labels_valid(labels: Seq<Seq<u8>>) -> bool {
    forall|i: int| 0 <= i < labels.len() ==> 1 <= #[trigger] labels[i].len() <= 63
}

/// A name that the RFC allows: valid labels, and at most 255 octets in all.
pub open spec fn name_valid(labels: Seq<Seq<u8>>) -> bool {
    labels_valid(labels) && name_octets(labels) + 1 <= 255
}

proof fn lemma_name_octets_nonneg(labels: Seq<Seq<u8>>)
    ensures
        name_octets(labels) >= 0,
    decreases labels.len(),
{
    if labels.len() > 0 {
        lemma_name_octets_nonneg(labels.drop_first());
    }
}

proof fn lemma_name_octets_prepend(l: Seq<u8>, rest: Seq<Seq<u8>>)
    ensures
        name_octets(seq![l] + rest) == l.len() + 1 + name_octets(rest),
        (seq![l] + rest)[0] == l,
        (seq![l] + rest).drop_first() == rest,
{
    assert((seq![l] + rest).drop_first() =~= rest);
}

/// Decoding a name that starts with `total` octets already counted (at most
/// 254, room for the final zero octet) gives
/// valid labels that, with those octets and the final zero octet, take at
/// most 255 octets.
pub proof fn lemma_decoded_name_within_limits(buf: Seq<u8>, pos: int, total: int, limit: nat)
    requires
        0 <= total <= 254,
    ensures
        domain_name_at(buf, pos, total, limit) matches Ok((labels, _)) ==> labels_valid(labels)
            && total + name_octets(labels) + 1 <= 255,
    decreases limit, buf.len() - pos,
{
    if 0 <= pos < buf.len() && limit > 0 {
        let len = buf[pos];
        if len >= 192 {
            if pos + 1 < buf.len() {
                let offset = (len - 192) * 256 + buf[pos + 1];
                if offset < pos {
                    lemma_decoded_name_within_limits(buf, offset, total, (limit - 1) as nat);
                }
            }
        } else if len == 0 {
        } else if len < 64 && pos + 1 + len <= buf.len() && total + len + 1 + 1 <= 255 {
            let next = pos + 1 + len;
            lemma_decoded_name_within_limits(buf, next, total + len + 1, limit);
            if let Ok((rest, _)) = domain_name_at(buf, next, total + len + 1, limit) {
                let l = buf.subrange(pos + 1, pos + 1 + len);
                lemma_name_octets_prepend(l, rest);
                let labels = seq![l] + rest;
                assert forall|i: int| 0 <= i < labels.len() implies 1 <= #[trigger] labels[i].len() <= 63 by {
                    if i > 0 {
                        assert(labels[i] == rest[i - 1]);
                    }
                }
            }
        }
    }
}

/// Every domain name that a message field decodes to is one the RFC allows.
pub proof fn lemma_decoded_name_valid(buf: Seq<u8>, pos: int)
    ensures
        domain_name_field(buf, pos) matches Ok((labels, _)) ==> name_valid(labels),
{
    lemma_decoded_name_within_limits(buf, pos, 0, name_depth_limit());
}


// ---------------------------------------------------------------------------
// Decoding what was encoded
// ---------------------------------------------------------------------------

/// Where `a + b` stands in `buf` at `p`, `a` stands at `p` and `b` right after.
proof fn lemma_split_at(buf: Seq<u8>, p: int, a: Seq<u8>, b: Seq<u8>)
    requires
        0 <= p,
        p + a.len() + b.len() <= buf.len(),
        buf.subrange(p, p + a.len() + b.len()) == a + b,
    ensures
        buf.subrange(p, p + a.len()) == a,
        buf.subrange(p + a.len(), p + a.len() + b.len()) == b,
{
    assert forall|i: int| 0 <= i < a.len() implies buf.subrange(p, p + a.len())[i] == a[i] by {
        assert(buf.subrange(p, p + a.len() + b.len())[i] == (a + b)[i]);
    }
    assert forall|i: int| 0 <= i < b.len() implies buf.subrange(p + a.len(), p + a.len() + b.len())[i] == b[i] by {
        assert(buf.subrange(p, p + a.len() + b.len())[a.len() + i] == (a + b)[a.len() + i]);
        assert(buf.subrange(p, p + a.len() + b.len())[a.len() + i] == buf[p + a.len() + i]);
        assert((a + b)[a.len() + i] == b[i]);
    }
    assert(buf.subrange(p, p + a.len()) =~= a);
    assert(buf.subrange(p + a.len(), p + a.len() + b.len()) =~= b);
}

/// A 16 bit integer reads back from its two octets.
proof fn lemma_u16_bytes_read(buf: Seq<u8>, p: int, v: u16)
    requires
        0 <= p,
        p + 2 <= buf.len(),
        buf.subrange(p, p + 2) == u16_bytes(v),
    ensures
        u16_at(buf, p) == Some(v),
{
    assert(buf[p] == buf.subrange(p, p + 2)[0]);
    assert(buf[p + 1] == buf.subrange(p, p + 2)[1]);
    assert(be_u16((v / 256) as u8, (v % 256) as u8) == v);
}

/// An encodable name that stands in `buf` at `p` decodes back to its
/// labels, ending just past its encoding.
proof fn lemma_name_decodes(buf: Seq<u8>, p: int, labels: Seq<Seq<u8>>, total: int, limit: nat)
    requires
        labels_valid(labels),
        0 <= total,
        total + name_octets(labels) + 1 <= 255,
        limit >= 1,
        0 <= p,
        p + name_wire(labels).0.len() <= buf.len(),
        buf.subrange(p, p + name_wire(labels).0.len()) == name_wire(labels).0,
    ensures
        name_wire(labels).1 is Ok,
        domain_name_at(buf, p, total, limit) == Ok::<(Seq<Seq<u8>>, int), crate::from_wire::Failure>(
            (labels, p + name_wire(labels).0.len()),
        ),
    decreases labels.len(),
{
    let w = name_wire(labels).0;
    if labels.len() == 0 {
        assert(buf[p] == buf.subrange(p, p + 1)[0]);
        assert(labels =~= Seq::<Seq<u8>>::empty());
    } else {
        let l = labels[0];
        let rest = labels.drop_first();
        let wr = name_wire(rest).0;
        assert(labels_valid(rest)) by {
            assert forall|i: int| 0 <= i < rest.len() implies 1 <= #[trigger] rest[i].len() <= 63 by {
                assert(rest[i] == labels[i + 1]);
            }
        }
        assert(1 <= labels[0].len() <= 63);
        assert(w == label_bytes(l) + wr);
        lemma_split_at(buf, p, label_bytes(l), wr);
        assert(label_bytes(l) == seq![l.len() as u8] + l);
        lemma_split_at(buf, p, seq![l.len() as u8], l);
        assert(buf[p] == buf.subrange(p, p + 1)[0]);
        assert(name_octets(labels) == l.len() + 1 + name_octets(rest));
        lemma_name_octets_nonneg(rest);
        lemma_name_decodes(buf, p + 1 + l.len(), rest, total + l.len() + 1, limit);
        assert(seq![l] + rest == labels);
        assert(buf[p] == l.len());
        assert(buf.subrange(p + 1, p + 1 + l.len()) == l);
        assert(w.len() == 1 + l.len() + wr.len());
    }
}


/// A question that encodes without loss: a name the RFC allows, and a
/// canonical type and class.
pub open spec fn question_faithful(q: SpecQuestion) -> bool {
    &&& name_valid(q.qname)
    &&& qtype_canonical(q.qtype)
    &&& qclass_canonical(q.qclass)
}

/// Questions that all encode without loss.
pub open spec fn questions_faithful(qs: Seq<SpecQuestion>) -> bool {
    forall|i: int| 0 <= i < qs.len() ==> question_faithful(#[trigger] qs[i])
}

/// An encodable question that stands in `buf` at `p` decodes back to itself.
proof fn lemma_question_decodes(buf: Seq<u8>, p: int, q: SpecQuestion)
    requires
        question_faithful(q),
        0 <= p,
        p + question_wire(q).0.len() <= buf.len(),
        buf.subrange(p, p + question_wire(q).0.len()) == question_wire(q).0,
    ensures
        question_wire(q).1 is Ok,
        question_at(buf, p) == Ok::<(SpecQuestion, int), crate::from_wire::Failure>(
            (q, p + question_wire(q).0.len()),
        ),
{
    let n = name_wire(q.qname).0;
    let t = u16_bytes(qtype_code(q.qtype));
    let c = u16_bytes(qclass_code(q.qclass));
    lemma_name_octets_nonneg(q.qname);
    lemma_name_ok(q.qname);
    assert(question_wire(q).0 == n + (t + c));
    lemma_split_at(buf, p, n, t + c);
    lemma_name_decodes(buf, p, q.qname, 0, name_depth_limit());
    lemma_split_at(buf, p + n.len(), t, c);
    lemma_u16_bytes_read(buf, p + n.len(), qtype_code(q.qtype));
    lemma_u16_bytes_read(buf, p + n.len() + 2, qclass_code(q.qclass));
    lemma_code_encode_decode(Opcode::Standard, ResponseCode::NoError, RClass::IN, q.qclass, RType::A, q.qtype);
}

/// Encoding one more question appends its encoding.
proof fn lemma_questions_wire_push(qs: Seq<SpecQuestion>, q: SpecQuestion)
    requires
        questions_faithful(qs),
        question_faithful(q),
    ensures
        questions_wire(qs.push(q)).1 is Ok,
        questions_wire(qs.push(q)).0 == questions_wire(qs).0 + question_wire(q).0,
    decreases qs.len(),
{
    lemma_question_ok(q);
    if qs.len() == 0 {
        assert(qs.push(q).drop_first() =~= Seq::<SpecQuestion>::empty());
        assert(qs.push(q)[0] == q);
        assert(qs.push(q).len() == 1);
        assert(questions_wire(Seq::<SpecQuestion>::empty()).0 == Seq::<u8>::empty());
        assert(questions_wire(qs.push(q)) == (question_wire(q).0 + Seq::<u8>::empty(), questions_wire(Seq::<SpecQuestion>::empty()).1));
        assert(questions_wire(qs).0 == Seq::<u8>::empty());
        assert(question_wire(q).0 + Seq::<u8>::empty() == question_wire(q).0);
        assert(Seq::<u8>::empty() + question_wire(q).0 == question_wire(q).0);
    } else {
        let rest = qs.drop_first();
        assert(qs.push(q)[0] == qs[0]);
        assert(qs.push(q).drop_first() =~= rest.push(q));
        assert(questions_faithful(rest)) by {
            assert forall|i: int| 0 <= i < rest.len() implies question_faithful(#[trigger] rest[i]) by {
                assert(rest[i] == qs[i + 1]);
            }
        }
        assert(question_faithful(qs[0]));
        lemma_question_ok(qs[0]);
        lemma_questions_wire_push(rest, q);
        let a = question_wire(qs[0]).0;
        let b = questions_wire(rest).0;
        let d = question_wire(q).0;
        assert(questions_wire(qs.push(q)) == (a + questions_wire(rest.push(q)).0, questions_wire(rest.push(q)).1));
        assert(questions_wire(qs) == (a + b, questions_wire(rest).1));
        assert(a + (b + d) == (a + b) + d);
    }
}

/// An encodable question encodes without error.
proof fn lemma_question_ok(q: SpecQuestion)
    requires
        question_faithful(q),
    ensures
        question_wire(q).1 is Ok,
{
    lemma_name_ok(q.qname);
}

/// A name of valid labels encodes without error.
proof fn lemma_name_ok(labels: Seq<Seq<u8>>)
    requires
        labels_valid(labels),
    ensures
        name_wire(labels).1 is Ok,
    decreases labels.len(),
{
    if labels.len() > 0 {
        let rest = labels.drop_first();
        assert(labels_valid(rest)) by {
            assert forall|i: int| 0 <= i < rest.len() implies 1 <= #[trigger] rest[i].len() <= 63 by {
                assert(rest[i] == labels[i + 1]);
            }
        }
        assert(1 <= labels[0].len() <= 63);
        lemma_name_ok(rest);
    }
}

/// The first `k` of a run of encodable questions that stands in `buf` at
/// `p` decode back to themselves.
proof fn lemma_questions_decode(buf: Seq<u8>, p: int, qs: Seq<SpecQuestion>, k: nat)
    requires
        questions_faithful(qs),
        k <= qs.len(),
        0 <= p,
        p + questions_wire(qs.take(k as int)).0.len() <= buf.len(),
        buf.subrange(p, p + questions_wire(qs.take(k as int)).0.len()) == questions_wire(qs.take(k as int)).0,
    ensures
        questions_at(buf, p, k) == Ok::<(Seq<SpecQuestion>, int), crate::from_wire::Failure>(
            (qs.take(k as int), p + questions_wire(qs.take(k as int)).0.len()),
        ),
    decreases k,
{
    if k == 0 {
        assert(qs.take(0) =~= Seq::<SpecQuestion>::empty());
    } else {
        let prev = qs.take(k - 1);
        let q = qs[k - 1];
        assert(qs.take(k as int) =~= prev.push(q));
        assert(questions_faithful(prev)) by {
            assert forall|i: int| 0 <= i < prev.len() implies question_faithful(#[trigger] prev[i]) by {
                assert(prev[i] == qs[i]);
            }
        }
        assert(question_faithful(q));
        lemma_questions_wire_push(prev, q);
        let a = questions_wire(prev).0;
        let b = question_wire(q).0;
        lemma_split_at(buf, p, a, b);
        lemma_questions_decode(buf, p, qs, (k - 1) as nat);
        lemma_question_decodes(buf, p + a.len(), q);
    }
}


/// The header fields read back from an information word made of them.
proof fn lemma_info_fields(op: u16, tc: u16, rd: u16, qr: u16, aa: u16, ra: u16, rc: u16)
    by (bit_vector)
    requires
        op < 16,
        tc <= 1,
        rd <= 1,
        qr <= 1,
        aa <= 1,
        ra <= 1,
        rc < 16,
    ensures
        ((op << 11u16 | tc << 9u16 | rd << 8u16) | (qr << 15u16 | aa << 10u16 | ra << 7u16 | rc)) / 0x8000u16 % 2u16 == qr,
        ((op << 11u16 | tc << 9u16 | rd << 8u16) | (qr << 15u16 | aa << 10u16 | ra << 7u16 | rc)) / 0x400u16 % 2u16 == aa,
        ((op << 11u16 | tc << 9u16 | rd << 8u16) | (qr << 15u16 | aa << 10u16 | ra << 7u16 | rc)) / 0x200u16 % 2u16 == tc,
        ((op << 11u16 | tc << 9u16 | rd << 8u16) | (qr << 15u16 | aa << 10u16 | ra << 7u16 | rc)) / 0x100u16 % 2u16 == rd,
        ((op << 11u16 | tc << 9u16 | rd << 8u16) | (qr << 15u16 | aa << 10u16 | ra << 7u16 | rc)) / 0x80u16 % 2u16 == ra,
        ((op << 11u16 | tc << 9u16 | rd << 8u16) | (qr << 15u16 | aa << 10u16 | ra << 7u16 | rc)) % 16u16 == rc,
        ((op << 11u16 | tc << 9u16 | rd << 8u16) | (qr << 15u16 | aa << 10u16 | ra << 7u16 | rc)) / 0x800u16 % 16u16 == op,
        (qr == 0 && aa == 0 && ra == 0 && rc == 0) ==> ((op << 11u16 | tc << 9u16 | rd << 8u16) | (qr << 15u16
            | aa << 10u16 | ra << 7u16 | rc)) == (op << 11u16 | tc << 9u16 | rd << 8u16),
        qr == 1 ==> (qr << 15u16) == (1u16 << 15u16),
{
}

/// Where each field lands in an information word built from field values.
proof fn lemma_info_layout(op: u16, tc: u16, rd: u16, qr: u16, aa: u16, ra: u16, rc: u16)
    by (bit_vector)
    requires
        tc <= 1,
        rd <= 1,
        qr <= 1,
        aa <= 1,
        ra <= 1,
    ensures
        (((op & 0xfu16) << 11u16 | tc << 9u16 | rd << 8u16) | (qr << 15u16 | aa << 10u16 | ra << 7u16 | (rc & 0xfu16))) >> 15u16 == qr,
        (((op & 0xfu16) << 11u16 | tc << 9u16 | rd << 8u16) | (qr << 15u16 | aa << 10u16 | ra << 7u16 | (rc & 0xfu16))) >> 11u16 & 0xfu16 == op & 0xfu16,
        (((op & 0xfu16) << 11u16 | tc << 9u16 | rd << 8u16) | (qr << 15u16 | aa << 10u16 | ra << 7u16 | (rc & 0xfu16))) >> 10u16 & 1u16 == aa,
        (((op & 0xfu16) << 11u16 | tc << 9u16 | rd << 8u16) | (qr << 15u16 | aa << 10u16 | ra << 7u16 | (rc & 0xfu16))) >> 9u16 & 1u16 == tc,
        (((op & 0xfu16) << 11u16 | tc << 9u16 | rd << 8u16) | (qr << 15u16 | aa << 10u16 | ra << 7u16 | (rc & 0xfu16))) >> 8u16 & 1u16 == rd,
        (((op & 0xfu16) << 11u16 | tc << 9u16 | rd << 8u16) | (qr << 15u16 | aa << 10u16 | ra << 7u16 | (rc & 0xfu16))) >> 7u16 & 1u16 == ra,
        (((op & 0xfu16) << 11u16 | tc << 9u16 | rd << 8u16) | (qr << 15u16 | aa << 10u16 | ra << 7u16 | (rc & 0xfu16))) >> 4u16 & 7u16 == 0,
        (((op & 0xfu16) << 11u16 | tc << 9u16 | rd << 8u16) | (qr << 15u16 | aa << 10u16 | ra << 7u16 | (rc & 0xfu16))) & 0xfu16 == rc & 0xfu16,
        (qr == 0 && aa == 0 && ra == 0 && rc == 0) ==> ((op & 0xfu16) << 11u16 | tc << 9u16 | rd << 8u16) | (qr << 15u16
            | aa << 10u16 | ra << 7u16 | (rc & 0xfu16)) == ((op & 0xfu16) << 11u16 | tc << 9u16 | rd << 8u16),
        qr == 1 ==> (qr << 15u16) == (1u16 << 15u16),
        ((op & 0xfu16) << 11u16 | tc << 9u16 | rd << 8u16) >> 10u16 & 1u16 == 0,
        ((op & 0xfu16) << 11u16 | tc << 9u16 | rd << 8u16) >> 7u16 & 1u16 == 0,
        ((op & 0xfu16) << 11u16 | tc << 9u16 | rd << 8u16) & 0xfu16 == 0,
{
}

/// RFC 1035 - Section 4.1.1: in the header word the encoder writes, every
/// field keeps to its own bits. QR (bit 15) is set exactly for responses;
/// OPCODE (bits 11 to 14) holds the low four bits of the opcode's code; TC,
/// RD, AA and RA hold their flags; the reserved bits 4 to 6 are clear; and
/// RCODE (bits 0 to 3) holds the low four bits of the response code, or
/// zero in a query.
pub proof fn lemma_header_info_layout(m: SpecMessage, truncation: bool)
    ensures
        (header_info(m, truncation) >> 15u16 == 1) == (m.kind is Response),
        header_info(m, truncation) >> 11u16 & 0xfu16 == opcode_code(m.opcode) as u16 & 0xfu16,
        header_info(m, truncation) >> 9u16 & 1u16 == flag(truncation),
        header_info(m, truncation) >> 8u16 & 1u16 == flag(m.recursion_desired),
        header_info(m, truncation) >> 4u16 & 7u16 == 0,
        match m.kind {
            MessageKind::Query => header_info(m, truncation) >> 10u16 & 1u16 == 0
                && header_info(m, truncation) >> 7u16 & 1u16 == 0 && header_info(m, truncation) & 0xfu16 == 0,
            MessageKind::Response { authoritative, recursion_available, response_code } =>
                header_info(m, truncation) >> 10u16 & 1u16 == flag(authoritative)
                && header_info(m, truncation) >> 7u16 & 1u16 == flag(recursion_available)
                && header_info(m, truncation) & 0xfu16 == response_code_code(response_code) as u16 & 0xfu16,
        },
{
    let op = opcode_code(m.opcode) as u16;
    match m.kind {
        MessageKind::Query => {
            lemma_info_layout(op, flag(truncation), flag(m.recursion_desired), 0, 0, 0, 0);
        },
        MessageKind::Response { authoritative, recursion_available, response_code } => {
            lemma_info_layout(
                op,
                flag(truncation),
                flag(m.recursion_desired),
                1,
                flag(authoritative),
                flag(recursion_available),
                response_code_code(response_code) as u16,
            );
        },
    }
}

/// Cutting a value below 16 to its low four bits keeps it.
proof fn lemma_low_bits_kept(x: u16)
    by (bit_vector)
    ensures
        x < 16 ==> x & 0xfu16 == x,
{
}

/// A 16 bit integer reads back from its two octets.
proof fn lemma_be_u16_of_bytes(v: u16)
    ensures
        be_u16(u16_bytes(v)[0], u16_bytes(v)[1]) == v,
{
}

/// A message that encodes without loss: canonical codes that fit their
/// four bit fields, at most 65535 questions that all encode without loss,
/// and no records (the encoder writes the question section only).
pub open spec fn message_faithful(m: SpecMessage) -> bool {
    &&& opcode_canonical(m.opcode)
    &&& opcode_code(m.opcode) < 16
    &&& match m.kind {
        MessageKind::Query => true,
        MessageKind::Response { response_code, .. } => response_code_canonical(response_code)
            && response_code_code(response_code) < 16,
    }
    &&& m.question.len() <= 0xffff
    &&& questions_faithful(m.question)
    &&& m.answer.len() == 0
    &&& m.authority.len() == 0
    &&& m.additional.len() == 0
}

/// The 12 header octets that the encoder writes for a message without records.
spec fn header_bytes(m: SpecMessage, truncation: bool) -> Seq<u8> {
    u16_bytes(m.id) + u16_bytes(header_info(m, truncation)) + u16_bytes(m.question.len() as u16)
        + u16_bytes(0) + u16_bytes(0) + u16_bytes(0)
}

/// The header that the encoder writes reads back as the message's header.
#[verifier::rlimit(50)]
proof fn lemma_header_decodes(m: SpecMessage, truncation: bool, rest: Seq<u8>)
    requires
        message_faithful(m),
    ensures
        header_at(header_bytes(m, truncation) + rest, 0) matches Ok((h, end)) && end == 12 && h.id == m.id
            && h.kind == m.kind && h.opcode == m.opcode && h.truncation == truncation
            && h.recursion_desired == m.recursion_desired && h.qdcount == m.question.len()
            && h.ancount == 0 && h.nscount == 0 && h.arcount == 0,
{
    let n = m.question.len();
    let info = header_info(m, truncation);
    let op = opcode_code(m.opcode) as u16;
    let (qr, aa, ra, rc) = match m.kind {
        MessageKind::Query => (0u16, 0u16, 0u16, 0u16),
        MessageKind::Response { authoritative, recursion_available, response_code } => (
            1u16,
            flag(authoritative),
            flag(recursion_available),
            response_code_code(response_code) as u16,
        ),
    };
    lemma_low_bits_kept(op);
    lemma_low_bits_kept(rc);
    if let MessageKind::Response { response_code, .. } = m.kind {
        assert(rc == response_code_code(response_code) as u16);
    }
    lemma_info_fields(op, flag(truncation), flag(m.recursion_desired), qr, aa, ra, rc);
    assert(info == (op << 11u16 | flag(truncation) << 9u16 | flag(m.recursion_desired) << 8u16) | (qr << 15u16
        | aa << 10u16 | ra << 7u16 | rc));
    let buf = header_bytes(m, truncation) + rest;
    lemma_be_u16_of_bytes(m.id);
    lemma_be_u16_of_bytes(info);
    lemma_be_u16_of_bytes(n as u16);
    lemma_be_u16_of_bytes(0);
    assert(u16_at(buf, 0) == Some(m.id));
    assert(u16_at(buf, 2) == Some(info));
    assert(u16_at(buf, 4) == Some(n as u16));
    assert(u16_at(buf, 6) == Some(0u16));
    assert(u16_at(buf, 8) == Some(0u16));
    assert(u16_at(buf, 10) == Some(0u16));
    lemma_code_encode_decode(m.opcode, ResponseCode::NoError, RClass::IN, QClass::Any, RType::A, QType::Any);
    assert(opcode_of(((info / 0x800) % 16) as u8) == m.opcode);
    match m.kind {
        MessageKind::Query => {},
        MessageKind::Response { authoritative, recursion_available, response_code } => {
            lemma_code_encode_decode(Opcode::Standard, response_code, RClass::IN, QClass::Any, RType::A, QType::Any);
        },
    }
}

/// Decoding what the encoder writes for a message gives the message back,
/// with the TC bit it was written with: encoding such a message never fails,
/// and the bytes it writes are a complete, valid message.
pub proof fn theorem_decode_encoded_message(m: SpecMessage, truncation: bool)
    requires
        message_faithful(m),
    ensures
        message_wire(m, truncation).1 is Ok,
        message_from_wire(message_wire(m, truncation).0) == Ok::<SpecFromWireResult, crate::from_wire::FromWireError>(
            SpecFromWireResult { message: m, truncation },
        ),
{
    lemma_message_wire_parts(m, truncation);
    lemma_message_decodes(m, truncation);
}

/// What the encoder writes for a message without records: its header, then
/// its questions.
proof fn lemma_message_wire_parts(m: SpecMessage, truncation: bool)
    requires
        message_faithful(m),
    ensures
        message_wire(m, truncation).1 is Ok,
        message_wire(m, truncation).0 == header_bytes(m, truncation) + questions_wire(m.question).0,
{
    lemma_questions_wire_all(m.question);
}

/// The header and questions of a message without records decode back to it.
#[verifier::rlimit(50)]
proof fn lemma_message_decodes(m: SpecMessage, truncation: bool)
    requires
        message_faithful(m),
    ensures
        message_from_wire(header_bytes(m, truncation) + questions_wire(m.question).0)
            == Ok::<SpecFromWireResult, crate::from_wire::FromWireError>(SpecFromWireResult { message: m, truncation }),
{
    let qs = m.question;
    let n = qs.len();
    assert(qs.take(n as int) =~= qs);
    let w = questions_wire(qs).0;
    let hdr = header_bytes(m, truncation);
    let buf = hdr + w;
    assert(hdr.len() == 12);
    lemma_header_decodes(m, truncation, w);
    let h = header_at(buf, 0)->Ok_0.0;
    assert(buf.subrange(12, 12 + w.len() as int) =~= w);
    lemma_questions_decode(buf, 12, qs, n);
    let p: int = 12 + w.len() as int;
    assert(questions_at(buf, 12, h.qdcount as nat) == Ok::<(Seq<SpecQuestion>, int), crate::from_wire::Failure>((qs, p)));
    assert(records_at(buf, p, 0) == Ok::<(Seq<crate::message::SpecResourceRecord>, int), crate::from_wire::Failure>((Seq::empty(), p)));
    assert(m.answer =~= Seq::empty());
    assert(m.authority =~= Seq::empty());
    assert(m.additional =~= Seq::empty());
}

/// Encoding questions that all encode without loss never fails.
proof fn lemma_questions_wire_all(qs: Seq<SpecQuestion>)
    requires
        questions_faithful(qs),
    ensures
        questions_wire(qs).1 is Ok,
    decreases qs.len(),
{
    if qs.len() > 0 {
        let rest = qs.drop_first();
        assert(questions_faithful(rest)) by {
            assert forall|i: int| 0 <= i < rest.len() implies question_faithful(#[trigger] rest[i]) by {
                assert(rest[i] == qs[i + 1]);
            }
        }
        assert(question_faithful(qs[0]));
        lemma_question_ok(qs[0]);
        lemma_questions_wire_all(rest);
    }
}


// ---------------------------------------------------------------------------
// When encoding fails
// ---------------------------------------------------------------------------

/// Every label has fewer than 64 octets, so that its length fits the six
/// low bits of its length octet.
pub open spec fn labels_short(labels: Seq<Seq<u8>>) -> bool {
    forall|i: int| 0 <= i < labels.len() ==> #[trigger] labels[i].len() < 64
}

/// Encoding a name fails exactly when one of its labels has 64 octets or more.
pub proof fn lemma_name_wire_ok_iff(labels: Seq<Seq<u8>>)
    ensures
        name_wire(labels).1 is Ok <==> labels_short(labels),
    decreases labels.len(),
{
    if labels.len() > 0 {
        let rest = labels.drop_first();
        lemma_name_wire_ok_iff(rest);
        if labels_short(labels) {
            assert forall|i: int| 0 <= i < rest.len() implies #[trigger] rest[i].len() < 64 by {
                assert(rest[i] == labels[i + 1]);
            }
        }
        if labels[0].len() < 64 && labels_short(rest) {
            assert forall|i: int| 0 <= i < labels.len() implies #[trigger] labels[i].len() < 64 by {
                if i > 0 {
                    assert(labels[i] == rest[i - 1]);
                }
            }
        }
    }
}

/// Encoding questions fails exactly when the name of one of them has a
/// label of 64 octets or more.
pub proof fn lemma_questions_wire_ok_iff(qs: Seq<SpecQuestion>)
    ensures
        questions_wire(qs).1 is Ok <==> forall|i: int| 0 <= i < qs.len() ==> labels_short(#[trigger] qs[i].qname),
    decreases qs.len(),
{
    if qs.len() > 0 {
        let rest = qs.drop_first();
        lemma_questions_wire_ok_iff(rest);
        lemma_name_wire_ok_iff(qs[0].qname);
        if forall|i: int| 0 <= i < qs.len() ==> labels_short(#[trigger] qs[i].qname) {
            assert forall|i: int| 0 <= i < rest.len() implies labels_short(#[trigger] rest[i].qname) by {
                assert(rest[i] == qs[i + 1]);
            }
        }
        if labels_short(qs[0].qname) && forall|i: int| 0 <= i < rest.len() ==> labels_short(#[trigger] rest[i].qname) {
            assert forall|i: int| 0 <= i < qs.len() implies labels_short(#[trigger] qs[i].qname) by {
                if i > 0 {
                    assert(qs[i] == rest[i - 1]);
                }
            }
        }
    }
}

/// Encoding a message fails exactly when it has more than 65535 questions,
/// or is a response with more than 65535 records in a section, or the name
/// of a question has a label of 64 octets or more.
pub proof fn lemma_message_wire_ok_iff(m: SpecMessage, truncation: bool)
    ensures
        message_wire(m, truncation).1 is Ok <==> {
            &&& m.question.len() <= 0xffff
            &&& m.kind is Response ==> m.answer.len() <= 0xffff && m.authority.len() <= 0xffff
                && m.additional.len() <= 0xffff
            &&& forall|i: int| 0 <= i < m.question.len() ==> labels_short(#[trigger] m.question[i].qname)
        },
{
    lemma_questions_wire_ok_iff(m.question);
}

} // verus!
