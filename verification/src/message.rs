//! The DNS message data model (RFC 1034 / RFC 1035) and its mathematical view.
use crate::types::{Opcode, QClass, QType, RClass, RType, ResponseCode};
use vstd::prelude::*;

verus! {

/// RFC 1034 - Section 3.1
///
/// The domain name of a node is the list of the labels on the path from the
/// node to the root of the tree, from the most specific to the least
/// specific. Each label is zero to 63 octets in length.
///
/// RFC 1035 - Section 3.1
///
/// Domain names in messages are expressed in terms of a sequence of labels.
/// Each label is represented as a one octet length field followed by that
/// number of octets, and the name is terminated by a length byte of zero.
/// The total length of a domain name (label octets and label length octets)
/// is restricted to 255 octets or less.
pub type DomainName = Vec<Vec<u8>>;

/// RFC 1035 - Section 3.3
/// A single length octet followed by that number of octets, treated as
/// binary information.
pub type CharacterString = Vec<u8>;

/// A 32 bit Internet address, as its four octets in network order.
pub type Ipv4Octets = [u8; 4];

/// RFC 1035 - Section 4.1
///
/// All communications inside of the domain protocol are carried in a single
/// format called a message: a header, then the question, answer, authority
/// and additional sections.
#[derive(Debug, PartialEq, Eq)]
pub struct Message {
    /// A 16 bit identifier assigned by the program that generates any kind of query.
    pub id: u16,
    /// Whether this message is a query or a response, with the data specific
    /// to responses.
    pub kind: MessageKind,
    /// A four bit field that specifies kind of query in this message.
    pub opcode: Opcode,
    /// If RD is set, it directs the name server to pursue the query recursively.
    pub recursion_desired: bool,
    /// The question section.
    pub question: Vec<Question>,
    /// The answer section contains RRs that answer the question
    pub answer: Vec<ResourceRecord>,
    /// The authority section contains RRs that point toward an authoritative name server
    pub authority: Vec<ResourceRecord>,
    /// The additional records section contains RRs which relate to the query
    pub additional: Vec<ResourceRecord>,
}

#[derive(Debug, Clone, Copy, PartialEq, Eq, Structural)]
pub enum MessageKind {
    Query,
    Response {
        /// The responding name server is an authority for the domain name in question section.
        authoritative: bool,
        /// Whether recursive query support is available in the name server.
        recursion_available: bool,
        /// This 4 bit field is set as part of responses.
        response_code: ResponseCode,
    },
}

/// RFC 1035 - Section 4.1.2
///
/// Carries the query name and other query parameters.
#[derive(Clone, Debug, PartialEq, Eq)]
pub struct Question {
    /// A domain name represented as a sequence of labels
    pub qname: DomainName,
    /// The type of the query.
    pub qtype: QType,
    /// The class of the query.
    pub qclass: QClass,
}

/// RFC 1034 - Section 3.6
///
/// A resource record: the domain name where it is found, its class, its
/// time to live and its type dependent data.
#[derive(Debug, Clone, PartialEq, Eq)]
pub struct ResourceRecord {
    /// The domain name where the RR is found.
    pub name: DomainName,
    /// Identifies a protocol family or instance of a protocol.
    pub class: RClass,
    /// The time to live of the RR.
    pub ttl: u32,
    /// The type and sometimes class dependent data which describes the resource.
    pub rdata: ResourceRecordData,
}

/// RFC 1035 - Section 3.3
#[derive(Debug, Clone, PartialEq, Eq)]
pub enum ResourceRecordData {
    /// RFC 1035 - Section 3.3.1: the canonical or primary name for the owner.
    CNAME(DomainName),
    /// RFC 1035 - Section 3.3.2: general information about a host.
    HINFO { cpu: CharacterString, os: CharacterString },
    /// RFC 1035 - Section 3.3.3 (EXPERIMENTAL): a host which has the specified mailbox.
    MB(DomainName),
    /// RFC 1035 - Section 3.3.4 (Obsolete)
    MD(DomainName),
    /// RFC 1035 - Section 3.3.5 (Obsolete)
    MF(DomainName),
    /// RFC 1035 - Section 3.3.6 (EXPERIMENTAL): a member of the mail group.
    MG(DomainName),
    /// RFC 1035 - Section 3.3.7 (EXPERIMENTAL)
    MINFO { rmailbx: DomainName, emailbx: DomainName },
    /// RFC 1035 - Section 3.3.8 (EXPERIMENTAL): the proper rename of the mailbox.
    MR(DomainName),
    /// RFC 1035 - Section 3.3.9: a mail exchange with its preference.
    MX { preference: u16, exchange: DomainName },
    /// RFC 1035 - Section 3.3.10: anything at all, 65535 octets or less.
    NULL(Vec<u8>),
    /// RFC 1035 - Section 3.3.11: a host which should be authoritative.
    NS(DomainName),
    /// RFC 1035 - Section 3.3.12: a pointer to some location in the domain name space.
    PTR(DomainName),
    /// RFC 1035 - Section 3.3.13: the start of a zone of authority.
    SOA {
        mname: DomainName,
        rname: DomainName,
        serial: u32,
        refresh: u32,
        retry: u32,
        expire: u32,
        minimum: u32,
    },
    /// RFC 1035 - Section 3.3.14: one or more character strings.
    TXT(Vec<CharacterString>),
    /// RFC 1035 - Section 3.4.1: a 32 bit Internet address.
    A(Ipv4Octets),
    /// RFC 1035 - Section 3.4.2: well known services of an address and protocol.
    WKS { address: Ipv4Octets, protocol: u8, bitmap: Vec<u8> },
    Unknown { rtype: u16, rdata: Vec<u8> },
}

// ---------------------------------------------------------------------------
// Mathematical view
// ---------------------------------------------------------------------------

/// The view of a [`Question`].
pub struct SpecQuestion {
    pub qname: Seq<Seq<u8>>,
    pub qtype: QType,
    pub qclass: QClass,
}

/// The view of a [`ResourceRecordData`]: octet strings as sequences.
pub enum SpecRecordData {
    CNAME(Seq<Seq<u8>>),
    HINFO { cpu: Seq<u8>, os: Seq<u8> },
    MB(Seq<Seq<u8>>),
    MD(Seq<Seq<u8>>),
    MF(Seq<Seq<u8>>),
    MG(Seq<Seq<u8>>),
    MINFO { rmailbx: Seq<Seq<u8>>, emailbx: Seq<Seq<u8>> },
    MR(Seq<Seq<u8>>),
    MX { preference: u16, exchange: Seq<Seq<u8>> },
    NULL(Seq<u8>),
    NS(Seq<Seq<u8>>),
    PTR(Seq<Seq<u8>>),
    SOA {
        mname: Seq<Seq<u8>>,
        rname: Seq<Seq<u8>>,
        serial: u32,
        refresh: u32,
        retry: u32,
        expire: u32,
        minimum: u32,
    },
    TXT(Seq<Seq<u8>>),
    A(Seq<u8>),
    WKS { address: Seq<u8>, protocol: u8, bitmap: Seq<u8> },
    Unknown { rtype: u16, rdata: Seq<u8> },
}

/// The view of a [`ResourceRecord`].
pub struct SpecResourceRecord {
    pub name: Seq<Seq<u8>>,
    pub class: RClass,
    pub ttl: u32,
    pub rdata: SpecRecordData,
}

/// The view of a [`Message`].
pub struct SpecMessage {
    pub id: u16,
    pub kind: MessageKind,
    pub opcode: Opcode,
    pub recursion_desired: bool,
    pub question: Seq<SpecQuestion>,
    pub answer: Seq<SpecResourceRecord>,
    pub authority: Seq<SpecResourceRecord>,
    pub additional: Seq<SpecResourceRecord>,
}

impl View for Question {
    type V = SpecQuestion;

    open spec fn view(&self) -> SpecQuestion {
        SpecQuestion { qname: labels_view(self.qname@), qtype: self.qtype, qclass: self.qclass }
    }
}

impl View for ResourceRecordData {
    type V = SpecRecordData;

    open spec fn view(&self) -> SpecRecordData {
        match self {
            ResourceRecordData::CNAME(n) => SpecRecordData::CNAME(labels_view(n@)),
            ResourceRecordData::HINFO { cpu, os } => SpecRecordData::HINFO { cpu: cpu@, os: os@ },
            ResourceRecordData::MB(n) => SpecRecordData::MB(labels_view(n@)),
            ResourceRecordData::MD(n) => SpecRecordData::MD(labels_view(n@)),
            ResourceRecordData::MF(n) => SpecRecordData::MF(labels_view(n@)),
            ResourceRecordData::MG(n) => SpecRecordData::MG(labels_view(n@)),
            ResourceRecordData::MINFO { rmailbx, emailbx } => SpecRecordData::MINFO {
                rmailbx: labels_view(rmailbx@),
                emailbx: labels_view(emailbx@),
            },
            ResourceRecordData::MR(n) => SpecRecordData::MR(labels_view(n@)),
            ResourceRecordData::MX { preference, exchange } => SpecRecordData::MX {
                preference: *preference,
                exchange: labels_view(exchange@),
            },
            ResourceRecordData::NULL(d) => SpecRecordData::NULL(d@),
            ResourceRecordData::NS(n) => SpecRecordData::NS(labels_view(n@)),
            ResourceRecordData::PTR(n) => SpecRecordData::PTR(labels_view(n@)),
            ResourceRecordData::SOA { mname, rname, serial, refresh, retry, expire, minimum } =>
                SpecRecordData::SOA {
                mname: labels_view(mname@),
                rname: labels_view(rname@),
                serial: *serial,
                refresh: *refresh,
                retry: *retry,
                expire: *expire,
                minimum: *minimum,
            },
            ResourceRecordData::TXT(strings) => SpecRecordData::TXT(labels_view(strings@)),
            ResourceRecordData::A(address) => SpecRecordData::A(address@),
            ResourceRecordData::WKS { address, protocol, bitmap } => SpecRecordData::WKS {
                address: address@,
                protocol: *protocol,
                bitmap: bitmap@,
            },
            ResourceRecordData::Unknown { rtype, rdata } => SpecRecordData::Unknown {
                rtype: *rtype,
                rdata: rdata@,
            },
        }
    }
}

impl View for ResourceRecord {
    type V = SpecResourceRecord;

    open spec fn view(&self) -> SpecResourceRecord {
        SpecResourceRecord { name: labels_view(self.name@), class: self.class, ttl: self.ttl, rdata: self.rdata@ }
    }
}

/// The labels of a domain name (or the strings of a TXT record) as octet sequences.
pub open spec fn labels_view(labels: Seq<Vec<u8>>) -> Seq<Seq<u8>> {
    labels.map_values(|l: Vec<u8>| l@)
}

/// The views of a sequence of records, in order.
pub open spec fn records_view(records: Seq<ResourceRecord>) -> Seq<SpecResourceRecord> {
    records.map_values(|r: ResourceRecord| r@)
}

/// The views of a sequence of questions, in order.
pub open spec fn questions_view(questions: Seq<Question>) -> Seq<SpecQuestion> {
    questions.map_values(|q: Question| q@)
}

impl View for Message {
    type V = SpecMessage;

    open spec fn view(&self) -> SpecMessage {
        SpecMessage {
            id: self.id,
            kind: self.kind,
            opcode: self.opcode,
            recursion_desired: self.recursion_desired,
            question: questions_view(self.question@),
            answer: records_view(self.answer@),
            authority: records_view(self.authority@),
            additional: records_view(self.additional@),
        }
    }
}

/// The record type that a record's data belongs to.
pub open spec fn rdata_rtype(data: SpecRecordData) -> RType {
    match data {
        SpecRecordData::A(_) => RType::A,
        SpecRecordData::NS(_) => RType::NS,
        SpecRecordData::MD(_) => RType::MD,
        SpecRecordData::MF(_) => RType::MF,
        SpecRecordData::CNAME(_) => RType::CNAME,
        SpecRecordData::SOA { .. } => RType::SOA,
        SpecRecordData::MB(_) => RType::MB,
        SpecRecordData::MG(_) => RType::MG,
        SpecRecordData::MR(_) => RType::MR,
        SpecRecordData::NULL(_) => RType::NULL,
        SpecRecordData::WKS { .. } => RType::WKS,
        SpecRecordData::PTR(_) => RType::PTR,
        SpecRecordData::HINFO { .. } => RType::HINFO,
        SpecRecordData::MINFO { .. } => RType::MINFO,
        SpecRecordData::MX { .. } => RType::MX,
        SpecRecordData::TXT(_) => RType::TXT,
        SpecRecordData::Unknown { rtype, .. } => RType::Unknown(rtype),
    }
}

impl<'a> From<&'a ResourceRecordData> for RType {
    fn from(record: &'a ResourceRecordData) -> (rtype: RType) {
        match record {
            ResourceRecordData::A(_) => RType::A,
            ResourceRecordData::NS(_) => RType::NS,
            ResourceRecordData::MD(_) => RType::MD,
            ResourceRecordData::MF(_) => RType::MF,
            ResourceRecordData::CNAME(_) => RType::CNAME,
            ResourceRecordData::SOA { .. } => RType::SOA,
            ResourceRecordData::MB(_) => RType::MB,
            ResourceRecordData::MG(_) => RType::MG,
            ResourceRecordData::MR(_) => RType::MR,
            ResourceRecordData::NULL(_) => RType::NULL,
            ResourceRecordData::WKS { .. } => RType::WKS,
            ResourceRecordData::PTR(_) => RType::PTR,
            ResourceRecordData::HINFO { .. } => RType::HINFO,
            ResourceRecordData::MINFO { .. } => RType::MINFO,
            ResourceRecordData::MX { .. } => RType::MX,
            ResourceRecordData::TXT(_) => RType::TXT,
            ResourceRecordData::Unknown { rtype, .. } => RType::Unknown(*rtype),
        }
    }
}

impl<'a> vstd::std_specs::convert::FromSpecImpl<&'a ResourceRecordData> for RType {
    open spec fn obeys_from_spec() -> bool {
        true
    }

    open spec fn from_spec(record: &'a ResourceRecordData) -> RType {
        rdata_rtype(record@)
    }
}

} // verus!
