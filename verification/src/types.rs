//! Vocabulary types that are used in DNS messages, together with the
//! mathematical meaning of their numeric codes on the wire.
use vstd::prelude::*;

verus! {

#[derive(Debug, Clone, Copy, PartialEq, Eq, Structural)]
pub enum Opcode {
    /// RFC 1034 - Section 3.7.1
    /// A standard query specifies a target domain name (QNAME), query type
    /// (QTYPE), and query class (QCLASS) and asks for RRs which match.
    Standard,
    /// RFC 1034 - Section 3.7.2
    /// Name servers may also support inverse queries that map a particular
    /// resource to a domain name or domain names that have that resource.
    /// Implementation of this service is optional in a name server, but all
    /// name servers must at least be able to understand an inverse query
    /// message and return a not-implemented error response.
    Inverse,
    /// RFC 1034 - Section 3.8
    /// To be defined.
    Status,
    Unknown(u8),
}

/// RFC 1035 - Section 4.1.1
#[derive(Debug, Clone, Copy, PartialEq, Eq, Structural)]
pub enum ResponseCode {
    /// No error condition
    NoError,
    /// Format error
    /// The name server was unable to interpret the query.
    FormatError,
    /// Server failure
    /// The name server was unable to process this query due to a problem with the name server.
    ServerFailure,
    /// Name Error
    /// Meaningful only for responses from an authoritative name server, this code signifies
    /// that the domain name referenced in the query does not exist.
    NameError,
    /// Not Implemented
    /// The name server does not support the requested kind of query.
    NotImplemented,
    /// Refused
    /// The name server refuses to perform the specified operation for policy reasons.
    Refused,
    Unknown(u8),
}

/// RFC 1035 - Section 3.2.2
#[derive(Debug, Clone, Copy, PartialEq, Eq, Structural)]
pub enum RType {
    /// A host address
    A,
    /// An authoritative name server
    NS,
    /// A mail destination (Obsolete - use MX)
    MD,
    /// A mail forwarder (Obsolete - use MX)
    MF,
    /// The canonical name for an alias
    CNAME,
    /// Marks the start of a zone of authority
    SOA,
    /// A mailbox domain name (EXPERIMENTAL)
    MB,
    /// A mail group member (EXPERIMENTAL)
    MG,
    /// A mail rename domain name (EXPERIMENTAL)
    MR,
    /// A null RR (EXPERIMENTAL)
    NULL,
    /// A well known service description
    WKS,
    /// A domain name pointer
    PTR,
    /// Host information
    HINFO,
    /// Mailbox or mail list information
    MINFO,
    /// Mail exchange
    MX,
    /// Text strings
    TXT,
    Unknown(u16),
}

/// RFC 1035 - Section 3.2.3
#[derive(Debug, Clone, Copy, PartialEq, Eq, Structural)]
pub enum QType {
    RType(RType),
    /// A request for a transfer of an entire zone
    AXFR,
    /// A request for mailbox-related records (MB, MG or MR)
    MAILB,
    /// A request for mail agent RRs (Obsolete - see MX)
    MAILA,
    /// A request for all records
    Any,
}

/// RFC 1035 - Section 3.2.4
#[derive(Debug, Clone, Copy, PartialEq, Eq, Structural)]
pub enum RClass {
    /// The Internet
    IN,
    /// The CSNET class (Obsolete)
    CS,
    /// The CHAOS class
    CH,
    /// Hesiod
    HS,
    Unknown(u16),
}

/// RFC 1035 - Section 3.2.5
#[derive(Debug, Clone, Copy, PartialEq, Eq, Structural)]
pub enum QClass {
    RClass(RClass),
    /// Any class
    Any,
}

// ---------------------------------------------------------------------------
// Decoding: numeric code on the wire -> vocabulary value
// ---------------------------------------------------------------------------

/// RFC 1035 - Section 4.1.1: the opcode denoted by a code.
pub open spec fn opcode_of(code: u8) -> Opcode {
    if code == 0 {
        Opcode::Standard
    } else if code == 1 {
        Opcode::Inverse
    } else if code == 2 {
        Opcode::Status
    } else {
        Opcode::Unknown(code)
    }
}

/// RFC 1035 - Section 4.1.1: the response code denoted by a code.
pub open spec fn response_code_of(code: u8) -> ResponseCode {
    if code == 0 {
        ResponseCode::NoError
    } else if code == 1 {
        ResponseCode::FormatError
    } else if code == 2 {
        ResponseCode::ServerFailure
    } else if code == 3 {
        ResponseCode::NameError
    } else if code == 4 {
        ResponseCode::NotImplemented
    } else if code == 5 {
        ResponseCode::Refused
    } else {
        ResponseCode::Unknown(code)
    }
}

/// RFC 1035 - Section 3.2.4: the class denoted by a code.
pub open spec fn rclass_of(code: u16) -> RClass {
    if code == 1 {
        RClass::IN
    } else if code == 2 {
        RClass::CS
    } else if code == 3 {
        RClass::CH
    } else if code == 4 {
        RClass::HS
    } else {
        RClass::Unknown(code)
    }
}

/// RFC 1035 - Section 3.2.5: the query class denoted by a code.
pub open spec fn qclass_of(code: u16) -> QClass {
    if code == 255 {
        QClass::Any
    } else {
        QClass::RClass(rclass_of(code))
    }
}

/// RFC 1035 - Section 3.2.2: the record type denoted by a code.
pub open spec fn rtype_of(code: u16) -> RType {
    if code == 1 {
        RType::A
    } else if code == 2 {
        RType::NS
    } else if code == 3 {
        RType::MD
    } else if code == 4 {
        RType::MF
    } else if code == 5 {
        RType::CNAME
    } else if code == 6 {
        RType::SOA
    } else if code == 7 {
        RType::MB
    } else if code == 8 {
        RType::MG
    } else if code == 9 {
        RType::MR
    } else if code == 10 {
        RType::NULL
    } else if code == 11 {
        RType::WKS
    } else if code == 12 {
        RType::PTR
    } else if code == 13 {
        RType::HINFO
    } else if code == 14 {
        RType::MINFO
    } else if code == 15 {
        RType::MX
    } else if code == 16 {
        RType::TXT
    } else {
        RType::Unknown(code)
    }
}

/// RFC 1035 - Section 3.2.3: the query type denoted by a code.
pub open spec fn qtype_of(code: u16) -> QType {
    if code == 252 {
        QType::AXFR
    } else if code == 253 {
        QType::MAILB
    } else if code == 254 {
        QType::MAILA
    } else if code == 255 {
        QType::Any
    } else {
        QType::RType(rtype_of(code))
    }
}

// ---------------------------------------------------------------------------
// Encoding: vocabulary value -> numeric code on the wire
// ---------------------------------------------------------------------------

/// The code that denotes an opcode.
pub open spec fn opcode_code(opcode: Opcode) -> u8 {
    match opcode {
        Opcode::Standard => 0,
        Opcode::Inverse => 1,
        Opcode::Status => 2,
        Opcode::Unknown(o) => o,
    }
}

/// The code that denotes a response code.
pub open spec fn response_code_code(rcode: ResponseCode) -> u8 {
    match rcode {
        ResponseCode::NoError => 0,
        ResponseCode::FormatError => 1,
        ResponseCode::ServerFailure => 2,
        ResponseCode::NameError => 3,
        ResponseCode::NotImplemented => 4,
        ResponseCode::Refused => 5,
        ResponseCode::Unknown(c) => c,
    }
}

/// The code that denotes a class.
pub open spec fn rclass_code(class: RClass) -> u16 {
    match class {
        RClass::IN => 1,
        RClass::CS => 2,
        RClass::CH => 3,
        RClass::HS => 4,
        RClass::Unknown(c) => c,
    }
}

/// The code that denotes a query class.
pub open spec fn qclass_code(qclass: QClass) -> u16 {
    match qclass {
        QClass::RClass(c) => rclass_code(c),
        QClass::Any => 255,
    }
}

/// The code that denotes a record type.
pub open spec fn rtype_code(rtype: RType) -> u16 {
    match rtype {
        RType::A => 1,
        RType::NS => 2,
        RType::MD => 3,
        RType::MF => 4,
        RType::CNAME => 5,
        RType::SOA => 6,
        RType::MB => 7,
        RType::MG => 8,
        RType::MR => 9,
        RType::NULL => 10,
        RType::WKS => 11,
        RType::PTR => 12,
        RType::HINFO => 13,
        RType::MINFO => 14,
        RType::MX => 15,
        RType::TXT => 16,
        RType::Unknown(t) => t,
    }
}

/// The code that denotes a query type.
pub open spec fn qtype_code(qtype: QType) -> u16 {
    match qtype {
        QType::RType(t) => rtype_code(t),
        QType::AXFR => 252,
        QType::MAILB => 253,
        QType::MAILA => 254,
        QType::Any => 255,
    }
}

// ---------------------------------------------------------------------------
// Canonical values: those that decoding can produce
// ---------------------------------------------------------------------------

/// An opcode is canonical when no named opcode has its code.
pub open spec fn opcode_canonical(opcode: Opcode) -> bool {
    match opcode {
        Opcode::Unknown(o) => o >= 3,
        _ => true,
    }
}

/// A response code is canonical when no named response code has its code.
pub open spec fn response_code_canonical(rcode: ResponseCode) -> bool {
    match rcode {
        ResponseCode::Unknown(c) => c >= 6,
        _ => true,
    }
}

/// A class is canonical when no named class has its code.
pub open spec fn rclass_canonical(class: RClass) -> bool {
    match class {
        RClass::Unknown(c) => !(1 <= c <= 4),
        _ => true,
    }
}

/// A query class is canonical when decoding its code gives it back.
pub open spec fn qclass_canonical(qclass: QClass) -> bool {
    match qclass {
        QClass::RClass(c) => rclass_canonical(c) && rclass_code(c) != 255,
        QClass::Any => true,
    }
}

/// A record type is canonical when no named type has its code.
pub open spec fn rtype_canonical(rtype: RType) -> bool {
    match rtype {
        RType::Unknown(t) => !(1 <= t <= 16),
        _ => true,
    }
}

/// A query type is canonical when decoding its code gives it back.
pub open spec fn qtype_canonical(qtype: QType) -> bool {
    match qtype {
        QType::RType(t) => rtype_canonical(t) && !(252 <= rtype_code(t) <= 255),
        _ => true,
    }
}

} // verus!
