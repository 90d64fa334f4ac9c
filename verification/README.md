# DNS message codec

Decoding and encoding of DNS messages (RFC 1034 / RFC 1035), verified with Verus.

- `src/types.rs`: opcodes, response codes, record and query types and classes, and
  the meaning of their numeric codes.
- `src/message.rs`: the message data model and its mathematical view.
- `src/from_wire.rs`: the decoder (header, questions, resource records, domain names
  with compression pointers), each function proved against a functional
  specification of the wire format.
- `src/wire.rs`: the encoder for the header and the question section.
- `src/laws.rs`: properties across both directions: numeric codes round-trip,
  decoded names respect the RFC limits, encoding fails exactly when a count or a
  label does not fit, and decoding an encoded message gives it back.
- `app/lib.rs`: the `std::net::Ipv4Addr` view of record addresses.
