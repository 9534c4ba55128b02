# asn1

ASN.1 values and their DER encoding, verified with Verus.

- `src/info`: tags, classes, lengths, the universal tags and type names.
- `src/ser`: the octet writers (tags, lengths, integers, strings, object
  identifiers) and the `Asn1Serialize` trait.
- `src/der`: the octet readers, the `Serializer` and `Deserializer`, and the
  proofs that every reader reads back what its writer writes (`der/laws.rs`).
- `src/de`: the `Asn1Deserialize` and `Asn1Visitor` traits.
- `src/universal`: BOOLEAN, INTEGER, NULL, OCTET STRING, BIT STRING,
  OBJECT IDENTIFIER and SEQUENCE OF.
- `src/laws.rs`: for every type, reading back a written value gives the value.
- `src/text.rs`: decimal, binary and hexadecimal texts of values.
- `app/`: serde forms of the string types and `Display` for them.

Each writer's contract gives the exact octets it writes. Each reader's contract
gives, for any input, the value and the bytes it takes, or the kind of failure
and where the failure leaves the input. A `Serializer` is written through
`&mut`, so a refused value leaves what was written before it.
