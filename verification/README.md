# policy

What of a service TD's policy is measured, and what its collateral says of it: a Verus
library, with the ordinary Rust around it in `app/`.

- `src/measurement.rs`: the bytes that are measured of a policy (the canonical JSON of its
  `policyData`, without the TCB mapping and its issuer chain) and the signer anchor.
- `src/canonical.rs`, `src/json.rs`, `src/json_codec.rs`: canonical JSON;
  `src/json_grammar.rs`: which text reads as which document.
- `src/tdinfo.rs`, `src/report.rs`: `TDINFO_STRUCT`, packed and hashed.
- `src/servtd_collateral.rs`, `src/servtd_corim.rs`, `src/servtd_provider.rs`: lookups of
  security version and TCB level in JSON or CoRIM collateral.
- `src/calendar.rs`: civil dates and ISO 8601 timestamps.
- `src/*_laws.rs`: what is proved of several functions together. Among them: canonical
  text reads as its document, and a text reads as one document at most; the measured
  bytes bind every field but the two redacted ones; timestamps sort as text in the order
  of time.

Calls into other crates stand in `src/json_codec.rs` (`serde_json`), `src/corim_codec.rs`
(`corim`) and `src/digest.rs` (`ring`), each behind a function whose comment says what is
taken on trust. `ring` is here for SHA-384 alone, the digest that the signer anchor and
`tdinfo_hash` are made of; certificates and signatures are left to a backend that `app/`
names.

`app/` parses collateral with `serde`, and says what a cryptographic backend has to do with
certificate chains.
