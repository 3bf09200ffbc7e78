//! Policy measurements and service-TD collateral.
//!
//! - [`measurement`]: what of a policy is measured, and the signer anchor.
//! - [`canonical`]: canonical JSON, of the documents of [`json`] and [`json_codec`];
//!   [`json_grammar`] says which text reads as which document.
//! - [`tdinfo`] and [`report`]: the hash that identifies a service TD.
//! - [`servtd_collateral`]: service-TD collateral in JSON form.
//! - [`servtd_corim`]: service-TD collateral in CoRIM form, made of the tags of
//!   [`comid`] and [`corim_codec`].
//! - [`servtd_provider`]: lookups in collateral of either form.
//! - [`calendar`], [`decimal`], [`hex`], [`digest`], [`bytes`] and [`entries`]: what these
//!   rest on.
//!
//! The modules whose names end in `laws` hold what is proved of several functions
//! together.
use vstd::prelude::*;

pub mod bytes;
pub mod calendar;
pub mod calendar_laws;
pub mod canonical;
pub mod canonical_laws;
pub mod comid;
pub mod corim_codec;
pub mod date_laws;
pub mod decimal;
pub mod digest;
pub mod entries;
pub mod error;
pub mod hex;
pub mod json;
pub mod json_codec;
pub mod json_grammar;
pub mod json_grammar_laws;
pub mod lookup_laws;
pub mod measurement;
pub mod measurement_laws;
pub mod policy_laws;
pub mod report;
pub mod servtd_collateral;
pub mod servtd_corim;
pub mod servtd_laws;
pub mod servtd_provider;
pub mod tdinfo;
pub mod tdinfo_laws;
pub mod text_laws;
pub mod view_laws;
pub mod writing_laws;

verus! {

} // verus!
