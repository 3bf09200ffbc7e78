//! Service-TD collateral in JSON form: the signed TCB mapping from `tdinfo_hash` to
//! security version, and the identity from security version to TCB level.
use vstd::prelude::*;

use crate::bytes::text_eq;
use crate::digest::{sha384, SHA384_DIGEST_SIZE};
use crate::error::PolicyError;
use crate::hex::{bytes_to_hex_string, hex_bytes, hex_string_to_bytes, hex_text, is_hex};
use crate::report::Report;
use crate::tdinfo::{compute_tdinfo_hash_from_report, first_fault, report_fields};

verus! {

/// A character with the ASCII letters `a` to `z` in upper case.
pub open spec fn ascii_upper(c: char) -> char {
    if 'a' <= c <= 'z' {
        (c as u8 - 32) as u8 as char
    } else {
        c
    }
}

/// A text with the ASCII letters `a` to `z` in upper case.
pub open spec fn upper_text(text: Seq<char>) -> Seq<char> {
    Seq::new(text.len(), |i: int| ascii_upper(text[i]))
}

/// Appends the upper case of an ASCII letter, given by its number from `a` on.
fn push_upper(out: &mut String, n: usize)
    requires
        n < 26,
    ensures
        final(out)@ == old(out)@.push((0x41 + n) as u8 as char),
{
    let letters = "ABCDEFGHIJKLMNOPQRSTUVWXYZ";
    proof {
        reveal_strlit("ABCDEFGHIJKLMNOPQRSTUVWXYZ");
        assert(letters@ =~= Seq::new(26, |i: int| (0x41 + i) as u8 as char));
    }
    let ghost before = out@;
    out.append(letters.substring_char(n, n + 1));
    assert(out@ =~= before.push((0x41 + n) as u8 as char));
}

/// A text with the ASCII letters `a` to `z` in upper case.
pub fn to_upper_text(text: &str) -> (r: String)
    ensures
        r@ == upper_text(text@),
{
    let mut out = String::new();
    let n: usize = text.unicode_len();
    let mut i: usize = 0;
    while i < n
        invariant
            i <= n,
            n == text@.len(),
            out@ == upper_text(text@.take(i as int)),
        decreases n - i,
    {
        let c = text.get_char(i);
        if 'a' <= c && c <= 'z' {
            push_upper(&mut out, (c as u32 - 0x61) as usize);
        } else {
            out.append(text.substring_char(i, i + 1));
        }
        i += 1;
        assert(out@ =~= upper_text(text@.take(i as int)));
    }
    assert(text@.take(n as int) =~= text@);
    out
}

/// The service-TD collateral of a policy.
#[derive(Debug, PartialEq, Eq)]
pub struct ServtdCollateral {
    pub major_version: u32,
    pub minor_version: u32,
    /// The certificate chain of the issuer of the TCB mapping, in PEM.
    pub servtd_tcb_mapping_issuer_chain: String,
    pub servtd_tcb_mapping: RawServtdTcbMapping,
    /// The certificate revocation list for that chain, in PEM, where there is one.
    pub servtd_crl: Option<String>,
}

/// A TCB mapping as it was signed: its JSON text to the letter, and the signature of
/// that text in hexadecimal.
#[derive(Debug, PartialEq, Eq)]
pub struct RawServtdTcbMapping {
    pub td_tcb_mapping: String,
    pub signature: String,
}

/// A TCB mapping: which security version a service TD has.
#[derive(Debug, PartialEq, Eq)]
pub struct TdTcbMapping {
    pub id: String,
    pub version: u32,
    pub issue_date: String,
    pub next_update: String,
    pub mr_signer: String,
    pub isv_prod_id: u16,
    pub svn_mappings: Vec<SvnMapping>,
}

/// The security version of the service TD with the given measurements.
#[derive(Debug, PartialEq, Eq)]
pub struct SvnMapping {
    pub td_measurements: Measurements,
    pub isvsvn: u16,
}

/// What identifies a service TD: its `tdinfo_hash` in hexadecimal, in either case.
#[derive(Clone, Debug, PartialEq, Eq)]
pub struct Measurements {
    pub tdinfo_hash: String,
}

/// Whether two measurements are the same, the case of their letters aside.
pub open spec fn same_measurement(a: Seq<char>, b: Seq<char>) -> bool {
    upper_text(a) == upper_text(b)
}

/// The security version that the first mapping from position `i` on gives a measurement.
pub open spec fn mapped_svn(mappings: Seq<SvnMapping>, target: Seq<char>, i: int) -> Option<u16>
    decreases mappings.len() - i,
{
    if 0 <= i < mappings.len() {
        if same_measurement(mappings[i].td_measurements.tdinfo_hash@, target) {
            Some(mappings[i].isvsvn)
        } else {
            mapped_svn(mappings, target, i + 1)
        }
    } else {
        None
    }
}

/// The security version that mappings give a `tdinfo_hash`. No other bytes have one than
/// those of the length of a digest.
pub open spec fn hash_svn(mappings: Seq<SvnMapping>, tdinfo_hash: Seq<u8>) -> Option<u16> {
    if tdinfo_hash.len() == SHA384_DIGEST_SIZE {
        mapped_svn(mappings, hex_text(tdinfo_hash), 0)
    } else {
        None
    }
}

/// The measurement of the service TD that a report describes: its `tdinfo_hash` in
/// hexadecimal, where no field of the report is at fault.
pub open spec fn reported_measurement(report: Report) -> Option<Seq<char>> {
    match first_fault(report, 0) {
        Some(_) => None,
        None => Some(hex_text(sha384(report_fields(report).packed()))),
    }
}

impl RawServtdTcbMapping {
    /// A parsed TCB mapping, or the error where its JSON could not be parsed.
    pub fn deserialize_from_json(parsed: Option<RawServtdTcbMapping>) -> (r: Result<
        Self,
        PolicyError,
    >)
        ensures
            match parsed {
                Some(mapping) => r == Ok::<Self, PolicyError>(mapping),
                None => r == Err::<Self, PolicyError>(PolicyError::InvalidServtdTcbMapping),
            },
    {
        match parsed {
            Some(mapping) => Ok(mapping),
            None => Err(PolicyError::InvalidServtdTcbMapping),
        }
    }

    /// The bytes of the signature.
    pub fn signature_bytes(&self) -> (r: Result<Vec<u8>, PolicyError>)
        ensures
            match r {
                Ok(bytes) => is_hex(self.signature@) && bytes@ == hex_bytes(self.signature@),
                Err(e) => !is_hex(self.signature@) && e == PolicyError::InvalidParameter,
            },
    {
        hex_string_to_bytes(self.signature.as_str())
    }

    /// The verified TCB mapping. Given are whether the signature of the text verifies
    /// under the issuer chain, and what the text parses to. A signature that is not in
    /// hexadecimal is reported first, one that does not verify next, and a text that does
    /// not parse last.
    pub fn verify_signature(
        &self,
        signature_verifies: bool,
        parsed: Option<TdTcbMapping>,
    ) -> (r: Result<TdTcbMapping, PolicyError>)
        ensures
            r == (if !is_hex(self.signature@) {
                Err::<TdTcbMapping, PolicyError>(PolicyError::InvalidParameter)
            } else if !signature_verifies {
                Err(PolicyError::SignatureVerificationFailed)
            } else {
                match parsed {
                    Some(mapping) => Ok(mapping),
                    None => Err(PolicyError::InvalidServtdTcbMapping),
                }
            }),
    {
        self.signature_bytes()?;
        if !signature_verifies {
            return Err(PolicyError::SignatureVerificationFailed);
        }
        match parsed {
            Some(mapping) => Ok(mapping),
            None => Err(PolicyError::InvalidServtdTcbMapping),
        }
    }
}

impl Measurements {
    /// The measurements of a service TD with the given `tdinfo_hash`.
    pub fn new_from_bytes(tdinfo_hash: &[u8]) -> (r: Self)
        ensures
            r.tdinfo_hash@ == hex_text(tdinfo_hash@),
    {
        Measurements { tdinfo_hash: bytes_to_hex_string(tdinfo_hash) }
    }

    /// The same measurements in upper case.
    fn to_ascii_uppercase(&self) -> (r: Self)
        ensures
            r.tdinfo_hash@ == upper_text(self.tdinfo_hash@),
    {
        Measurements { tdinfo_hash: to_upper_text(self.tdinfo_hash.as_str()) }
    }
}

impl TdTcbMapping {
    /// The security version of the service TD that a report describes: that of its
    /// `tdinfo_hash`, where the report has one.
    pub fn get_engine_svn_by_report(&self, report: &Report) -> (r: Option<u16>)
        ensures
            r == match reported_measurement(*report) {
                Some(measurement) => mapped_svn(self.svn_mappings@, measurement, 0),
                None => None,
            },
    {
        match compute_tdinfo_hash_from_report(report) {
            Ok(tdinfo_hash) => self.get_engine_svn_by_tdinfo_hash(&tdinfo_hash),
            Err(_) => None,
        }
    }

    /// The security version of a `tdinfo_hash`.
    pub fn get_engine_svn_by_tdinfo_hash(&self, tdinfo_hash: &[u8]) -> (r: Option<u16>)
        ensures
            r == hash_svn(self.svn_mappings@, tdinfo_hash@),
    {
        if tdinfo_hash.len() != SHA384_DIGEST_SIZE {
            return None;
        }
        let target = Measurements::new_from_bytes(tdinfo_hash);
        self.get_engine_svn_by_measurements(&target)
    }

    /// The security version of measurements: that of the first mapping with the same
    /// ones.
    pub fn get_engine_svn_by_measurements(&self, measurements: &Measurements) -> (r: Option<u16>)
        ensures
            r == mapped_svn(self.svn_mappings@, measurements.tdinfo_hash@, 0),
    {
        let mut i: usize = 0;
        while i < self.svn_mappings.len()
            invariant
                i <= self.svn_mappings@.len(),
                mapped_svn(self.svn_mappings@, measurements.tdinfo_hash@, 0) == mapped_svn(
                    self.svn_mappings@,
                    measurements.tdinfo_hash@,
                    i as int,
                ),
            decreases self.svn_mappings@.len() - i,
        {
            if Self::compare_measurements(&self.svn_mappings[i].td_measurements, measurements) {
                return Some(self.svn_mappings[i].isvsvn);
            }
            i += 1;
        }
        None
    }

    /// Whether two measurements are the same, the case of their letters aside.
    pub fn compare_measurements(pattern: &Measurements, target: &Measurements) -> (r: bool)
        ensures
            r == same_measurement(pattern.tdinfo_hash@, target.tdinfo_hash@),
    {
        let pattern = pattern.to_ascii_uppercase();
        let target = target.to_ascii_uppercase();
        text_eq(pattern.tdinfo_hash.as_str(), target.tdinfo_hash.as_str())
    }
}

/// A TCB level: the security version it is of, its date and its status.
#[derive(Debug, PartialEq, Eq)]
pub struct TcbLevel {
    pub isvsvn: u16,
    pub tcb_date: String,
    pub tcb_status: String,
}

/// The identity of a service TD: which TCB level a security version has.
#[derive(Debug, PartialEq, Eq)]
pub struct TdIdentity {
    pub id: String,
    pub version: u32,
    pub tcb_levels: Vec<TcbLevel>,
}

/// The first TCB level of a security version from position `i` on.
pub open spec fn level_of_svn(levels: Seq<TcbLevel>, svn: u16, i: int) -> Option<TcbLevel>
    decreases levels.len() - i,
{
    if 0 <= i < levels.len() {
        if levels[i].isvsvn == svn {
            Some(levels[i])
        } else {
            level_of_svn(levels, svn, i + 1)
        }
    } else {
        None
    }
}

impl TdIdentity {
    /// The TCB level of a security version: the first that is of it.
    pub fn get_tcb_level_by_svn(&self, svn: u16) -> (r: Option<&TcbLevel>)
        ensures
            match r {
                Some(level) => level_of_svn(self.tcb_levels@, svn, 0) == Some(*level),
                None => level_of_svn(self.tcb_levels@, svn, 0) is None,
            },
            match r {
                Some(level) => level.isvsvn == svn && exists|i: int|
                    0 <= i < self.tcb_levels@.len() && #[trigger] self.tcb_levels@[i] == *level && (
                    forall|j: int| 0 <= j < i ==> (#[trigger] self.tcb_levels@[j]).isvsvn != svn),
                None => forall|j: int|
                    0 <= j < self.tcb_levels@.len() ==> (#[trigger] self.tcb_levels@[j]).isvsvn
                        != svn,
            },
    {
        let mut i: usize = 0;
        while i < self.tcb_levels.len()
            invariant
                i <= self.tcb_levels@.len(),
                level_of_svn(self.tcb_levels@, svn, 0) == level_of_svn(
                    self.tcb_levels@,
                    svn,
                    i as int,
                ),
                forall|j: int| 0 <= j < i ==> (#[trigger] self.tcb_levels@[j]).isvsvn != svn,
            decreases self.tcb_levels@.len() - i,
        {
            if self.tcb_levels[i].isvsvn == svn {
                return Some(&self.tcb_levels[i]);
            }
            i += 1;
        }
        None
    }
}

} // verus!
