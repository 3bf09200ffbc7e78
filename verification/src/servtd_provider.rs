//! One way to look up the TCB level of a service TD, whatever form its collateral has.
use vstd::prelude::*;

use crate::report::Report;
use crate::servtd_collateral::{
    level_of_svn, mapped_svn, reported_measurement, Measurements, TdIdentity, TdTcbMapping,
};
use crate::servtd_corim::{comids_level, comids_svn, ServtdCorim};
use crate::tdinfo::compute_tdinfo_hash_from_report;

verus! {

/// What a lookup finds: the security version of a service TD, and the date and the status
/// of its TCB level.
pub struct LookupView {
    pub isvsvn: u16,
    pub tcb_date: Seq<char>,
    pub tcb_status: Seq<char>,
}

/// What a lookup finds: the security version of a service TD, and the date and the status
/// of its TCB level.
#[derive(Clone, Debug, PartialEq, Eq)]
pub struct ServtdLookup {
    pub isvsvn: u16,
    pub tcb_date: String,
    pub tcb_status: String,
}

impl View for ServtdLookup {
    type V = LookupView;

    open spec fn view(&self) -> LookupView {
        LookupView {
            isvsvn: self.isvsvn,
            tcb_date: self.tcb_date@,
            tcb_status: self.tcb_status@,
        }
    }
}

/// The keys by which a service TD can be looked up.
pub struct IdentityView {
    pub measurements: Option<Seq<char>>,
    pub servtd_info_hash: Option<Seq<u8>>,
}

/// The keys by which a service TD can be looked up. A caller gives those it has; a
/// provider looks at its own key and at no other.
#[derive(Clone, Copy)]
pub struct ServtdIdentity<'a> {
    /// The measurements, the key of the JSON collateral.
    pub measurements: Option<&'a Measurements>,
    /// The `SERVTD_INFO_HASH` of the TDX binding table, the key of the CoRIM collateral.
    pub servtd_info_hash: Option<&'a [u8]>,
}

impl<'a> View for ServtdIdentity<'a> {
    type V = IdentityView;

    open spec fn view(&self) -> IdentityView {
        IdentityView {
            measurements: match self.measurements {
                Some(m) => Some(m.tdinfo_hash@),
                None => None,
            },
            servtd_info_hash: match self.servtd_info_hash {
                Some(hash) => Some(hash@),
                None => None,
            },
        }
    }
}

impl<'a> Default for ServtdIdentity<'a> {
    /// An identity without any key.
    fn default() -> (r: Self)
        ensures
            r@ == (IdentityView { measurements: None, servtd_info_hash: None }),
    {
        ServtdIdentity { measurements: None, servtd_info_hash: None }
    }
}

impl<'a> ServtdIdentity<'a> {
    /// An identity with measurements alone.
    pub fn from_measurements(measurements: &'a Measurements) -> (r: Self)
        ensures
            r@ == (IdentityView {
                measurements: Some(measurements.tdinfo_hash@),
                servtd_info_hash: None,
            }),
    {
        ServtdIdentity { measurements: Some(measurements), servtd_info_hash: None }
    }

    /// An identity with a `SERVTD_INFO_HASH` alone.
    pub fn from_hash(hash: &'a [u8]) -> (r: Self)
        ensures
            r@ == (IdentityView { measurements: None, servtd_info_hash: Some(hash@) }),
    {
        ServtdIdentity { measurements: None, servtd_info_hash: Some(hash) }
    }

    /// The same identity with a `SERVTD_INFO_HASH`.
    pub fn with_hash(self, hash: &'a [u8]) -> (r: Self)
        ensures
            r@ == (IdentityView {
                measurements: self@.measurements,
                servtd_info_hash: Some(hash@),
            }),
    {
        ServtdIdentity { measurements: self.measurements, servtd_info_hash: Some(hash) }
    }
}

/// What a lookup returns, as a model.
pub open spec fn lookup_view(lookup: Option<ServtdLookup>) -> Option<LookupView> {
    match lookup {
        Some(found) => Some(found@),
        None => None,
    }
}

/// Service-TD collateral in any form.
pub trait ServtdProvider {
    /// What the collateral says of an identity.
    spec fn resolved(&self, id: IdentityView) -> Option<LookupView>;

    /// The security version and the TCB level of a service TD, or nothing where the
    /// identity lacks the key of this provider or the collateral lacks the key's value.
    fn lookup(&self, id: &ServtdIdentity) -> (r: Option<ServtdLookup>)
        ensures
            lookup_view(r) == self.resolved(id@),
    ;
}

/// The lookup in JSON collateral: a TCB mapping and an identity.
pub struct LegacyServtdProvider<'a> {
    pub tcb_mapping: &'a TdTcbMapping,
    pub identity: &'a TdIdentity,
}

impl<'a> LegacyServtdProvider<'a> {
    /// The lookup in the given TCB mapping and identity.
    pub fn new(tcb_mapping: &'a TdTcbMapping, identity: &'a TdIdentity) -> (r: Self)
        ensures
            r.tcb_mapping == tcb_mapping,
            r.identity == identity,
    {
        LegacyServtdProvider { tcb_mapping, identity }
    }
}

impl<'a> ServtdProvider for LegacyServtdProvider<'a> {
    open spec fn resolved(&self, id: IdentityView) -> Option<LookupView> {
        match id.measurements {
            Some(measurements) => match mapped_svn(
                self.tcb_mapping.svn_mappings@,
                measurements,
                0,
            ) {
                Some(isvsvn) => match level_of_svn(self.identity.tcb_levels@, isvsvn, 0) {
                    Some(level) => Some(
                        LookupView {
                            isvsvn,
                            tcb_date: level.tcb_date@,
                            tcb_status: level.tcb_status@,
                        },
                    ),
                    None => None,
                },
                None => None,
            },
            None => None,
        }
    }

    fn lookup(&self, id: &ServtdIdentity) -> (r: Option<ServtdLookup>) {
        let measurements = id.measurements?;
        let isvsvn = self.tcb_mapping.get_engine_svn_by_measurements(measurements)?;
        let level = self.identity.get_tcb_level_by_svn(isvsvn)?;
        Some(
            ServtdLookup {
                isvsvn,
                tcb_date: level.tcb_date.clone(),
                tcb_status: level.tcb_status.clone(),
            },
        )
    }
}

impl ServtdProvider for ServtdCorim {
    open spec fn resolved(&self, id: IdentityView) -> Option<LookupView> {
        match id.servtd_info_hash {
            Some(hash) => match comids_svn(self@.tcb_mapping, hash, 0) {
                Some(isvsvn) => match comids_level(self@.td_identity, isvsvn) {
                    Some(level) => Some(
                        LookupView { isvsvn, tcb_date: level.0, tcb_status: level.1 },
                    ),
                    None => None,
                },
                None => None,
            },
            None => None,
        }
    }

    fn lookup(&self, id: &ServtdIdentity) -> (r: Option<ServtdLookup>) {
        let hash = id.servtd_info_hash?;
        let isvsvn = self.svn_for_hash(hash)?;
        let (tcb_date, tcb_status) = self.level_for_svn(isvsvn)?;
        Some(ServtdLookup { isvsvn, tcb_date, tcb_status })
    }
}

/// The measurements of the service TD that a report describes, where it has a
/// `tdinfo_hash`.
pub fn measurements_from_report(report: &Report) -> (r: Option<Measurements>)
    ensures
        match reported_measurement(*report) {
            Some(measurement) => r is Some && r->0.tdinfo_hash@ == measurement,
            None => r is None,
        },
{
    match compute_tdinfo_hash_from_report(report) {
        Ok(tdinfo_hash) => Some(Measurements::new_from_bytes(&tdinfo_hash)),
        Err(_) => None,
    }
}

} // verus!
