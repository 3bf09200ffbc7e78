//! The measurement fields of a service TD, as an attestation report gives them.
use vstd::prelude::*;

use crate::error::PolicyError;

verus! {

/// A field of the `TDINFO_STRUCT` of a service TD.
#[derive(Clone, Copy, Debug, PartialEq, Eq, Structural)]
pub enum MigTdInfoProperty {
    Attributes,
    Xfam,
    MrTd,
    MrConfigId,
    MrOwner,
    MrOwnerConfig,
    Rtmr0,
    Rtmr1,
    Rtmr2,
    Rtmr3,
}

/// A verified attestation report: for each field its bytes, or why it cannot be read.
#[derive(Debug, PartialEq, Eq)]
pub struct Report {
    pub attributes: Result<Vec<u8>, PolicyError>,
    pub xfam: Result<Vec<u8>, PolicyError>,
    pub mrtd: Result<Vec<u8>, PolicyError>,
    pub mrconfig_id: Result<Vec<u8>, PolicyError>,
    pub mrowner: Result<Vec<u8>, PolicyError>,
    pub mrownerconfig: Result<Vec<u8>, PolicyError>,
    pub rtmr0: Result<Vec<u8>, PolicyError>,
    pub rtmr1: Result<Vec<u8>, PolicyError>,
    pub rtmr2: Result<Vec<u8>, PolicyError>,
    pub rtmr3: Result<Vec<u8>, PolicyError>,
}

impl Report {
    /// What the report says of a field.
    pub open spec fn property(self, property: MigTdInfoProperty) -> Result<Vec<u8>, PolicyError> {
        match property {
            MigTdInfoProperty::Attributes => self.attributes,
            MigTdInfoProperty::Xfam => self.xfam,
            MigTdInfoProperty::MrTd => self.mrtd,
            MigTdInfoProperty::MrConfigId => self.mrconfig_id,
            MigTdInfoProperty::MrOwner => self.mrowner,
            MigTdInfoProperty::MrOwnerConfig => self.mrownerconfig,
            MigTdInfoProperty::Rtmr0 => self.rtmr0,
            MigTdInfoProperty::Rtmr1 => self.rtmr1,
            MigTdInfoProperty::Rtmr2 => self.rtmr2,
            MigTdInfoProperty::Rtmr3 => self.rtmr3,
        }
    }

    /// The bytes of a field, or why it cannot be read.
    pub fn get_migtd_info_property(&self, property: &MigTdInfoProperty) -> (r: Result<
        &[u8],
        PolicyError,
    >)
        ensures
            match self.property(*property) {
                Ok(bytes) => r is Ok && r->Ok_0@ == bytes@,
                Err(e) => r == Err::<&[u8], PolicyError>(e),
            },
    {
        let field = match property {
            MigTdInfoProperty::Attributes => &self.attributes,
            MigTdInfoProperty::Xfam => &self.xfam,
            MigTdInfoProperty::MrTd => &self.mrtd,
            MigTdInfoProperty::MrConfigId => &self.mrconfig_id,
            MigTdInfoProperty::MrOwner => &self.mrowner,
            MigTdInfoProperty::MrOwnerConfig => &self.mrownerconfig,
            MigTdInfoProperty::Rtmr0 => &self.rtmr0,
            MigTdInfoProperty::Rtmr1 => &self.rtmr1,
            MigTdInfoProperty::Rtmr2 => &self.rtmr2,
            MigTdInfoProperty::Rtmr3 => &self.rtmr3,
        };
        match field {
            Ok(bytes) => Ok(bytes.as_slice()),
            Err(e) => Err(*e),
        }
    }
}

} // verus!
