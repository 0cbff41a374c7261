//! The error taxonomy of the engine: input/parse errors, resolution errors,
//! and infrastructure errors. Check failures are not errors; they are search
//! data (see `check`).

use vstd::prelude::*;
use crate::manifest::BareVersion;
use crate::version::Version;

verus! {

/// The error type of the TOML parser this crate relies on for manifest
/// reading.
#[verifier::external_type_specification]
#[verifier::external_body]
pub struct ExTomlError(decent_toml_rs_alternative::TomlError);

/// Every failure the engine can abort a run with.
///
/// A failing check is deliberately absent: it is an ordinary search outcome,
/// not an error.
#[derive(Debug)]
pub enum CargoMSRVError {
    /// A bare version string was malformed in a structural way: a missing
    /// second component, or tokens after the third component.
    UnableToParseBareVersion { version: String, message: String },
    /// A component of a bare version string was not an unsigned 64-bit
    /// numeral; carries the offending token.
    UnableToParseBareVersionNumber(String),
    /// The manifest was not well-formed TOML.
    ParseToml(decent_toml_rs_alternative::TomlError),
    /// No release in the catalog satisfies the manifest-declared bare
    /// version; carries the requirement and all available versions.
    NoVersionMatchesManifestMSRV(BareVersion, Vec<Version>),
    /// The catalog was empty after bounds filtering.
    NoCandidatesInRange,
    /// The release index could not be retrieved.
    ReleaseIndexUnavailable,
    /// A toolchain could not be installed; distinct from a failing check and
    /// fatal to the run.
    ToolchainInstallFailed(Version),
    /// The log folder could not be accessed.
    UnableToAccessLogFolder,
}

} // verus!
