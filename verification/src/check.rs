//! Classification of one toolchain check: what the toolchain manager and
//! the validation command reported, folded into either a check outcome or a
//! fatal infrastructure error.

use vstd::prelude::*;
use crate::errors::CargoMSRVError;
use crate::version::Version;

verus! {

/// The outcome of one executed check: the probed version, whether the
/// validation command succeeded, and its captured diagnostic output.
#[derive(Debug)]
pub struct CheckOutcome {
    pub version: Version,
    pub passed: bool,
    pub diagnostic: String,
}

/// Folds the results of one install-and-run cycle into search data.
///
/// A failed toolchain installation is a fatal infrastructure error, never a
/// check outcome. Once the toolchain is installed, the check passes exactly
/// when the validation command ran and exited with status zero; a nonzero
/// status or a command that could not run at all is a failing outcome
/// carrying the diagnostic output, not an error.
pub fn classify_check(version: Version, install_succeeded: bool, exit_code: Option<i32>, output:
    String) -> (r: Result<CheckOutcome, CargoMSRVError>)
    ensures
        !install_succeeded ==> (r matches Err(CargoMSRVError::ToolchainInstallFailed(v)) && v
            == version),
        install_succeeded ==> (r matches Ok(o) && o.version == version && (o.passed <==> exit_code
            == Some(0i32)) && o.diagnostic@ == output@),
{
    if !install_succeeded {
        return Err(CargoMSRVError::ToolchainInstallFailed(version));
    }
    let passed = match exit_code {
        Some(code) => code == 0,
        None => false,
    };
    Ok(CheckOutcome { version, passed, diagnostic: output })
}

} // verus!
