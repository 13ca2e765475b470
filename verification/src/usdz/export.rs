//! Export functionality for the 3D PCB model.

use vstd::prelude::*;

use crate::intermediate::model::PCBModel;

verus! {

/// Exports a PCB model to USDZ format.
///
/// The binary-archive export path is not offered: the call always reports
/// failure, and the caller is expected to fall back to another format.
pub fn export_to_usdz(_model: &PCBModel, _output_path: &str) -> (r: Result<(), String>)
    ensures
        r matches Err(m) && m@ == "USDZ export not yet implemented"@,
{
    Err("USDZ export not yet implemented".to_owned())
}

} // verus!
