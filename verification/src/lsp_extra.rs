//! The rust-analyzer extension methods the router knows beyond the LSP
//! core: one it intercepts, two it forwards untouched.

use vstd::prelude::*;
use crate::bytes::{
    b_reload_workspace, k_reload_workspace, b_rebuild_proc_macros, k_rebuild_proc_macros,
    b_run_fly_check, k_run_fly_check,
};

verus! {

/// `rust-analyzer/reloadWorkspace`: a request the router intercepts to
/// refresh every managed script.
pub enum ReloadWorkspace {
    Marker,
}

impl ReloadWorkspace {
    pub fn method() -> (r: Vec<u8>)
        ensures
            r@ == k_reload_workspace(),
    {
        b_reload_workspace()
    }
}

/// `rust-analyzer/rebuildProcMacros`: passed through.
pub enum RebuildProcMacros {
    Marker,
}

impl RebuildProcMacros {
    pub fn method() -> (r: Vec<u8>)
        ensures
            r@ == k_rebuild_proc_macros(),
    {
        b_rebuild_proc_macros()
    }
}

/// `rust-analyzer/runFlyCheck`: passed through.
pub enum RunFlyCheck {
    Marker,
}

impl RunFlyCheck {
    pub fn method() -> (r: Vec<u8>)
        ensures
            r@ == k_run_fly_check(),
    {
        b_run_fly_check()
    }
}

} // verus!
