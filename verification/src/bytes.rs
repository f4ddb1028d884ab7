//! The byte-string constants of the protocol: method names, JSON keys
//! and the handful of literal values the router compares against or
//! writes, each as a specification sequence with its executable twin.

use vstd::prelude::*;

verus! {

/// Byte-for-byte equality of two byte vectors.
pub fn bytes_eq(a: &Vec<u8>, b: &Vec<u8>) -> (r: bool)
    ensures
        r == (a@ == b@),
{
    if a.len() != b.len() {
        return false;
    }
    let mut k: usize = 0;
    while k < a.len()
        invariant
            k <= a.len(),
            a@.len() == b@.len(),
            forall|m: int| 0 <= m < k ==> a@[m] == b@[m],
        decreases a.len() - k,
    {
        if a[k] != b[k] {
            return false;
        }
        k = k + 1;
    }
    proof {
        assert(a@ =~= b@);
    }
    true
}

/// A copy of a byte vector.
pub fn bytes_clone(a: &Vec<u8>) -> (r: Vec<u8>)
    ensures
        r@ == a@,
{
    let mut out: Vec<u8> = Vec::new();
    let mut k: usize = 0;
    while k < a.len()
        invariant
            k <= a.len(),
            out@ == a@.subrange(0, k as int),
        decreases a.len() - k,
    {
        out.push(a[k]);
        k = k + 1;
        proof {
            assert(a@.subrange(0, k as int) =~= a@.subrange(0, k - 1).push(a@[k - 1]));
        }
    }
    proof {
        assert(a@.subrange(0, a@.len() as int) =~= a@);
    }
    out
}

/// `"jsonrpc"`.
pub open spec fn k_jsonrpc() -> Seq<u8> {
    seq![0x6Au8, 0x73u8, 0x6Fu8, 0x6Eu8, 0x72u8, 0x70u8, 0x63u8]
}

pub fn b_jsonrpc() -> (r: Vec<u8>)
    ensures
        r@ == k_jsonrpc(),
{
    let mut v: Vec<u8> = Vec::new();
    v.push(0x6Au8);
    v.push(0x73u8);
    v.push(0x6Fu8);
    v.push(0x6Eu8);
    v.push(0x72u8);
    v.push(0x70u8);
    v.push(0x63u8);
    proof {
        assert(v@ =~= k_jsonrpc());
    }
    v
}

/// `"2.0"`.
pub open spec fn k_two_zero() -> Seq<u8> {
    seq![0x32u8, 0x2Eu8, 0x30u8]
}

pub fn b_two_zero() -> (r: Vec<u8>)
    ensures
        r@ == k_two_zero(),
{
    let mut v: Vec<u8> = Vec::new();
    v.push(0x32u8);
    v.push(0x2Eu8);
    v.push(0x30u8);
    proof {
        assert(v@ =~= k_two_zero());
    }
    v
}

/// `"id"`.
pub open spec fn k_id() -> Seq<u8> {
    seq![0x69u8, 0x64u8]
}

pub fn b_id() -> (r: Vec<u8>)
    ensures
        r@ == k_id(),
{
    let mut v: Vec<u8> = Vec::new();
    v.push(0x69u8);
    v.push(0x64u8);
    proof {
        assert(v@ =~= k_id());
    }
    v
}

/// `"method"`.
pub open spec fn k_method() -> Seq<u8> {
    seq![0x6Du8, 0x65u8, 0x74u8, 0x68u8, 0x6Fu8, 0x64u8]
}

pub fn b_method() -> (r: Vec<u8>)
    ensures
        r@ == k_method(),
{
    let mut v: Vec<u8> = Vec::new();
    v.push(0x6Du8);
    v.push(0x65u8);
    v.push(0x74u8);
    v.push(0x68u8);
    v.push(0x6Fu8);
    v.push(0x64u8);
    proof {
        assert(v@ =~= k_method());
    }
    v
}

/// `"params"`.
pub open spec fn k_params() -> Seq<u8> {
    seq![0x70u8, 0x61u8, 0x72u8, 0x61u8, 0x6Du8, 0x73u8]
}

pub fn b_params() -> (r: Vec<u8>)
    ensures
        r@ == k_params(),
{
    let mut v: Vec<u8> = Vec::new();
    v.push(0x70u8);
    v.push(0x61u8);
    v.push(0x72u8);
    v.push(0x61u8);
    v.push(0x6Du8);
    v.push(0x73u8);
    proof {
        assert(v@ =~= k_params());
    }
    v
}

/// `"result"`.
pub open spec fn k_result() -> Seq<u8> {
    seq![0x72u8, 0x65u8, 0x73u8, 0x75u8, 0x6Cu8, 0x74u8]
}

pub fn b_result() -> (r: Vec<u8>)
    ensures
        r@ == k_result(),
{
    let mut v: Vec<u8> = Vec::new();
    v.push(0x72u8);
    v.push(0x65u8);
    v.push(0x73u8);
    v.push(0x75u8);
    v.push(0x6Cu8);
    v.push(0x74u8);
    proof {
        assert(v@ =~= k_result());
    }
    v
}

/// `"error"`.
pub open spec fn k_error() -> Seq<u8> {
    seq![0x65u8, 0x72u8, 0x72u8, 0x6Fu8, 0x72u8]
}

pub fn b_error() -> (r: Vec<u8>)
    ensures
        r@ == k_error(),
{
    let mut v: Vec<u8> = Vec::new();
    v.push(0x65u8);
    v.push(0x72u8);
    v.push(0x72u8);
    v.push(0x6Fu8);
    v.push(0x72u8);
    proof {
        assert(v@ =~= k_error());
    }
    v
}

/// `"exit"`.
pub open spec fn k_exit() -> Seq<u8> {
    seq![0x65u8, 0x78u8, 0x69u8, 0x74u8]
}

pub fn b_exit() -> (r: Vec<u8>)
    ensures
        r@ == k_exit(),
{
    let mut v: Vec<u8> = Vec::new();
    v.push(0x65u8);
    v.push(0x78u8);
    v.push(0x69u8);
    v.push(0x74u8);
    proof {
        assert(v@ =~= k_exit());
    }
    v
}

/// `"initialize"`.
pub open spec fn k_initialize() -> Seq<u8> {
    seq![0x69u8, 0x6Eu8, 0x69u8, 0x74u8, 0x69u8, 0x61u8, 0x6Cu8, 0x69u8, 0x7Au8, 0x65u8]
}

pub fn b_initialize() -> (r: Vec<u8>)
    ensures
        r@ == k_initialize(),
{
    let mut v: Vec<u8> = Vec::new();
    v.push(0x69u8);
    v.push(0x6Eu8);
    v.push(0x69u8);
    v.push(0x74u8);
    v.push(0x69u8);
    v.push(0x61u8);
    v.push(0x6Cu8);
    v.push(0x69u8);
    v.push(0x7Au8);
    v.push(0x65u8);
    proof {
        assert(v@ =~= k_initialize());
    }
    v
}

/// `"textDocument/didOpen"`.
pub open spec fn k_did_open() -> Seq<u8> {
    seq![0x74u8, 0x65u8, 0x78u8, 0x74u8, 0x44u8, 0x6Fu8, 0x63u8, 0x75u8, 0x6Du8, 0x65u8, 0x6Eu8, 0x74u8, 0x2Fu8, 0x64u8, 0x69u8, 0x64u8, 0x4Fu8, 0x70u8, 0x65u8, 0x6Eu8]
}

pub fn b_did_open() -> (r: Vec<u8>)
    ensures
        r@ == k_did_open(),
{
    let mut v: Vec<u8> = Vec::new();
    v.push(0x74u8);
    v.push(0x65u8);
    v.push(0x78u8);
    v.push(0x74u8);
    v.push(0x44u8);
    v.push(0x6Fu8);
    v.push(0x63u8);
    v.push(0x75u8);
    v.push(0x6Du8);
    v.push(0x65u8);
    v.push(0x6Eu8);
    v.push(0x74u8);
    v.push(0x2Fu8);
    v.push(0x64u8);
    v.push(0x69u8);
    v.push(0x64u8);
    v.push(0x4Fu8);
    v.push(0x70u8);
    v.push(0x65u8);
    v.push(0x6Eu8);
    proof {
        assert(v@ =~= k_did_open());
    }
    v
}

/// `"textDocument/didClose"`.
pub open spec fn k_did_close() -> Seq<u8> {
    seq![0x74u8, 0x65u8, 0x78u8, 0x74u8, 0x44u8, 0x6Fu8, 0x63u8, 0x75u8, 0x6Du8, 0x65u8, 0x6Eu8, 0x74u8, 0x2Fu8, 0x64u8, 0x69u8, 0x64u8, 0x43u8, 0x6Cu8, 0x6Fu8, 0x73u8, 0x65u8]
}

pub fn b_did_close() -> (r: Vec<u8>)
    ensures
        r@ == k_did_close(),
{
    let mut v: Vec<u8> = Vec::new();
    v.push(0x74u8);
    v.push(0x65u8);
    v.push(0x78u8);
    v.push(0x74u8);
    v.push(0x44u8);
    v.push(0x6Fu8);
    v.push(0x63u8);
    v.push(0x75u8);
    v.push(0x6Du8);
    v.push(0x65u8);
    v.push(0x6Eu8);
    v.push(0x74u8);
    v.push(0x2Fu8);
    v.push(0x64u8);
    v.push(0x69u8);
    v.push(0x64u8);
    v.push(0x43u8);
    v.push(0x6Cu8);
    v.push(0x6Fu8);
    v.push(0x73u8);
    v.push(0x65u8);
    proof {
        assert(v@ =~= k_did_close());
    }
    v
}

/// `"textDocument/didSave"`.
pub open spec fn k_did_save() -> Seq<u8> {
    seq![0x74u8, 0x65u8, 0x78u8, 0x74u8, 0x44u8, 0x6Fu8, 0x63u8, 0x75u8, 0x6Du8, 0x65u8, 0x6Eu8, 0x74u8, 0x2Fu8, 0x64u8, 0x69u8, 0x64u8, 0x53u8, 0x61u8, 0x76u8, 0x65u8]
}

pub fn b_did_save() -> (r: Vec<u8>)
    ensures
        r@ == k_did_save(),
{
    let mut v: Vec<u8> = Vec::new();
    v.push(0x74u8);
    v.push(0x65u8);
    v.push(0x78u8);
    v.push(0x74u8);
    v.push(0x44u8);
    v.push(0x6Fu8);
    v.push(0x63u8);
    v.push(0x75u8);
    v.push(0x6Du8);
    v.push(0x65u8);
    v.push(0x6Eu8);
    v.push(0x74u8);
    v.push(0x2Fu8);
    v.push(0x64u8);
    v.push(0x69u8);
    v.push(0x64u8);
    v.push(0x53u8);
    v.push(0x61u8);
    v.push(0x76u8);
    v.push(0x65u8);
    proof {
        assert(v@ =~= k_did_save());
    }
    v
}

/// `"workspace/configuration"`.
pub open spec fn k_workspace_configuration() -> Seq<u8> {
    seq![0x77u8, 0x6Fu8, 0x72u8, 0x6Bu8, 0x73u8, 0x70u8, 0x61u8, 0x63u8, 0x65u8, 0x2Fu8, 0x63u8, 0x6Fu8, 0x6Eu8, 0x66u8, 0x69u8, 0x67u8, 0x75u8, 0x72u8, 0x61u8, 0x74u8, 0x69u8, 0x6Fu8, 0x6Eu8]
}

pub fn b_workspace_configuration() -> (r: Vec<u8>)
    ensures
        r@ == k_workspace_configuration(),
{
    let mut v: Vec<u8> = Vec::new();
    v.push(0x77u8);
    v.push(0x6Fu8);
    v.push(0x72u8);
    v.push(0x6Bu8);
    v.push(0x73u8);
    v.push(0x70u8);
    v.push(0x61u8);
    v.push(0x63u8);
    v.push(0x65u8);
    v.push(0x2Fu8);
    v.push(0x63u8);
    v.push(0x6Fu8);
    v.push(0x6Eu8);
    v.push(0x66u8);
    v.push(0x69u8);
    v.push(0x67u8);
    v.push(0x75u8);
    v.push(0x72u8);
    v.push(0x61u8);
    v.push(0x74u8);
    v.push(0x69u8);
    v.push(0x6Fu8);
    v.push(0x6Eu8);
    proof {
        assert(v@ =~= k_workspace_configuration());
    }
    v
}

/// `"workspace/didChangeConfiguration"`.
pub open spec fn k_did_change_configuration() -> Seq<u8> {
    seq![0x77u8, 0x6Fu8, 0x72u8, 0x6Bu8, 0x73u8, 0x70u8, 0x61u8, 0x63u8, 0x65u8, 0x2Fu8, 0x64u8, 0x69u8, 0x64u8, 0x43u8, 0x68u8, 0x61u8, 0x6Eu8, 0x67u8, 0x65u8, 0x43u8, 0x6Fu8, 0x6Eu8, 0x66u8, 0x69u8, 0x67u8, 0x75u8, 0x72u8, 0x61u8, 0x74u8, 0x69u8, 0x6Fu8, 0x6Eu8]
}

pub fn b_did_change_configuration() -> (r: Vec<u8>)
    ensures
        r@ == k_did_change_configuration(),
{
    let mut v: Vec<u8> = Vec::new();
    v.push(0x77u8);
    v.push(0x6Fu8);
    v.push(0x72u8);
    v.push(0x6Bu8);
    v.push(0x73u8);
    v.push(0x70u8);
    v.push(0x61u8);
    v.push(0x63u8);
    v.push(0x65u8);
    v.push(0x2Fu8);
    v.push(0x64u8);
    v.push(0x69u8);
    v.push(0x64u8);
    v.push(0x43u8);
    v.push(0x68u8);
    v.push(0x61u8);
    v.push(0x6Eu8);
    v.push(0x67u8);
    v.push(0x65u8);
    v.push(0x43u8);
    v.push(0x6Fu8);
    v.push(0x6Eu8);
    v.push(0x66u8);
    v.push(0x69u8);
    v.push(0x67u8);
    v.push(0x75u8);
    v.push(0x72u8);
    v.push(0x61u8);
    v.push(0x74u8);
    v.push(0x69u8);
    v.push(0x6Fu8);
    v.push(0x6Eu8);
    proof {
        assert(v@ =~= k_did_change_configuration());
    }
    v
}

/// `"rust-analyzer/reloadWorkspace"`.
pub open spec fn k_reload_workspace() -> Seq<u8> {
    seq![0x72u8, 0x75u8, 0x73u8, 0x74u8, 0x2Du8, 0x61u8, 0x6Eu8, 0x61u8, 0x6Cu8, 0x79u8, 0x7Au8, 0x65u8, 0x72u8, 0x2Fu8, 0x72u8, 0x65u8, 0x6Cu8, 0x6Fu8, 0x61u8, 0x64u8, 0x57u8, 0x6Fu8, 0x72u8, 0x6Bu8, 0x73u8, 0x70u8, 0x61u8, 0x63u8, 0x65u8]
}

pub fn b_reload_workspace() -> (r: Vec<u8>)
    ensures
        r@ == k_reload_workspace(),
{
    let mut v: Vec<u8> = Vec::new();
    v.push(0x72u8);
    v.push(0x75u8);
    v.push(0x73u8);
    v.push(0x74u8);
    v.push(0x2Du8);
    v.push(0x61u8);
    v.push(0x6Eu8);
    v.push(0x61u8);
    v.push(0x6Cu8);
    v.push(0x79u8);
    v.push(0x7Au8);
    v.push(0x65u8);
    v.push(0x72u8);
    v.push(0x2Fu8);
    v.push(0x72u8);
    v.push(0x65u8);
    v.push(0x6Cu8);
    v.push(0x6Fu8);
    v.push(0x61u8);
    v.push(0x64u8);
    v.push(0x57u8);
    v.push(0x6Fu8);
    v.push(0x72u8);
    v.push(0x6Bu8);
    v.push(0x73u8);
    v.push(0x70u8);
    v.push(0x61u8);
    v.push(0x63u8);
    v.push(0x65u8);
    proof {
        assert(v@ =~= k_reload_workspace());
    }
    v
}

/// `"rust-analyzer/rebuildProcMacros"`.
pub open spec fn k_rebuild_proc_macros() -> Seq<u8> {
    seq![0x72u8, 0x75u8, 0x73u8, 0x74u8, 0x2Du8, 0x61u8, 0x6Eu8, 0x61u8, 0x6Cu8, 0x79u8, 0x7Au8, 0x65u8, 0x72u8, 0x2Fu8, 0x72u8, 0x65u8, 0x62u8, 0x75u8, 0x69u8, 0x6Cu8, 0x64u8, 0x50u8, 0x72u8, 0x6Fu8, 0x63u8, 0x4Du8, 0x61u8, 0x63u8, 0x72u8, 0x6Fu8, 0x73u8]
}

pub fn b_rebuild_proc_macros() -> (r: Vec<u8>)
    ensures
        r@ == k_rebuild_proc_macros(),
{
    let mut v: Vec<u8> = Vec::new();
    v.push(0x72u8);
    v.push(0x75u8);
    v.push(0x73u8);
    v.push(0x74u8);
    v.push(0x2Du8);
    v.push(0x61u8);
    v.push(0x6Eu8);
    v.push(0x61u8);
    v.push(0x6Cu8);
    v.push(0x79u8);
    v.push(0x7Au8);
    v.push(0x65u8);
    v.push(0x72u8);
    v.push(0x2Fu8);
    v.push(0x72u8);
    v.push(0x65u8);
    v.push(0x62u8);
    v.push(0x75u8);
    v.push(0x69u8);
    v.push(0x6Cu8);
    v.push(0x64u8);
    v.push(0x50u8);
    v.push(0x72u8);
    v.push(0x6Fu8);
    v.push(0x63u8);
    v.push(0x4Du8);
    v.push(0x61u8);
    v.push(0x63u8);
    v.push(0x72u8);
    v.push(0x6Fu8);
    v.push(0x73u8);
    proof {
        assert(v@ =~= k_rebuild_proc_macros());
    }
    v
}

/// `"rust-analyzer/runFlyCheck"`.
pub open spec fn k_run_fly_check() -> Seq<u8> {
    seq![0x72u8, 0x75u8, 0x73u8, 0x74u8, 0x2Du8, 0x61u8, 0x6Eu8, 0x61u8, 0x6Cu8, 0x79u8, 0x7Au8, 0x65u8, 0x72u8, 0x2Fu8, 0x72u8, 0x75u8, 0x6Eu8, 0x46u8, 0x6Cu8, 0x79u8, 0x43u8, 0x68u8, 0x65u8, 0x63u8, 0x6Bu8]
}

pub fn b_run_fly_check() -> (r: Vec<u8>)
    ensures
        r@ == k_run_fly_check(),
{
    let mut v: Vec<u8> = Vec::new();
    v.push(0x72u8);
    v.push(0x75u8);
    v.push(0x73u8);
    v.push(0x74u8);
    v.push(0x2Du8);
    v.push(0x61u8);
    v.push(0x6Eu8);
    v.push(0x61u8);
    v.push(0x6Cu8);
    v.push(0x79u8);
    v.push(0x7Au8);
    v.push(0x65u8);
    v.push(0x72u8);
    v.push(0x2Fu8);
    v.push(0x72u8);
    v.push(0x75u8);
    v.push(0x6Eu8);
    v.push(0x46u8);
    v.push(0x6Cu8);
    v.push(0x79u8);
    v.push(0x43u8);
    v.push(0x68u8);
    v.push(0x65u8);
    v.push(0x63u8);
    v.push(0x6Bu8);
    proof {
        assert(v@ =~= k_run_fly_check());
    }
    v
}

/// `"initializationOptions"`.
pub open spec fn k_initialization_options() -> Seq<u8> {
    seq![0x69u8, 0x6Eu8, 0x69u8, 0x74u8, 0x69u8, 0x61u8, 0x6Cu8, 0x69u8, 0x7Au8, 0x61u8, 0x74u8, 0x69u8, 0x6Fu8, 0x6Eu8, 0x4Fu8, 0x70u8, 0x74u8, 0x69u8, 0x6Fu8, 0x6Eu8, 0x73u8]
}

pub fn b_initialization_options() -> (r: Vec<u8>)
    ensures
        r@ == k_initialization_options(),
{
    let mut v: Vec<u8> = Vec::new();
    v.push(0x69u8);
    v.push(0x6Eu8);
    v.push(0x69u8);
    v.push(0x74u8);
    v.push(0x69u8);
    v.push(0x61u8);
    v.push(0x6Cu8);
    v.push(0x69u8);
    v.push(0x7Au8);
    v.push(0x61u8);
    v.push(0x74u8);
    v.push(0x69u8);
    v.push(0x6Fu8);
    v.push(0x6Eu8);
    v.push(0x4Fu8);
    v.push(0x70u8);
    v.push(0x74u8);
    v.push(0x69u8);
    v.push(0x6Fu8);
    v.push(0x6Eu8);
    v.push(0x73u8);
    proof {
        assert(v@ =~= k_initialization_options());
    }
    v
}

/// `"linkedProjects"`.
pub open spec fn k_linked_projects() -> Seq<u8> {
    seq![0x6Cu8, 0x69u8, 0x6Eu8, 0x6Bu8, 0x65u8, 0x64u8, 0x50u8, 0x72u8, 0x6Fu8, 0x6Au8, 0x65u8, 0x63u8, 0x74u8, 0x73u8]
}

pub fn b_linked_projects() -> (r: Vec<u8>)
    ensures
        r@ == k_linked_projects(),
{
    let mut v: Vec<u8> = Vec::new();
    v.push(0x6Cu8);
    v.push(0x69u8);
    v.push(0x6Eu8);
    v.push(0x6Bu8);
    v.push(0x65u8);
    v.push(0x64u8);
    v.push(0x50u8);
    v.push(0x72u8);
    v.push(0x6Fu8);
    v.push(0x6Au8);
    v.push(0x65u8);
    v.push(0x63u8);
    v.push(0x74u8);
    v.push(0x73u8);
    proof {
        assert(v@ =~= k_linked_projects());
    }
    v
}

/// `"textDocument"`.
pub open spec fn k_text_document() -> Seq<u8> {
    seq![0x74u8, 0x65u8, 0x78u8, 0x74u8, 0x44u8, 0x6Fu8, 0x63u8, 0x75u8, 0x6Du8, 0x65u8, 0x6Eu8, 0x74u8]
}

pub fn b_text_document() -> (r: Vec<u8>)
    ensures
        r@ == k_text_document(),
{
    let mut v: Vec<u8> = Vec::new();
    v.push(0x74u8);
    v.push(0x65u8);
    v.push(0x78u8);
    v.push(0x74u8);
    v.push(0x44u8);
    v.push(0x6Fu8);
    v.push(0x63u8);
    v.push(0x75u8);
    v.push(0x6Du8);
    v.push(0x65u8);
    v.push(0x6Eu8);
    v.push(0x74u8);
    proof {
        assert(v@ =~= k_text_document());
    }
    v
}

/// `"languageId"`.
pub open spec fn k_language_id() -> Seq<u8> {
    seq![0x6Cu8, 0x61u8, 0x6Eu8, 0x67u8, 0x75u8, 0x61u8, 0x67u8, 0x65u8, 0x49u8, 0x64u8]
}

pub fn b_language_id() -> (r: Vec<u8>)
    ensures
        r@ == k_language_id(),
{
    let mut v: Vec<u8> = Vec::new();
    v.push(0x6Cu8);
    v.push(0x61u8);
    v.push(0x6Eu8);
    v.push(0x67u8);
    v.push(0x75u8);
    v.push(0x61u8);
    v.push(0x67u8);
    v.push(0x65u8);
    v.push(0x49u8);
    v.push(0x64u8);
    proof {
        assert(v@ =~= k_language_id());
    }
    v
}

/// `"uri"`.
pub open spec fn k_uri() -> Seq<u8> {
    seq![0x75u8, 0x72u8, 0x69u8]
}

pub fn b_uri() -> (r: Vec<u8>)
    ensures
        r@ == k_uri(),
{
    let mut v: Vec<u8> = Vec::new();
    v.push(0x75u8);
    v.push(0x72u8);
    v.push(0x69u8);
    proof {
        assert(v@ =~= k_uri());
    }
    v
}

/// `"items"`.
pub open spec fn k_items() -> Seq<u8> {
    seq![0x69u8, 0x74u8, 0x65u8, 0x6Du8, 0x73u8]
}

pub fn b_items() -> (r: Vec<u8>)
    ensures
        r@ == k_items(),
{
    let mut v: Vec<u8> = Vec::new();
    v.push(0x69u8);
    v.push(0x74u8);
    v.push(0x65u8);
    v.push(0x6Du8);
    v.push(0x73u8);
    proof {
        assert(v@ =~= k_items());
    }
    v
}

/// `"section"`.
pub open spec fn k_section() -> Seq<u8> {
    seq![0x73u8, 0x65u8, 0x63u8, 0x74u8, 0x69u8, 0x6Fu8, 0x6Eu8]
}

pub fn b_section() -> (r: Vec<u8>)
    ensures
        r@ == k_section(),
{
    let mut v: Vec<u8> = Vec::new();
    v.push(0x73u8);
    v.push(0x65u8);
    v.push(0x63u8);
    v.push(0x74u8);
    v.push(0x69u8);
    v.push(0x6Fu8);
    v.push(0x6Eu8);
    proof {
        assert(v@ =~= k_section());
    }
    v
}

/// `"settings"`.
pub open spec fn k_settings() -> Seq<u8> {
    seq![0x73u8, 0x65u8, 0x74u8, 0x74u8, 0x69u8, 0x6Eu8, 0x67u8, 0x73u8]
}

pub fn b_settings() -> (r: Vec<u8>)
    ensures
        r@ == k_settings(),
{
    let mut v: Vec<u8> = Vec::new();
    v.push(0x73u8);
    v.push(0x65u8);
    v.push(0x74u8);
    v.push(0x74u8);
    v.push(0x69u8);
    v.push(0x6Eu8);
    v.push(0x67u8);
    v.push(0x73u8);
    proof {
        assert(v@ =~= k_settings());
    }
    v
}

/// `"crates"`.
pub open spec fn k_crates() -> Seq<u8> {
    seq![0x63u8, 0x72u8, 0x61u8, 0x74u8, 0x65u8, 0x73u8]
}

pub fn b_crates() -> (r: Vec<u8>)
    ensures
        r@ == k_crates(),
{
    let mut v: Vec<u8> = Vec::new();
    v.push(0x63u8);
    v.push(0x72u8);
    v.push(0x61u8);
    v.push(0x74u8);
    v.push(0x65u8);
    v.push(0x73u8);
    proof {
        assert(v@ =~= k_crates());
    }
    v
}

/// `"root_module"`.
pub open spec fn k_root_module() -> Seq<u8> {
    seq![0x72u8, 0x6Fu8, 0x6Fu8, 0x74u8, 0x5Fu8, 0x6Du8, 0x6Fu8, 0x64u8, 0x75u8, 0x6Cu8, 0x65u8]
}

pub fn b_root_module() -> (r: Vec<u8>)
    ensures
        r@ == k_root_module(),
{
    let mut v: Vec<u8> = Vec::new();
    v.push(0x72u8);
    v.push(0x6Fu8);
    v.push(0x6Fu8);
    v.push(0x74u8);
    v.push(0x5Fu8);
    v.push(0x6Du8);
    v.push(0x6Fu8);
    v.push(0x64u8);
    v.push(0x75u8);
    v.push(0x6Cu8);
    v.push(0x65u8);
    proof {
        assert(v@ =~= k_root_module());
    }
    v
}

/// `"edition"`.
pub open spec fn k_edition() -> Seq<u8> {
    seq![0x65u8, 0x64u8, 0x69u8, 0x74u8, 0x69u8, 0x6Fu8, 0x6Eu8]
}

pub fn b_edition() -> (r: Vec<u8>)
    ensures
        r@ == k_edition(),
{
    let mut v: Vec<u8> = Vec::new();
    v.push(0x65u8);
    v.push(0x64u8);
    v.push(0x69u8);
    v.push(0x74u8);
    v.push(0x69u8);
    v.push(0x6Fu8);
    v.push(0x6Eu8);
    proof {
        assert(v@ =~= k_edition());
    }
    v
}

/// `"deps"`.
pub open spec fn k_deps() -> Seq<u8> {
    seq![0x64u8, 0x65u8, 0x70u8, 0x73u8]
}

pub fn b_deps() -> (r: Vec<u8>)
    ensures
        r@ == k_deps(),
{
    let mut v: Vec<u8> = Vec::new();
    v.push(0x64u8);
    v.push(0x65u8);
    v.push(0x70u8);
    v.push(0x73u8);
    proof {
        assert(v@ =~= k_deps());
    }
    v
}

/// `"is_proc_macro"`.
pub open spec fn k_is_proc_macro() -> Seq<u8> {
    seq![0x69u8, 0x73u8, 0x5Fu8, 0x70u8, 0x72u8, 0x6Fu8, 0x63u8, 0x5Fu8, 0x6Du8, 0x61u8, 0x63u8, 0x72u8, 0x6Fu8]
}

pub fn b_is_proc_macro() -> (r: Vec<u8>)
    ensures
        r@ == k_is_proc_macro(),
{
    let mut v: Vec<u8> = Vec::new();
    v.push(0x69u8);
    v.push(0x73u8);
    v.push(0x5Fu8);
    v.push(0x70u8);
    v.push(0x72u8);
    v.push(0x6Fu8);
    v.push(0x63u8);
    v.push(0x5Fu8);
    v.push(0x6Du8);
    v.push(0x61u8);
    v.push(0x63u8);
    v.push(0x72u8);
    v.push(0x6Fu8);
    proof {
        assert(v@ =~= k_is_proc_macro());
    }
    v
}

/// `"sysroot"`.
pub open spec fn k_sysroot() -> Seq<u8> {
    seq![0x73u8, 0x79u8, 0x73u8, 0x72u8, 0x6Fu8, 0x6Fu8, 0x74u8]
}

pub fn b_sysroot() -> (r: Vec<u8>)
    ensures
        r@ == k_sysroot(),
{
    let mut v: Vec<u8> = Vec::new();
    v.push(0x73u8);
    v.push(0x79u8);
    v.push(0x73u8);
    v.push(0x72u8);
    v.push(0x6Fu8);
    v.push(0x6Fu8);
    v.push(0x74u8);
    proof {
        assert(v@ =~= k_sysroot());
    }
    v
}

/// `"2021"`.
pub open spec fn k_ed2021() -> Seq<u8> {
    seq![0x32u8, 0x30u8, 0x32u8, 0x31u8]
}

pub fn b_ed2021() -> (r: Vec<u8>)
    ensures
        r@ == k_ed2021(),
{
    let mut v: Vec<u8> = Vec::new();
    v.push(0x32u8);
    v.push(0x30u8);
    v.push(0x32u8);
    v.push(0x31u8);
    proof {
        assert(v@ =~= k_ed2021());
    }
    v
}

/// `"rust-script"`.
pub open spec fn k_rust_script_lang() -> Seq<u8> {
    seq![0x72u8, 0x75u8, 0x73u8, 0x74u8, 0x2Du8, 0x73u8, 0x63u8, 0x72u8, 0x69u8, 0x70u8, 0x74u8]
}

pub fn b_rust_script_lang() -> (r: Vec<u8>)
    ensures
        r@ == k_rust_script_lang(),
{
    let mut v: Vec<u8> = Vec::new();
    v.push(0x72u8);
    v.push(0x75u8);
    v.push(0x73u8);
    v.push(0x74u8);
    v.push(0x2Du8);
    v.push(0x73u8);
    v.push(0x63u8);
    v.push(0x72u8);
    v.push(0x69u8);
    v.push(0x70u8);
    v.push(0x74u8);
    proof {
        assert(v@ =~= k_rust_script_lang());
    }
    v
}

/// `"rust"`.
pub open spec fn k_rust_lang() -> Seq<u8> {
    seq![0x72u8, 0x75u8, 0x73u8, 0x74u8]
}

pub fn b_rust_lang() -> (r: Vec<u8>)
    ensures
        r@ == k_rust_lang(),
{
    let mut v: Vec<u8> = Vec::new();
    v.push(0x72u8);
    v.push(0x75u8);
    v.push(0x73u8);
    v.push(0x74u8);
    proof {
        assert(v@ =~= k_rust_lang());
    }
    v
}

/// `"rust-analyzer"`.
pub open spec fn k_rust_analyzer_section() -> Seq<u8> {
    seq![0x72u8, 0x75u8, 0x73u8, 0x74u8, 0x2Du8, 0x61u8, 0x6Eu8, 0x61u8, 0x6Cu8, 0x79u8, 0x7Au8, 0x65u8, 0x72u8]
}

pub fn b_rust_analyzer_section() -> (r: Vec<u8>)
    ensures
        r@ == k_rust_analyzer_section(),
{
    let mut v: Vec<u8> = Vec::new();
    v.push(0x72u8);
    v.push(0x75u8);
    v.push(0x73u8);
    v.push(0x74u8);
    v.push(0x2Du8);
    v.push(0x61u8);
    v.push(0x6Eu8);
    v.push(0x61u8);
    v.push(0x6Cu8);
    v.push(0x79u8);
    v.push(0x7Au8);
    v.push(0x65u8);
    v.push(0x72u8);
    proof {
        assert(v@ =~= k_rust_analyzer_section());
    }
    v
}

/// `"file://"`.
pub open spec fn k_file_scheme() -> Seq<u8> {
    seq![0x66u8, 0x69u8, 0x6Cu8, 0x65u8, 0x3Au8, 0x2Fu8, 0x2Fu8]
}

pub fn b_file_scheme() -> (r: Vec<u8>)
    ensures
        r@ == k_file_scheme(),
{
    let mut v: Vec<u8> = Vec::new();
    v.push(0x66u8);
    v.push(0x69u8);
    v.push(0x6Cu8);
    v.push(0x65u8);
    v.push(0x3Au8);
    v.push(0x2Fu8);
    v.push(0x2Fu8);
    proof {
        assert(v@ =~= k_file_scheme());
    }
    v
}

/// `"targetUri"`.
pub open spec fn k_target_uri() -> Seq<u8> {
    seq![0x74u8, 0x61u8, 0x72u8, 0x67u8, 0x65u8, 0x74u8, 0x55u8, 0x72u8, 0x69u8]
}

pub fn b_target_uri() -> (r: Vec<u8>)
    ensures
        r@ == k_target_uri(),
{
    let mut v: Vec<u8> = Vec::new();
    v.push(0x74u8);
    v.push(0x61u8);
    v.push(0x72u8);
    v.push(0x67u8);
    v.push(0x65u8);
    v.push(0x74u8);
    v.push(0x55u8);
    v.push(0x72u8);
    v.push(0x69u8);
    proof {
        assert(v@ =~= k_target_uri());
    }
    v
}

/// `"scopeUri"`.
pub open spec fn k_scope_uri() -> Seq<u8> {
    seq![0x73u8, 0x63u8, 0x6Fu8, 0x70u8, 0x65u8, 0x55u8, 0x72u8, 0x69u8]
}

pub fn b_scope_uri() -> (r: Vec<u8>)
    ensures
        r@ == k_scope_uri(),
{
    let mut v: Vec<u8> = Vec::new();
    v.push(0x73u8);
    v.push(0x63u8);
    v.push(0x6Fu8);
    v.push(0x70u8);
    v.push(0x65u8);
    v.push(0x55u8);
    v.push(0x72u8);
    v.push(0x69u8);
    proof {
        assert(v@ =~= k_scope_uri());
    }
    v
}

/// `"rootUri"`.
pub open spec fn k_root_uri() -> Seq<u8> {
    seq![0x72u8, 0x6Fu8, 0x6Fu8, 0x74u8, 0x55u8, 0x72u8, 0x69u8]
}

pub fn b_root_uri() -> (r: Vec<u8>)
    ensures
        r@ == k_root_uri(),
{
    let mut v: Vec<u8> = Vec::new();
    v.push(0x72u8);
    v.push(0x6Fu8);
    v.push(0x6Fu8);
    v.push(0x74u8);
    v.push(0x55u8);
    v.push(0x72u8);
    v.push(0x69u8);
    proof {
        assert(v@ =~= k_root_uri());
    }
    v
}

/// `"newUri"`.
pub open spec fn k_new_uri() -> Seq<u8> {
    seq![0x6Eu8, 0x65u8, 0x77u8, 0x55u8, 0x72u8, 0x69u8]
}

pub fn b_new_uri() -> (r: Vec<u8>)
    ensures
        r@ == k_new_uri(),
{
    let mut v: Vec<u8> = Vec::new();
    v.push(0x6Eu8);
    v.push(0x65u8);
    v.push(0x77u8);
    v.push(0x55u8);
    v.push(0x72u8);
    v.push(0x69u8);
    proof {
        assert(v@ =~= k_new_uri());
    }
    v
}

/// `"oldUri"`.
pub open spec fn k_old_uri() -> Seq<u8> {
    seq![0x6Fu8, 0x6Cu8, 0x64u8, 0x55u8, 0x72u8, 0x69u8]
}

pub fn b_old_uri() -> (r: Vec<u8>)
    ensures
        r@ == k_old_uri(),
{
    let mut v: Vec<u8> = Vec::new();
    v.push(0x6Fu8);
    v.push(0x6Cu8);
    v.push(0x64u8);
    v.push(0x55u8);
    v.push(0x72u8);
    v.push(0x69u8);
    proof {
        assert(v@ =~= k_old_uri());
    }
    v
}

/// `"href"`.
pub open spec fn k_href() -> Seq<u8> {
    seq![0x68u8, 0x72u8, 0x65u8, 0x66u8]
}

pub fn b_href() -> (r: Vec<u8>)
    ensures
        r@ == k_href(),
{
    let mut v: Vec<u8> = Vec::new();
    v.push(0x68u8);
    v.push(0x72u8);
    v.push(0x65u8);
    v.push(0x66u8);
    proof {
        assert(v@ =~= k_href());
    }
    v
}

/// `"Content-Length:"`: the one header the codec reads, colon included.
pub open spec fn k_content_length() -> Seq<u8> {
    seq![0x43u8, 0x6Fu8, 0x6Eu8, 0x74u8, 0x65u8, 0x6Eu8, 0x74u8, 0x2Du8, 0x4Cu8, 0x65u8, 0x6Eu8, 0x67u8, 0x74u8, 0x68u8, 0x3Au8]
}

pub fn b_content_length() -> (r: Vec<u8>)
    ensures
        r@ == k_content_length(),
{
    let mut v: Vec<u8> = Vec::new();
    v.push(0x43u8);
    v.push(0x6Fu8);
    v.push(0x6Eu8);
    v.push(0x74u8);
    v.push(0x65u8);
    v.push(0x6Eu8);
    v.push(0x74u8);
    v.push(0x2Du8);
    v.push(0x4Cu8);
    v.push(0x65u8);
    v.push(0x6Eu8);
    v.push(0x67u8);
    v.push(0x74u8);
    v.push(0x68u8);
    v.push(0x3Au8);
    proof {
        assert(v@ =~= k_content_length());
    }
    v
}

} // verus!