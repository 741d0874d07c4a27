//! Platform detection from a browser user-agent string, used to pick the one
//! recommended download shortcut shown above the fold.

use vstd::prelude::*;
use crate::bytes::{contains_seq, seq_contains};

verus! {

/// The visitor's operating system, as far as the user-agent string tells.
#[derive(Clone, Copy, PartialEq, Eq, Structural, Debug)]
pub enum Platform {
    Windows,
    Linux,
    MacOS,
    Unknown,
}

/// The substring "Mac".
pub open spec fn pat_mac_ua() -> Seq<u8> {
    seq![('M' as u8), ('a' as u8), ('c' as u8)]
}

/// The substring "Win".
pub open spec fn pat_win_ua() -> Seq<u8> {
    seq![('W' as u8), ('i' as u8), ('n' as u8)]
}

/// The substring "Linux".
pub open spec fn pat_linux_ua() -> Seq<u8> {
    seq![('L' as u8), ('i' as u8), ('n' as u8), ('u' as u8), ('x' as u8)]
}

/// The platform a user-agent string names. The substrings are tried in
/// order: "Mac" first, then "Win", then "Linux"; anything else — the empty
/// string included — is `Unknown`.
pub open spec fn spec_detect(ua: Seq<u8>) -> Platform {
    if seq_contains(ua, pat_mac_ua()) {
        Platform::MacOS
    } else if seq_contains(ua, pat_win_ua()) {
        Platform::Windows
    } else if seq_contains(ua, pat_linux_ua()) {
        Platform::Linux
    } else {
        Platform::Unknown
    }
}

fn mac_ua_pattern() -> (v: Vec<u8>)
    ensures
        v@ == pat_mac_ua(),
{
    let v: Vec<u8> = vec![('M' as u8), ('a' as u8), ('c' as u8)];
    proof {
        assert(v@ =~= pat_mac_ua());
    }
    v
}

fn win_ua_pattern() -> (v: Vec<u8>)
    ensures
        v@ == pat_win_ua(),
{
    let v: Vec<u8> = vec![('W' as u8), ('i' as u8), ('n' as u8)];
    proof {
        assert(v@ =~= pat_win_ua());
    }
    v
}

fn linux_ua_pattern() -> (v: Vec<u8>)
    ensures
        v@ == pat_linux_ua(),
{
    let v: Vec<u8> = vec![('L' as u8), ('i' as u8), ('n' as u8), ('u' as u8), ('x' as u8)];
    proof {
        assert(v@ =~= pat_linux_ua());
    }
    v
}

/// Detects the visitor's platform from a user-agent string.
pub fn detect_platform(ua: &Vec<u8>) -> (p: Platform)
    ensures
        p == spec_detect(ua@),
{
    if contains_seq(ua, &mac_ua_pattern()) {
        Platform::MacOS
    } else if contains_seq(ua, &win_ua_pattern()) {
        Platform::Windows
    } else if contains_seq(ua, &linux_ua_pattern()) {
        Platform::Linux
    } else {
        Platform::Unknown
    }
}

} // verus!
