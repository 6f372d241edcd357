//! The bounds a scan keeps to, and the options that choose its profile.
use vstd::prelude::*;

verus! {

/// Upper bounds on what one scan reads and reports.
#[derive(Clone, Copy, Debug)]
pub struct ScanLimits {
    pub max_depth: usize,
    pub max_entries: u64,
    pub max_file_bytes: u64,
    pub max_total_bytes: u64,
    pub max_findings: usize,
    pub max_dependencies: usize,
}

impl Default for ScanLimits {
    fn default() -> (r: Self)
        ensures
            r.max_depth == 64,
            r.max_entries == 200000,
            r.max_file_bytes == 67108864,
            r.max_total_bytes == 2147483648,
            r.max_findings == 20000,
            r.max_dependencies == 100000,
    {
        ScanLimits {
            max_depth: 64,
            max_entries: 200000,
            max_file_bytes: 67108864,
            max_total_bytes: 2147483648,
            max_findings: 20000,
            max_dependencies: 100000,
        }
    }
}

/// The scan profile and the optional analyses a scan runs.
#[derive(Clone, Copy, Debug, Default, PartialEq, Eq, Structural)]
pub struct ScanOptions {
    pub quick: bool,
    pub deep: bool,
    pub history: bool,
    pub dependencies: bool,
    pub online: bool,
}

pub open spec fn min_usize(a: usize, b: usize) -> usize {
    if a <= b { a } else { b }
}

pub open spec fn min_u64(a: u64, b: u64) -> u64 {
    if a <= b { a } else { b }
}

/// The limits a profile scans with: a quick scan caps each limit.
pub open spec fn profile_limits(l: ScanLimits, options: ScanOptions) -> ScanLimits {
    if options.quick {
        ScanLimits {
            max_depth: min_usize(l.max_depth, 32),
            max_entries: min_u64(l.max_entries, 20000),
            max_file_bytes: min_u64(l.max_file_bytes, 16777216),
            max_total_bytes: min_u64(l.max_total_bytes, 536870912),
            max_findings: l.max_findings,
            max_dependencies: min_usize(l.max_dependencies, 50000),
        }
    } else {
        l
    }
}

/// The limits a profile scans with.
pub fn bounded_limits(limits: &ScanLimits, options: &ScanOptions) -> (r: ScanLimits)
    ensures
        r == profile_limits(*limits, *options),
{
    let mut l = *limits;
    if options.quick {
        if l.max_depth > 32 { l.max_depth = 32; }
        if l.max_entries > 20000 { l.max_entries = 20000; }
        if l.max_file_bytes > 16777216 { l.max_file_bytes = 16777216; }
        if l.max_total_bytes > 536870912 { l.max_total_bytes = 536870912; }
        if l.max_dependencies > 50000 { l.max_dependencies = 50000; }
    }
    l
}

/// The name of a scan profile.
pub open spec fn profile_name_of(options: ScanOptions) -> Seq<char> {
    if options.quick { "quick"@ } else if options.deep { "deep"@ } else { "default"@ }
}

/// The name of a scan profile.
pub fn profile_name(options: &ScanOptions) -> (r: &'static str)
    ensures
        r@ == profile_name_of(*options),
{
    if options.quick { "quick" } else if options.deep { "deep" } else { "default" }
}

} // verus!
