use vstd::prelude::*;

use crate::step::{DiskOptions, DiskType, OutputType};
use crate::text::{digits_of, digits_text};

verus! {

/// What the file system reports for a mount point.
#[derive(Clone, Copy, Debug, PartialEq, Eq)]
pub struct FsStats {
    /// Size of the file system in fragments.
    pub blocks: u64,
    /// Fragment size in bytes.
    pub fragment_size: u64,
    /// Fragments free for unprivileged users.
    pub available_blocks: u64,
}

pub open spec fn size_bytes(s: FsStats) -> int {
    s.blocks * s.fragment_size
}

pub open spec fn free_bytes(s: FsStats) -> int {
    s.available_blocks * s.fragment_size
}

/// The quantity that a disk step reads, in bytes.
pub open spec fn disk_quantity(t: DiskType, s: FsStats) -> int {
    match t {
        DiskType::Size => size_bytes(s),
        DiskType::Used => size_bytes(s) - free_bytes(s),
        DiskType::Free => free_bytes(s),
    }
}

/// A disk step's reading: text, or a byte count that is yet to be shown
/// in human units.
#[derive(Clone, Debug, PartialEq, Eq)]
pub enum DiskReading {
    Text(String),
    Human(u64),
}

/// `q` percent of `total`, rounded half away from zero.
pub open spec fn rounded_percent(q: int, total: int) -> int {
    (200 * q + total) / (2 * total)
}

/// Reads the quantity and renders it as `options` ask: bytes, a rounded
/// percentage of the size, or a byte count for human units.
pub fn get_stats(ops: &DiskOptions, stats: &FsStats) -> (r: Result<DiskReading, String>)
    requires
        stats.blocks * stats.fragment_size <= u64::MAX,
        stats.available_blocks <= stats.blocks,
    ensures
        match ops.output_type {
            OutputType::Bytes => r matches Ok(DiskReading::Text(t)) && t@ == digits_of(
                disk_quantity(ops.disk_type, *stats) as nat,
            ),
            OutputType::Human => r == Ok::<DiskReading, String>(
                DiskReading::Human(disk_quantity(ops.disk_type, *stats) as u64),
            ),
            OutputType::Percent => if size_bytes(*stats) == 0 {
                r matches Err(e) && e@ == "Size for mount `"@ + ops.mount@
                    + "` is 0.  Can't create percentage"@
            } else {
                r matches Ok(DiskReading::Text(t)) && t@ == digits_of(
                    rounded_percent(disk_quantity(ops.disk_type, *stats), size_bytes(*stats))
                        as nat,
                ) + "%"@
            },
        },
{
    assert(stats.available_blocks * stats.fragment_size <= stats.blocks * stats.fragment_size)
        by (nonlinear_arith)
        requires
            stats.available_blocks <= stats.blocks,
    ;
    let size: u64 = stats.blocks * stats.fragment_size;
    let free: u64 = stats.available_blocks * stats.fragment_size;
    let used: u64 = size - free;
    let output: u64 = match ops.disk_type {
        DiskType::Size => size,
        DiskType::Used => used,
        DiskType::Free => free,
    };
    match ops.output_type {
        OutputType::Bytes => Ok(DiskReading::Text(digits_text(output as u128))),
        OutputType::Human => Ok(DiskReading::Human(output)),
        OutputType::Percent => {
            if size == 0 {
                let mut e = String::from_str("Size for mount `");
                e.append(ops.mount.as_str());
                e.append("` is 0.  Can't create percentage");
                return Err(e);
            }
            let p: u128 = (200 * (output as u128) + size as u128) / (2 * size as u128);
            let mut t = digits_text(p);
            t.append("%");
            Ok(DiskReading::Text(t))
        },
    }
}

} // verus!
