//! The records that one sample produces, and the errors that abort a sample.
use vstd::prelude::*;

verus! {

/// The ten cumulative time counters of one row of the counter file, in the
/// kernel's order: user, nice, system, idle, iowait, irq, softirq, steal,
/// guest, guest_nice.
pub struct CoreTime {
    pub time: [u64; 10],
}

impl View for CoreTime {
    type V = Seq<u64>;

    open spec fn view(&self) -> Seq<u64> {
        self.time@
    }
}

/// One counter snapshot: a row for each line of the counter text, after its
/// first line, that begins with `cpu`, in the order of the text.
pub struct CpuTime {
    pub times: Vec<CoreTime>,
}

impl View for CpuTime {
    type V = Seq<Seq<u64>>;

    open spec fn view(&self) -> Seq<Seq<u64>> {
        self.times@.map_values(|c: CoreTime| c@)
    }
}

/// The load of one row between two snapshots, as the exact fraction
/// `busy / elapsed` of counter time. When no counter time elapsed both are 0.
pub struct CoreLoad {
    pub busy: u128,
    pub elapsed: u128,
}

pub struct CpuLoad {
    pub loads: Vec<CoreLoad>,
}

/// Clock readings in whole megahertz, one per processor entry.
pub struct CpuFreq {
    pub freqs: Vec<u64>,
}

pub struct CpuInfo {
    pub load: CpuLoad,
    pub freq: CpuFreq,
    pub core_count: u16,
}

/// Memory in kilobytes: the total, and what is taken (total less available).
pub struct MemInfo {
    pub total: u64,
    pub taken: u64,
}

pub struct MiscInfo {
    pub uptime: u64,
    pub kernel: String,
    pub distro: String,
}

pub struct SysInfo {
    pub cpu: CpuInfo,
    pub mem: MemInfo,
    pub misc: MiscInfo,
}

/// The texts of the six sources that one sample reads.
pub struct FilesContent {
    pub stat: String,
    pub cpu_info: String,
    pub mem_info: String,
    pub uptime: String,
    pub kernel: String,
    pub distro: String,
}

/// The sources a sample reads.
#[derive(Clone, Copy, Debug, PartialEq, Eq, Structural)]
pub enum Source {
    Stat,
    CpuInfo,
    MemInfo,
    Uptime,
    Kernel,
    Distro,
}

/// Why a sample failed: a source could not be read, or its text did not have
/// the expected shape.
#[derive(Clone, Copy, Debug, PartialEq, Eq, Structural)]
pub enum MonitorError {
    Read(Source),
    Parse(Source),
}

} // verus!
