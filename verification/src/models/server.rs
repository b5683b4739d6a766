//! What the server says of itself: the machine it runs on, its cache, and
//! the files of the cache.

use crate::text::{decimal, push_decimal};
use crate::utils::{bytes_text, format_bytes};
use vstd::prelude::*;

verus! {

/// The machine that the server runs on and the memory that the server has
/// taken.
#[derive(Debug)]
pub struct SystemInfo {
    pub total_memory_bytes: u64,
    pub used_memory_bytes: u64,
    pub name: String,
    pub kernel: String,
    pub os: String,
    pub host_name: String,
    pub cpu_cores: usize,
    pub server_resident_memory_bytes: u64,
    pub server_virtual_memory_bytes: u64,
}

/// How the cache is set up and what it holds.
#[derive(Clone, Copy, Debug)]
pub struct CacheInfo {
    pub batch_size: usize,
    pub max_cache_bytes: u64,
    pub memory_usage_bytes: u64,
    pub disk_usage_bytes: u64,
}

/// The files of the cache.
#[derive(Debug)]
pub struct ParquetCacheUsage {
    pub directory: String,
    pub file_count: usize,
    pub total_size_bytes: u64,
}

/// The operating system as it is shown: its name, and its version in
/// brackets.
pub open spec fn os_label(name: Seq<char>, os: Seq<char>) -> Seq<char> {
    name + " ("@ + os + ")"@
}

/// The memory in use as it is shown: what is used of what there is.
pub open spec fn memory_label(used: nat, total: nat) -> Seq<char> {
    bytes_text(used) + " / "@ + bytes_text(total) + " used"@
}

impl Clone for SystemInfo {
    fn clone(&self) -> (out: Self)
        ensures
            out.total_memory_bytes == self.total_memory_bytes,
            out.used_memory_bytes == self.used_memory_bytes,
            out.name@ == self.name@,
            out.kernel@ == self.kernel@,
            out.os@ == self.os@,
            out.host_name@ == self.host_name@,
            out.cpu_cores == self.cpu_cores,
            out.server_resident_memory_bytes == self.server_resident_memory_bytes,
            out.server_virtual_memory_bytes == self.server_virtual_memory_bytes,
    {
        SystemInfo {
            total_memory_bytes: self.total_memory_bytes,
            used_memory_bytes: self.used_memory_bytes,
            name: self.name.clone(),
            kernel: self.kernel.clone(),
            os: self.os.clone(),
            host_name: self.host_name.clone(),
            cpu_cores: self.cpu_cores,
            server_resident_memory_bytes: self.server_resident_memory_bytes,
            server_virtual_memory_bytes: self.server_virtual_memory_bytes,
        }
    }
}

impl Clone for ParquetCacheUsage {
    fn clone(&self) -> (out: Self)
        ensures
            out.directory@ == self.directory@,
            out.file_count == self.file_count,
            out.total_size_bytes == self.total_size_bytes,
    {
        ParquetCacheUsage {
            directory: self.directory.clone(),
            file_count: self.file_count,
            total_size_bytes: self.total_size_bytes,
        }
    }
}

impl SystemInfo {
    /// The operating system, as it is shown.
    pub fn os_text(&self) -> (out: String)
        ensures
            out@ == os_label(self.name@, self.os@),
    {
        let mut out = self.name.clone();
        out.append(" (");
        out.append(self.os.as_str());
        out.append(")");
        out
    }

    /// The memory in use, as it is shown.
    pub fn memory_text(&self) -> (out: String)
        ensures
            out@ == memory_label(self.used_memory_bytes as nat, self.total_memory_bytes as nat),
    {
        let mut out = format_bytes(self.used_memory_bytes);
        out.append(" / ");
        let total = format_bytes(self.total_memory_bytes);
        out.append(total.as_str());
        out.append(" used");
        out
    }
}

/// A line of a panel: what it is and what it holds.
pub open spec fn line(label: Seq<char>, value: Seq<char>) -> (Seq<char>, Seq<char>) {
    (label, value)
}

/// A line of a panel.
fn line_of(label: &str, value: String) -> (out: (String, String))
    ensures
        out.deep_view() == line(label@, value@),
{
    (label.to_owned(), value)
}

/// A number as a text.
fn number_of(n: usize) -> (out: String)
    ensures
        out@ == decimal(n as nat),
{
    let mut out = String::new();
    push_decimal(&mut out, n as u128);
    out
}

impl SystemInfo {
    /// What the panel of the system shows, line by line.
    pub open spec fn shown(self) -> Seq<(Seq<char>, Seq<char>)> {
        seq![
            line("Host Name"@, self.host_name@),
            line("OS"@, os_label(self.name@, self.os@)),
            line("Kernel"@, self.kernel@),
            line("CPU Cores"@, decimal(self.cpu_cores as nat)),
            line(
                "Memory"@,
                memory_label(self.used_memory_bytes as nat, self.total_memory_bytes as nat),
            ),
            line("Server Resident"@, bytes_text(self.server_resident_memory_bytes as nat)),
            line("Server Virtual"@, bytes_text(self.server_virtual_memory_bytes as nat)),
        ]
    }

    /// What the panel of the system shows, line by line.
    pub fn rows(&self) -> (out: Vec<(String, String)>)
        ensures
            out.deep_view() == self.shown(),
    {
        let mut out: Vec<(String, String)> = Vec::new();
        out.push(line_of("Host Name", self.host_name.clone()));
        out.push(line_of("OS", self.os_text()));
        out.push(line_of("Kernel", self.kernel.clone()));
        out.push(line_of("CPU Cores", number_of(self.cpu_cores)));
        out.push(line_of("Memory", self.memory_text()));
        out.push(line_of("Server Resident", format_bytes(self.server_resident_memory_bytes)));
        out.push(line_of("Server Virtual", format_bytes(self.server_virtual_memory_bytes)));
        assert(out.deep_view() =~= self.shown());
        out
    }
}

impl CacheInfo {
    /// What the panel of the cache shows of its set-up, line by line.
    pub open spec fn shown(self) -> Seq<(Seq<char>, Seq<char>)> {
        seq![
            line("Batch Size"@, decimal(self.batch_size as nat)),
            line("Max Cache"@, bytes_text(self.max_cache_bytes as nat)),
            line("Memory used"@, bytes_text(self.memory_usage_bytes as nat)),
            line("Disk used"@, bytes_text(self.disk_usage_bytes as nat)),
        ]
    }

    /// What the panel of the cache shows of its set-up, line by line.
    pub fn rows(&self) -> (out: Vec<(String, String)>)
        ensures
            out.deep_view() == self.shown(),
    {
        let mut out: Vec<(String, String)> = Vec::new();
        out.push(line_of("Batch Size", number_of(self.batch_size)));
        out.push(line_of("Max Cache", format_bytes(self.max_cache_bytes)));
        out.push(line_of("Memory used", format_bytes(self.memory_usage_bytes)));
        out.push(line_of("Disk used", format_bytes(self.disk_usage_bytes)));
        assert(out.deep_view() =~= self.shown());
        out
    }
}

impl ParquetCacheUsage {
    /// What the panel of the cache shows of its files, line by line.
    pub open spec fn shown(self) -> Seq<(Seq<char>, Seq<char>)> {
        seq![
            line("Directory"@, self.directory@),
            line("File Count"@, decimal(self.file_count as nat)),
            line("Total Size"@, bytes_text(self.total_size_bytes as nat)),
        ]
    }

    /// What the panel of the cache shows of its files, line by line.
    pub fn rows(&self) -> (out: Vec<(String, String)>)
        ensures
            out.deep_view() == self.shown(),
    {
        let mut out: Vec<(String, String)> = Vec::new();
        out.push(line_of("Directory", self.directory.clone()));
        out.push(line_of("File Count", number_of(self.file_count)));
        out.push(line_of("Total Size", format_bytes(self.total_size_bytes)));
        assert(out.deep_view() =~= self.shown());
        out
    }
}

} // verus!
