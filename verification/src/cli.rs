//! What the command line asks for.

use vstd::prelude::*;

use crate::error::Error;
use crate::names::Name;
use crate::text::{lossy, lossy_text};

verus! {

/// What the command line asks for.
#[derive(Debug, PartialEq, Eq)]
pub struct Opt {
    /// The folder to scan.
    pub folder: Option<Name>,
    pub gui: bool,
    pub tui: bool,
    pub no_elevate: bool,
    /// Show file sizes rather than their block usage on disk.
    pub apparent_size: bool,
    pub config: Option<Name>,
    /// Walk into read-only snapshots inside the folder too.
    pub snapshots: bool,
    /// Do not cross filesystem boundaries.
    pub one_file_system: bool,
    /// Count hard links once for every file of at least this many bytes.
    pub hard_link_threshold: Option<u64>,
    pub benchmark: bool,
    pub issues: bool,
    pub bench_repeat: u32,
    pub bench_profile: bool,
    pub bench_shards: usize,
    pub bench_shard_depth: usize,
    /// Stop descending below this depth.
    pub max_depth: Option<usize>,
    pub single_thread: bool,
    /// Ask the kernel for every entry.
    pub no_device_read: bool,
    pub threads: Option<usize>,
}

/// How to scan.
#[derive(Debug, Clone, Copy, PartialEq, Eq, Structural)]
pub struct ScanOptions {
    pub parallel: bool,
    pub threads: Option<usize>,
    pub show_apparent_size: bool,
    pub max_depth: Option<usize>,
    pub one_file_system: bool,
    pub hard_link_threshold: Option<u64>,
    pub read_device: bool,
    pub snapshots: bool,
}

impl Opt {
    /// How to scan, as the flags say; `apparent` is what the config file says of sizes.
    pub fn scan_options(&self, apparent: bool) -> (options: ScanOptions)
        ensures
            options == (ScanOptions {
                parallel: !self.single_thread,
                threads: self.threads,
                show_apparent_size: self.apparent_size || apparent,
                max_depth: self.max_depth,
                one_file_system: self.one_file_system,
                hard_link_threshold: self.hard_link_threshold,
                read_device: !self.no_device_read,
                snapshots: self.snapshots,
            }),
    {
        ScanOptions {
            parallel: !self.single_thread,
            threads: self.threads,
            show_apparent_size: self.apparent_size || apparent,
            max_depth: self.max_depth,
            one_file_system: self.one_file_system,
            hard_link_threshold: self.hard_link_threshold,
            read_device: !self.no_device_read,
            snapshots: self.snapshots,
        }
    }
}

/// The folder to scan: the one at `folder`, if it `is_dir`, by its `canonical` path where that
/// can be had.
pub fn resolve_folder(folder: Name, is_dir: bool, canonical: Option<Name>) -> (resolved: Result<
    Name,
    Error,
>)
    ensures
        match resolved {
            Ok(path) => is_dir && path@ == match canonical {
                Some(canonical) => canonical@,
                None => folder@,
            },
            Err(error) => !is_dir && error is FolderNotFound && error->FolderNotFound_0@
                == lossy_text(folder@),
        },
        resolved is Ok == is_dir,
{
    if !is_dir {
        return Err(Error::FolderNotFound(lossy(&folder)));
    }
    match canonical {
        Some(path) => Ok(path),
        None => Ok(folder),
    }
}

/// An argument of a window's own command line.
#[derive(Debug, PartialEq, Eq)]
pub enum WindowArg {
    ApparentSize,
    /// Nothing to do: it chose this viewer already, or a launcher added it.
    Ignored,
    Help,
    /// An option there is not.
    Unknown(String),
    Folder(Name),
}

/// What an argument of a window's own command line asks for. A Mac's window ignores the process
/// number that its launcher once added, and the others the flag that chose them.
pub fn window_arg(arg: Name, mac: bool) -> (asked: WindowArg)
    ensures
        ({
            let flag = vstd::utf8::valid_utf8(arg@);
            if arg@ == crate::bytes::ascii("-a"@) || arg@ == crate::bytes::ascii(
                "--apparent-size"@,
            ) {
                asked is ApparentSize
            } else if !mac && arg@ == crate::bytes::ascii("--gui"@) {
                asked is Ignored
            } else if arg@ == crate::bytes::ascii("-h"@) || arg@ == crate::bytes::ascii(
                "--help"@,
            ) {
                asked is Help
            } else if mac && flag && crate::bytes::ascii("-psn_"@).is_prefix_of(arg@) {
                asked is Ignored
            } else if flag && crate::bytes::ascii("-"@).is_prefix_of(arg@) {
                asked is Unknown && asked->Unknown_0@ == lossy_text(arg@)
            } else {
                asked is Folder && asked->Folder_0 == arg
            }
        }),
{
    let bytes = arg.as_slice();
    if crate::paths::bytes_are(bytes, "-a") || crate::paths::bytes_are(bytes, "--apparent-size") {
        return WindowArg::ApparentSize;
    }
    if !mac && crate::paths::bytes_are(bytes, "--gui") {
        return WindowArg::Ignored;
    }
    if crate::paths::bytes_are(bytes, "-h") || crate::paths::bytes_are(bytes, "--help") {
        return WindowArg::Help;
    }
    let flag = crate::paths::is_utf8(bytes);
    if mac && flag && crate::paths::starts_with_bytes(
        bytes,
        crate::bytes::plain("-psn_").as_slice(),
    ) {
        return WindowArg::Ignored;
    }
    if flag && crate::paths::starts_with_bytes(bytes, crate::bytes::plain("-").as_slice()) {
        return WindowArg::Unknown(lossy(&arg));
    }
    WindowArg::Folder(arg)
}

} // verus!
