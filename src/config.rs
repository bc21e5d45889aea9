use vstd::prelude::*;
use crate::scan::DEFAULT_BATCH_SIZE;

verus! {

broadcast use vstd::string::group_string_axioms;

/// The two things a run can do.
#[derive(Clone, Copy, Debug, PartialEq, Eq, Structural)]
pub enum Mode {
    /// Enumerate the keys and write them to the snapshot file.
    Dump,
    /// Enumerate the keys and write what changed since the snapshot file.
    Diff,
}

/// The mode that the command line asks for: `Diff` where the first argument
/// after the program's name is `--diff`, `Dump` otherwise. Other arguments
/// are ignored.
pub fn select_mode(args: &Vec<String>) -> (r: Mode)
    ensures
        r == Mode::Diff <==> (args@.len() > 1 && args@[1]@ == "--diff"@),
{
    let flag: String = "--diff".to_owned();
    if args.len() > 1 && args[1] == flag {
        Mode::Diff
    } else {
        Mode::Dump
    }
}

/// The kinds of failure that end a run.
#[derive(Clone, Copy, Debug, PartialEq, Eq, Structural)]
pub enum FailureKind {
    /// The store could not be reached.
    Connection,
    /// A batch of the scan could not be fetched.
    Scan,
    /// A file could not be read or written.
    Io,
}

impl FailureKind {
    /// A short name for the failure, for the operator.
    pub fn label(&self) -> (r: &'static str)
        ensures
            *self == FailureKind::Connection ==> r@ == "connection error"@,
            *self == FailureKind::Scan ==> r@ == "scan error"@,
            *self == FailureKind::Io ==> r@ == "I/O error"@,
    {
        match self {
            FailureKind::Connection => "connection error",
            FailureKind::Scan => "scan error",
            FailureKind::Io => "I/O error",
        }
    }
}

/// Where a run connects and which files it uses.
pub struct Config {
    /// The store's address.
    pub address: String,
    /// The snapshot file, written by a dump and read by a diff.
    pub snapshot_path: String,
    /// The diff report file.
    pub report_path: String,
    /// The batch size hint of each scan request.
    pub batch_size: usize,
}

impl Default for Config {
    /// The local store on its default port, and the usual file names.
    fn default() -> (r: Config)
        ensures
            r.address@ == "redis://127.0.0.1/"@,
            r.snapshot_path@ == "redis_keys.txt"@,
            r.report_path@ == "key_differences.txt"@,
            r.batch_size == DEFAULT_BATCH_SIZE,
    {
        Config {
            address: "redis://127.0.0.1/".to_owned(),
            snapshot_path: "redis_keys.txt".to_owned(),
            report_path: "key_differences.txt".to_owned(),
            batch_size: DEFAULT_BATCH_SIZE,
        }
    }
}

} // verus!
