use vstd::prelude::*;

verus! {

/// The closed set of failure kinds of a run. Configuration and checkpoint
/// failures are fatal: they abort the run before any scanning starts. File
/// and sink failures are local to the one file being scanned: that file is
/// left out of the merged checkpoint and retried in full on the next run.
#[derive(Clone, Copy, PartialEq, Eq, Structural, Debug)]
pub enum ErrorKind {
    /// The input root, the query configuration, the output directory or an
    /// output sink cannot be set up.
    Config,
    /// A pre-existing checkpoint exists but cannot be read or parsed.
    Checkpoint,
    /// Opening, decompressing or reading one input file failed.
    FileIo,
    /// Appending a batch to one group's output sink failed.
    Sink,
}

impl ErrorKind {
    /// Whether this failure aborts the whole run rather than only the file
    /// being scanned.
    pub fn is_fatal(&self) -> (r: bool)
        ensures
            r == (*self == ErrorKind::Config || *self == ErrorKind::Checkpoint),
    {
        matches!(self, ErrorKind::Config | ErrorKind::Checkpoint)
    }
}

} // verus!
