use vstd::prelude::*;

verus! {

/// What the log is written to.
pub enum FclWriter<W> {
    /// `stdout`.
    Stdout,
    /// `stderr`.
    Stderr,
    /// Some other writer.
    Other(W),
}

/// The kind of writer the log is written to.
#[derive(Clone, Copy, PartialEq, Eq, Debug, Structural)]
pub enum WriterKind {
    Stdout,
    Stderr,
    Other,
}

impl<W> FclWriter<W> {
    /// The kind of the writer.
    pub open spec fn kind_spec(&self) -> WriterKind {
        match self {
            FclWriter::Stdout => WriterKind::Stdout,
            FclWriter::Stderr => WriterKind::Stderr,
            FclWriter::Other(_) => WriterKind::Other,
        }
    }

    /// Returns the kind of the writer.
    pub fn kind(&self) -> (k: WriterKind)
        ensures
            k == self.kind_spec(),
    {
        match self {
            FclWriter::Stdout => WriterKind::Stdout,
            FclWriter::Stderr => WriterKind::Stderr,
            FclWriter::Other(_) => WriterKind::Other,
        }
    }
}

/// The kind of writer the log goes to when it is given (or `stdout` when it is not).
pub fn writer_kind<W>(fcl_writer: &Option<FclWriter<W>>) -> (k: WriterKind)
    ensures
        k == match fcl_writer {
            None => WriterKind::Stdout,
            Some(w) => w.kind_spec(),
        },
{
    match fcl_writer {
        None => WriterKind::Stdout,
        Some(w) => w.kind(),
    }
}

} // verus!
