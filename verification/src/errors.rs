use vstd::prelude::*;

verus! {

/// The failure taxonomy of the download engine. Every variant is terminal
/// for the whole operation: nothing is retried anywhere in the core.
#[derive(Debug, Clone, PartialEq, Eq)]
pub enum DownloadError {
    /// The network request itself could not complete.
    Transport(String),
    /// The response status was not success, or required metadata was
    /// missing or malformed.
    Protocol(String),
    /// The resource reported a size of exactly zero bytes; a zero-length
    /// resource is unusable, not a degenerate success.
    EmptyResource,
    /// An event could not be delivered from a fetcher to the writer: the
    /// consumer is gone.
    ChannelClosed,
}

} // verus!
