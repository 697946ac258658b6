use vstd::prelude::*;

verus! {

/// The I/O error type of std, carried through unchanged.
#[verifier::external_type_specification]
#[verifier::external_body]
pub struct ExIoError(std::io::Error);

/// What can go wrong while probing.
#[derive(Debug)]
pub enum NetprobeError {
    /// A condition that the probe cannot continue from, with its reason.
    Unexpected(&'static str),
    /// An error of the operating system's I/O.
    Io(std::io::Error),
    /// A packet could not be laid over a buffer: the layer's name and the action.
    Packet(&'static str, &'static str),
}

} // verus!
