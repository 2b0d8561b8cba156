//! The error taxonomy: one closed type unifying transport failures,
//! lock-poisoning, and wire-decoding failures.

use vstd::prelude::*;

verus! {

/// The I/O operation during which a transport failure occurred.
#[derive(Clone, Copy, Debug, PartialEq, Eq, Structural)]
pub enum IoOperation {
    Bind,
    Send,
    Receive,
}

/// A concurrent accessor observed the membership-table lock in a torn
/// state: a previous holder failed while holding it. Structurally fatal
/// to further use of that lock unless explicitly recovered.
#[derive(Clone, Copy, Debug, PartialEq, Eq, Structural)]
pub struct GuestlistPoisonError;

/// Why a byte sequence was rejected by the message decoder.
#[derive(Clone, Copy, Debug, PartialEq, Eq, Structural)]
pub enum DecodeError {
    /// The input ended before the variant's fields were complete.
    Truncated,
    /// The leading variant tag named no known message variant.
    BadMessageTag,
    /// An address field began with a tag that is neither v4 nor v6.
    BadAddressTag,
    /// Bytes remained after a complete message was read.
    TrailingBytes,
}

/// The one error type this library propagates: a transport failure, a
/// poisoned lock, or a malformed wire payload.
#[derive(Clone, Copy, Debug, PartialEq, Eq, Structural)]
pub enum GuestlistError {
    Io(IoOperation),
    Poison(GuestlistPoisonError),
    Decode(DecodeError),
}

impl GuestlistPoisonError {
    /// A short human-readable account of the failure.
    pub fn describe(&self) -> (r: &'static str)
        ensures
            r@ == "one of the threads accessing the list of nodes panicked"@,
    {
        "one of the threads accessing the list of nodes panicked"
    }
}

impl GuestlistError {
    /// A short human-readable account of the failure.
    pub fn describe(&self) -> (r: &'static str)
        ensures
            self is Io ==> r@ == "i/o error while talking to the cluster"@,
            self is Poison ==> r@ == "one of the threads accessing the list of nodes panicked"@,
            self is Decode ==> r@ == "malformed wire payload"@,
    {
        match self {
            GuestlistError::Io(_) => "i/o error while talking to the cluster",
            GuestlistError::Poison(e) => e.describe(),
            GuestlistError::Decode(_) => "malformed wire payload",
        }
    }
}

} // verus!
