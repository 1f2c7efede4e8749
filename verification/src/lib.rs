//! Decoder toolkit for WMO BUFR (Binary Universal Form for the
//! Representation of meteorological data) messages, edition 4.
//!
//! A BUFR message is a self-describing, bit-packed container: six fixed
//! sections whose data payload layout is determined at decode time by a
//! template, the recursive expansion of integer descriptors drawn from
//! versioned code tables.

use vstd::prelude::*;

pub mod bits;
pub mod bufr;
pub mod decoder;
pub mod digits;
pub mod scan;
pub mod table;

verus! {

/// The single error kind of the crate: a human-readable message.
///
/// All layers propagate this uniformly; there is no recovery within the
/// core. Callers display the message and exit.
#[derive(Debug, Clone, Default)]
pub struct BufrKitError {
    message: String,
}

impl View for BufrKitError {
    type V = Seq<char>;

    closed spec fn view(&self) -> Seq<char> {
        self.message@
    }
}

impl BufrKitError {
    pub fn new(message: String) -> (r: BufrKitError)
        ensures
            r@ == message@,
    {
        BufrKitError { message }
    }

    pub fn message(&self) -> (r: &String)
        ensures
            r@ == self@,
    {
        &self.message
    }
}

} // verus!
