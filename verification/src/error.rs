//! The error reported when a byte container does not match its dimensions.

use crate::decimal::{decimal, push_decimal, push_text};
use vstd::prelude::*;

verus! {

/// An error of buffer construction.
#[derive(Debug, Clone, Copy, PartialEq, Eq, Structural)]
pub enum Error {
    /// The byte container does not hold exactly the pixels of the given
    /// dimensions. The first number is the container's length in bytes, the
    /// second the number of pixels that the dimensions ask for.
    ContainerTooSmall(usize, usize),
}

impl Error {
    /// The text of the message: it cites the container's length, the number of
    /// whole pixels that this many bytes encode, and the number of pixels that
    /// the dimensions contain.
    pub open spec fn message_spec(self) -> Seq<char> {
        match self {
            Error::ContainerTooSmall(len, area) => {
                "Container is too small for the given dimensions. \nContainer has "@ + decimal(
                    len as nat,
                ) + " bytes, which encode "@ + decimal((len / 4) as nat)
                    + " pixels, \nbut the given demensions contain "@ + decimal(area as nat)
                    + " pixels"@
            },
        }
    }

    /// A human-readable description of the error.
    pub fn message(&self) -> (s: String)
        ensures
            s@ == self.message_spec(),
    {
        match self {
            Error::ContainerTooSmall(len, area) => {
                let mut s = String::new();
                push_text(&mut s, "Container is too small for the given dimensions. \nContainer has ");
                push_decimal(&mut s, *len);
                push_text(&mut s, " bytes, which encode ");
                push_decimal(&mut s, *len / 4);
                push_text(&mut s, " pixels, \nbut the given demensions contain ");
                push_decimal(&mut s, *area);
                push_text(&mut s, " pixels");
                s
            },
        }
    }
}

} // verus!
