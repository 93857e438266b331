//! Messages that sensor nodes exchange over the radio.

use vstd::prelude::*;

verus! {

/// A demonstration message with fields of several widths and a text.
#[derive(Clone, Copy, Debug, PartialEq, Eq)]
pub struct DemoMessage<'a> {
    pub small: u8,
    pub medium: u32,
    pub large: u64,
    pub text_bytes: &'a str,
}

} // verus!
