//! Commands for the SparkFun Serial 7-Segment Display on an SPI bus.
//!
//! Each operation checks its arguments and gives the frames to send, one
//! chip-select assertion per frame; moving the bytes over the bus is the
//! caller's part.

use vstd::prelude::*;

verus! {

pub const CLEAR_DISPLAY: u8 = 0x76;
pub const DECIMAL_CTL: u8 = 0x77;
pub const CURSOR_CTL: u8 = 0x79;
pub const BRIGHTNESS_CTL: u8 = 0x7A;
pub const DIGIT_1_CTL: u8 = 0x7B;
pub const DIGIT_2_CTL: u8 = 0x7C;
pub const DIGIT_3_CTL: u8 = 0x7D;
pub const DIGIT_4_CTL: u8 = 0x7E;
pub const BAUD_RATE_CFG: u8 = 0x7F;
pub const I2C_ADDR_CFG: u8 = 0x80;
pub const FACTORY_RESET: u8 = 0x81;

/// Bits of the punctuation LEDs.
pub const DOT_BETWEEN_1_AND_2: u8 = 0b0000_0001;
pub const DOT_BETWEEN_2_AND_3: u8 = 0b0000_0010;
pub const DOT_BETWEEN_3_AND_4: u8 = 0b0000_0100;
pub const DOT_RIGHT_OF_4: u8 = 0b0000_1000;
pub const DOTS_COLON: u8 = 0b0001_0000;
pub const APOSTROPHE_BETWEEN_3_AND_4: u8 = 0b0010_0000;

/// Which punctuation LEDs to light, one bit each.
#[derive(Clone, Copy, Debug, PartialEq, Eq, Structural)]
pub struct PunctuationFlags {
    bits: u8,
}

impl PunctuationFlags {
    /// The raw bits.
    pub closed spec fn spec_bits(self) -> u8 {
        self.bits
    }

    /// The flags of `bits`, dropping bits that name no LED.
    pub fn from_bits_truncate(bits: u8) -> (r: PunctuationFlags)
        ensures
            r.spec_bits() == bits & 0b0011_1111,
    {
        PunctuationFlags { bits: bits & 0b0011_1111 }
    }

    /// The raw bits.
    pub fn bits(&self) -> (r: u8)
        ensures
            r == self.spec_bits(),
    {
        self.bits
    }
}

/// Why a display command was refused, or the bus error it met.
#[derive(Debug, PartialEq, Eq)]
pub enum Error<T> {
    SpimError(T),
    CursorOutOfRange,
    DigitOutOfRange,
}

/// The four digits of `num`, most significant first.
pub open spec fn decimal_digits(num: int) -> Seq<u8> {
    seq![
        (num / 1000) as u8,
        ((num % 1000) / 100) as u8,
        ((num % 100) / 10) as u8,
        (num % 10) as u8,
    ]
}

/// A display on an SPI port `spim` with chip select `csn`.
pub struct SevSegSpim<SPIM, CS> {
    pub spim: SPIM,
    pub csn: CS,
}

impl<SPIM, CS> SevSegSpim<SPIM, CS> {
    /// A display on the SPI port `spim` (at most 250 kHz, mode 0) with chip
    /// select `csn`.
    pub fn new(spim: SPIM, csn: CS) -> (r: Self)
        ensures
            r.spim == spim,
            r.csn == csn,
    {
        SevSegSpim { spim, csn }
    }

    /// Moves the cursor to column `col`, 0 to 3 from the left.
    pub fn set_cursor<E>(&self, col: u8) -> (r: Result<Vec<u8>, Error<E>>)
        ensures
            r is Ok <==> col < 4,
            col >= 4 ==> r matches Err(Error::CursorOutOfRange),
            r matches Ok(f) ==> f@ == seq![CURSOR_CTL, col],
    {
        if col >= 4 {
            return Err(Error::CursorOutOfRange);
        }
        Ok(vec![CURSOR_CTL, col])
    }

    /// Clears the whole display.
    pub fn clear<E>(&self) -> (r: Result<Vec<u8>, Error<E>>)
        ensures
            r matches Ok(f) && f@ == seq![CLEAR_DISPLAY],
    {
        Ok(vec![CLEAR_DISPLAY])
    }

    /// Writes one digit, 0x0 to 0xF, at the cursor, which then moves on.
    pub fn write_digit<E>(&self, digit: u8) -> (r: Result<Vec<u8>, Error<E>>)
        ensures
            r is Ok <==> digit <= 0x0F,
            digit > 0x0F ==> r matches Err(Error::DigitOutOfRange),
            r matches Ok(f) ==> f@ == seq![digit],
    {
        if digit > 0x0F {
            return Err(Error::DigitOutOfRange);
        }
        Ok(vec![digit])
    }

    /// Lights exactly the punctuation LEDs of `punct_flags`; the others go off.
    pub fn write_punctuation<E>(&self, punct_flags: PunctuationFlags) -> (r: Result<Vec<u8>, Error<E>>)
        ensures
            r matches Ok(f) && f@ == seq![DECIMAL_CTL, punct_flags.spec_bits()],
    {
        Ok(vec![DECIMAL_CTL, punct_flags.bits()])
    }

    /// Writes up to four digits, each 0x0 to 0xF, from the cursor on.
    pub fn write_digits<E>(&self, digits: &[u8]) -> (r: Result<Vec<u8>, Error<E>>)
        ensures
            digits@.len() > 4 ==> r matches Err(Error::CursorOutOfRange),
            digits@.len() <= 4 && (exists|i: int| 0 <= i < digits@.len() && #[trigger] digits@[i] > 0x0F)
                ==> r matches Err(Error::DigitOutOfRange),
            r is Ok <==> digits@.len() <= 4 && forall|i: int| 0 <= i < digits@.len() ==> #[trigger] digits@[i] <= 0x0F,
            r matches Ok(f) ==> f@ == digits@,
    {
        if digits.len() > 4 {
            return Err(Error::CursorOutOfRange);
        }
        let mut frame: Vec<u8> = Vec::new();
        let mut i: usize = 0;
        while i < digits.len()
            invariant
                i <= digits@.len(),
                digits@.len() <= 4,
                frame@ == digits@.subrange(0, i as int),
                forall|j: int| 0 <= j < i ==> #[trigger] digits@[j] <= 0x0F,
            decreases digits@.len() - i,
        {
            if digits[i] > 0x0F {
                return Err(Error::DigitOutOfRange);
            }
            frame.push(digits[i]);
            i = i + 1;
            assert(frame@ =~= digits@.subrange(0, i as int));
        }
        assert(frame@ =~= digits@);
        Ok(frame)
    }

    /// Shows `num`, 0 to 9999, with leading zeros: a frame that moves the
    /// cursor to the first column, then a frame of the four digits, after
    /// which the cursor is back at the first column.
    pub fn set_num<E>(&self, num: u16) -> (r: Result<Vec<Vec<u8>>, Error<E>>)
        ensures
            r is Ok <==> num <= 9999,
            num > 9999 ==> r matches Err(Error::DigitOutOfRange),
            r matches Ok(frames) ==> frames@.len() == 2 && frames@[0]@ == seq![CURSOR_CTL, 0u8]
                && frames@[1]@ == decimal_digits(num as int),
    {
        if num > 9999 {
            return Err(Error::DigitOutOfRange);
        }
        let cursor = match self.set_cursor::<E>(0) {
            Ok(f) => f,
            Err(e) => {
                return Err(e);
            },
        };
        let data = vec![
            (num / 1000) as u8,
            ((num % 1000) / 100) as u8,
            ((num % 100) / 10) as u8,
            (num % 10) as u8,
        ];
        assert(data@ =~= decimal_digits(num as int));
        Ok(vec![cursor, data])
    }
}

} // verus!
