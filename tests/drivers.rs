use uhr::rtc::{Error as RtcError, RegisterWrite, RtcCompareReg, RtcExt, RtcInterrupt, RtcRegister};
use uhr::sevseg::{Error, PunctuationFlags, SevSegSpim, CURSOR_CTL, DECIMAL_CTL, DOTS_COLON};

fn display() -> SevSegSpim<(), ()> {
    SevSegSpim::new((), ())
}

#[test]
fn cursor_frames() {
    let d = display();
    assert_eq!(d.set_cursor::<()>(3), Ok(vec![CURSOR_CTL, 3]));
    assert_eq!(d.set_cursor::<()>(4), Err(Error::CursorOutOfRange));
    assert_eq!(d.clear::<()>(), Ok(vec![0x76]));
}

#[test]
fn digit_frames() {
    let d = display();
    assert_eq!(d.write_digit::<()>(0x0F), Ok(vec![0x0F]));
    assert_eq!(d.write_digit::<()>(0x10), Err(Error::DigitOutOfRange));
    assert_eq!(d.write_digits::<()>(&[1, 2, 0xA]), Ok(vec![1, 2, 0xA]));
    assert_eq!(d.write_digits::<()>(&[1, 2, 3, 4, 5]), Err(Error::CursorOutOfRange));
    assert_eq!(d.write_digits::<()>(&[1, 0x20]), Err(Error::DigitOutOfRange));
    assert_eq!(d.write_digits::<()>(&[]), Ok(vec![]));
}

#[test]
fn punctuation_frame() {
    let d = display();
    let p = PunctuationFlags::from_bits_truncate(DOTS_COLON | 0xC0);
    assert_eq!(p.bits(), DOTS_COLON);
    assert_eq!(d.write_punctuation::<()>(p), Ok(vec![DECIMAL_CTL, DOTS_COLON]));
}

#[test]
fn number_frames() {
    let d = display();
    assert_eq!(d.set_num::<()>(407), Ok(vec![vec![CURSOR_CTL, 0], vec![0, 4, 0, 7]]));
    assert_eq!(d.set_num::<()>(9999), Ok(vec![vec![CURSOR_CTL, 0], vec![9, 9, 9, 9]]));
    assert_eq!(d.set_num::<()>(10000), Err(Error::DigitOutOfRange));
}

#[test]
fn rtc_register_writes() {
    let rtc = 7u32.constrain();
    assert_eq!(
        rtc.enable_interrupt(RtcInterrupt::Compare0),
        RegisterWrite { register: RtcRegister::IntenSet, bits: 1 << 16 }
    );
    assert_eq!(
        rtc.disable_event(RtcInterrupt::Overflow),
        RegisterWrite { register: RtcRegister::EvtenClr, bits: 1 << 1 }
    );
    assert_eq!(rtc.set_prescaler(4095), Ok(RegisterWrite { register: RtcRegister::Prescaler, bits: 4095 }));
    assert_eq!(rtc.set_prescaler(4096), Err(RtcError::PrescalerOutOfRange));
    let started = rtc.enable_counter();
    assert_eq!(
        started.set_compare(RtcCompareReg::Compare3, 0xFF_FFFF),
        Ok(RegisterWrite { register: RtcRegister::Cc(3), bits: 0xFF_FFFF })
    );
    assert_eq!(started.set_compare(RtcCompareReg::Compare1, 1 << 24), Err(RtcError::CompareOutOfRange));
    assert_eq!(started.enable_event(RtcInterrupt::Tick).bits, 1);
    assert_eq!(started.disable_interrupt(RtcInterrupt::Compare3).register, RtcRegister::IntenClr);
    assert_eq!(started.disable_counter().release(), 7);
}
