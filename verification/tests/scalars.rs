use cairo_stack::error::MathError;
use cairo_stack::felt::Felt;
use cairo_stack::memory::Relocatable;
use cairo_stack::text::{ends_with, starts_with};

#[test]
fn a_machine_word_is_spelled_in_the_last_bytes() {
    let mut bytes = [0u8; 32];
    bytes[30] = 0x01;
    bytes[31] = 0x02;
    assert_eq!(Some(Felt::from_usize(258)), Felt::from_bytes_be(bytes));
    assert_eq!(Felt::from_usize(258).to_bytes_be(), bytes);
    let mut top = [0u8; 32];
    for b in top[24..].iter_mut() {
        *b = 0xff;
    }
    assert_eq!(Felt::from_usize(u64::MAX as usize).to_bytes_be(), top);
    assert_eq!(Felt::from_usize(0), Felt::zero());
}

#[test]
fn zero_is_told_from_the_rest() {
    assert!(Felt::zero().is_zero());
    assert!(Felt::from_usize(0).is_zero());
    assert!(!Felt::from_usize(1).is_zero());
    let mut bytes = [0u8; 32];
    bytes[0] = 1;
    assert!(!Felt::from_bytes_be(bytes).unwrap().is_zero());
}

#[test]
fn scalars_are_written_in_decimal() {
    assert_eq!(Felt::zero().to_dec_string(), "0");
    assert_eq!(Felt::from_usize(1234567890).to_dec_string(), "1234567890");
    let mut bytes = [0u8; 32];
    bytes[0] = 0x08;
    bytes[7] = 0x11;
    assert_eq!(
        Felt::from_bytes_be(bytes).unwrap().to_dec_string(),
        "3618502788666131213697322783095070105623107215331596699973092056135872020480"
    );
}

#[test]
fn only_numbers_below_the_prime_are_scalars() {
    let mut bytes = [0u8; 32];
    bytes[0] = 0x08;
    bytes[7] = 0x11;
    assert!(Felt::from_bytes_be(bytes).is_some());
    bytes[31] = 0x01;
    assert_eq!(Felt::from_bytes_be(bytes), None);
    bytes[31] = 0x00;
    bytes[20] = 0x01;
    assert_eq!(Felt::from_bytes_be(bytes), None);
    bytes[20] = 0x00;
    bytes[7] = 0x12;
    assert_eq!(Felt::from_bytes_be(bytes), None);
    bytes[7] = 0x10;
    bytes[8] = 0xff;
    bytes[31] = 0xff;
    assert!(Felt::from_bytes_be(bytes).is_some());
    assert_eq!(Felt::from_bytes_be([0xff; 32]), None);
    bytes[0] = 0x07;
    bytes[1] = 0xff;
    bytes[7] = 0xff;
    assert!(Felt::from_bytes_be(bytes).is_some());
}

#[test]
fn addresses_are_moved_and_measured_within_a_segment() {
    let a = Relocatable { segment_index: 2, offset: 5 };
    let b = Relocatable { segment_index: 2, offset: 9 };
    let c = Relocatable { segment_index: 3, offset: 9 };
    assert_eq!(a.add_usize(4), Ok(b));
    assert_eq!(a.add_usize(0), Ok(a));
    assert_eq!(
        a.add_usize(usize::MAX - 4),
        Err(MathError::RelocatableAddUsizeOffsetExceeded(a, usize::MAX - 4))
    );
    assert_eq!(
        a.add_usize(usize::MAX - 5),
        Ok(Relocatable { segment_index: 2, offset: usize::MAX })
    );
    assert_eq!(b.sub(a), Ok(4));
    assert_eq!(a.sub(a), Ok(0));
    assert_eq!(a.sub(b), Err(MathError::RelocatableSubUsizeNegOffset(a, 9)));
    assert_eq!(c.sub(b), Err(MathError::RelocatableSubDiffIndex(c, b)));
}

#[test]
fn prefixes_and_suffixes_are_told() {
    assert!(starts_with("core::panics::PanicResult::<()>", "core::panics::PanicResult::"));
    assert!(!starts_with("core::panics::Panic", "core::panics::PanicResult::"));
    assert!(!starts_with("xcore::panics::PanicResult::", "core::panics::PanicResult::"));
    assert!(starts_with("abc", ""));
    assert!(starts_with("", ""));
    assert!(starts_with("héllo", "hé"));
    assert!(ends_with("pkg::main", "::main"));
    assert!(!ends_with("pkg::main2", "::main"));
    assert!(!ends_with("main", "::main"));
    assert!(ends_with("abc", ""));
    assert!(ends_with("naïve", "ïve"));
}
