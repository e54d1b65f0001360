use coap::block::{BlockValue, BlockValueError, OptionValueFormatError};

#[test]
fn block_value_new_rounds_the_size() {
    let b = BlockValue::new(3, true, 1024).unwrap();
    assert_eq!(b, BlockValue { num: 3, more: true, size_exponent: 6 });
    assert_eq!(b.size(), 1024);
    let b = BlockValue::new(0, false, 1500).unwrap();
    assert_eq!(b.size_exponent, 6);
    let b = BlockValue::new(0, false, 1).unwrap();
    assert_eq!(b.size_exponent, 0);
    assert_eq!(b.size(), 16);
    let b = BlockValue::new(0, false, 4095).unwrap();
    assert_eq!(b.size(), 2048);
}

#[test]
fn block_value_new_errors() {
    assert_eq!(BlockValue::new(0, false, 0), Err(BlockValueError::SizeExponentEncodingError(0)));
    assert_eq!(BlockValue::new(0, false, 4096), Err(BlockValueError::SizeExponentEncodingError(4096)));
    assert_eq!(BlockValue::new(70000, false, 16), Err(BlockValueError::TypeBoundsError));
}

#[test]
fn largest_power() {
    assert_eq!(BlockValue::largest_power_of_2_not_in_excess(0), None);
    assert_eq!(BlockValue::largest_power_of_2_not_in_excess(1), Some(0));
    assert_eq!(BlockValue::largest_power_of_2_not_in_excess(1023), Some(9));
    assert_eq!(BlockValue::largest_power_of_2_not_in_excess(1024), Some(10));
    assert_eq!(
        BlockValue::largest_power_of_2_not_in_excess(usize::MAX),
        Some(usize::BITS as usize - 1)
    );
    assert_eq!(BlockValue::largest_power_of_2_not_in_excess(1500), Some(10));
    assert_eq!(
        BlockValue::largest_power_of_2_not_in_excess(1usize << (usize::BITS - 1)),
        Some(usize::BITS as usize - 1)
    );
}

#[test]
fn block_value_bytes_roundtrip() {
    let b = BlockValue { num: 20, more: false, size_exponent: 2 };
    let bytes = b.to_bytes();
    assert_eq!(bytes, vec![0x01, 0x42]);
    assert_eq!(BlockValue::try_from_bytes(bytes), Ok(b.clone()));
    let v: Vec<u8> = Vec::from(b);
    assert_eq!(v, vec![0x01, 0x42]);
    let zero = BlockValue { num: 0, more: false, size_exponent: 0 };
    assert_eq!(zero.to_bytes(), Vec::<u8>::new());
    assert_eq!(BlockValue::try_from_bytes(vec![]), Ok(zero));
    assert_eq!(
        BlockValue::try_from_bytes(vec![1, 2, 3]),
        Err(OptionValueFormatError::Overflow { got: 3, expected: 2 })
    );
}
