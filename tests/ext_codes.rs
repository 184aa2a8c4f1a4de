use ink_core::ext::{extract_from_slice, Error, Ptr32, Ptr32Mut, ReturnCode, SENTINEL};

#[test]
fn zero_code_is_success() {
    assert_eq!(ReturnCode(0).into_result(), Ok(()));
}

#[test]
fn named_codes_round_trip() {
    let named = [
        Error::CalleeTrapped,
        Error::CalleeReverted,
        Error::KeyNotFound,
        Error::_BelowSubsistenceThreshold,
        Error::TransferFailed,
        Error::_EndowmentTooLow,
        Error::CodeNotFound,
        Error::NotCallable,
        Error::LoggingDisabled,
        Error::CallRuntimeFailed,
        Error::EcdsaRecoveryFailed,
    ];
    for (i, e) in named.iter().enumerate() {
        let code = (i as u32) + 1;
        assert_eq!(ReturnCode(code).into_result(), Err(*e));
        assert_eq!(e.code(), code);
    }
}

#[test]
fn other_codes_are_unknown() {
    assert_eq!(ReturnCode(12).into_result(), Err(Error::Unknown));
    assert_eq!(ReturnCode(1000).into_result(), Err(Error::Unknown));
    assert_eq!(ReturnCode(u32::MAX).into_result(), Err(Error::Unknown));
}

#[test]
fn sentinel_means_no_value() {
    assert_eq!(ReturnCode(SENTINEL).into_option(), None);
    assert_eq!(ReturnCode(0).into_option(), Some(0));
    assert_eq!(ReturnCode(SENTINEL - 1).into_option(), Some(SENTINEL - 1));
}

#[test]
fn raw_code_and_bool() {
    assert_eq!(ReturnCode(7).into_u32(), 7);
    assert!(ReturnCode(1).into_bool());
    assert!(!ReturnCode(0).into_bool());
}

#[test]
fn extract_keeps_prefix() {
    let mut out = vec![1u8, 2, 3, 4, 5];
    extract_from_slice(&mut out, 3);
    assert_eq!(out, vec![1u8, 2, 3]);
    extract_from_slice(&mut out, 0);
    assert!(out.is_empty());
}

#[test]
fn pointers_are_built_from_references() {
    let shared = [1u8, 2, 3];
    let p = Ptr32::from_slice(&shared[..]);
    assert!(!format!("{:?}", p).is_empty());
    let mut exclusive = [4u8, 5];
    let q = Ptr32Mut::from_slice(&mut exclusive[..]);
    assert!(!format!("{:?}", q).is_empty());
    let mut cell = 7u32;
    let r = Ptr32Mut::from_ref(&mut cell);
    assert!(!format!("{:?}", r).is_empty());
}
