use ink_core::dispatch::{
    execute_constructor, execute_message, selector_from_label, ContractDispatchableConstructors,
    ContractDispatchableMessages, DispatchError, DispatchTable, Flipper, MessageEntry,
};

fn flipper_table() -> DispatchTable {
    DispatchTable::new(Flipper::messages(), Flipper::constructors()).unwrap()
}

#[test]
fn flip_with_zero_value_flips() {
    let table = flipper_table();
    let mut c = Flipper { value: false };
    let r = execute_message(&table, &mut c, &[0x11, 0x22, 0x33, 0x44], 0);
    assert_eq!(r, Ok(vec![]));
    assert!(c.value);
}

#[test]
fn flip_with_value_is_refused_and_changes_nothing() {
    let table = flipper_table();
    let mut c = Flipper { value: false };
    let r = execute_message(&table, &mut c, &[0x11, 0x22, 0x33, 0x44], 5);
    assert_eq!(r, Err(DispatchError::PaidUnpayableMessage));
    assert!(!c.value);
}

#[test]
fn read_only_message_returns_value() {
    let table = flipper_table();
    let mut c = Flipper { value: true };
    let r = execute_message(&table, &mut c, &[0x2f, 0x86, 0x5b, 0xd9], 0);
    assert_eq!(r, Ok(vec![1u8]));
    assert!(c.value);
}

#[test]
fn unknown_selector_runs_nothing() {
    let table = flipper_table();
    let mut c = Flipper { value: false };
    let r = execute_message(&table, &mut c, &[0xde, 0xad, 0xbe, 0xef], 0);
    assert_eq!(r, Err(DispatchError::UnknownSelector));
    assert!(!c.value);
}

#[test]
fn short_input_cannot_be_read() {
    let table = flipper_table();
    let mut c = Flipper { value: false };
    let r = execute_message(&table, &mut c, &[0x11, 0x22, 0x33], 0);
    assert_eq!(r, Err(DispatchError::CouldNotReadInput));
    assert!(!c.value);
}

#[test]
fn undecodable_arguments_are_refused_before_payment() {
    let table = flipper_table();
    let mut c = Flipper { value: false };
    let r = execute_message(&table, &mut c, &[0x11, 0x22, 0x33, 0x44, 0x00], 5);
    assert_eq!(r, Err(DispatchError::InvalidParameters));
    assert!(!c.value);
}

#[test]
fn constructors_dispatch_by_selector() {
    let table = flipper_table();
    let c: Flipper = execute_constructor(&table, &[0x9b, 0xae, 0x9d, 0x5e, 1], 0).unwrap();
    assert!(c.value);
    let d: Flipper = execute_constructor(&table, &[0xed, 0x4b, 0x9d, 0x1b], 0).unwrap();
    assert!(!d.value);
    let e = execute_constructor::<Flipper>(&table, &[0x9b, 0xae, 0x9d, 0x5e, 7], 0);
    assert!(matches!(e, Err(DispatchError::InvalidParameters)));
    let f = execute_constructor::<Flipper>(&table, &[0x11, 0x22, 0x33, 0x44], 0);
    assert!(matches!(f, Err(DispatchError::UnknownSelector)));
}

#[test]
fn duplicate_selectors_are_refused() {
    let mut messages = Flipper::messages();
    messages.push(MessageEntry {
        selector: [0x11, 0x22, 0x33, 0x44],
        mutates: false,
        payable: true,
        label: String::from("again"),
    });
    assert!(DispatchTable::new(messages, Flipper::constructors()).is_none());
}

#[test]
fn selector_is_digest_prefix_of_label() {
    let mut digest = [0u8; 32];
    ink_env::hash_bytes::<ink_env::hash::Blake2x256>(b"Flipper::flip", &mut digest);
    let sel = selector_from_label(b"Flipper::flip");
    assert_eq!(sel, [digest[0], digest[1], digest[2], digest[3]]);
    assert_ne!(sel, selector_from_label(b"Flipper::get"));
}

#[test]
fn error_descriptions() {
    assert_eq!(DispatchError::InvalidSelector.as_str(), "unable to decode selector");
    assert_eq!(DispatchError::UnknownSelector.as_str(), "encountered unknown selector");
    assert_eq!(DispatchError::InvalidParameters.as_str(), "unable to decode input");
    assert_eq!(DispatchError::CouldNotReadInput.as_str(), "could not read input");
    assert_eq!(DispatchError::PaidUnpayableMessage.as_str(), "paid an unpayable message");
}
