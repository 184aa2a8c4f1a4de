//! Values exchanged with the host: return codes, error codes and 32-bit
//! pointers into contract memory.

use core::marker::PhantomData;
use vstd::prelude::*;

verus! {

/// Every error that can be returned to a contract when it calls any of the host functions.
#[derive(Debug, Clone, Copy, PartialEq, Eq, Structural)]
pub enum Error {
    /// The called function trapped and has its state changes reverted.
    /// In this case no output buffer is returned.
    CalleeTrapped,
    /// The called function ran to completion but decided to revert its state.
    /// An output buffer is returned when one was supplied.
    CalleeReverted,
    /// The passed key does not exist in storage.
    KeyNotFound,
    /// Deprecated and no longer returned: there is only the minimum balance.
    _BelowSubsistenceThreshold,
    /// Transfer failed for a reason not further specified.
    TransferFailed,
    /// Deprecated and no longer returned: endowment is no longer required.
    _EndowmentTooLow,
    /// No code could be found at the supplied code hash.
    CodeNotFound,
    /// The account that was called is no contract.
    NotCallable,
    /// The call to `debug_message` had no effect because recording was disabled.
    LoggingDisabled,
    /// The call dispatched by `call_runtime` was executed but returned an error.
    CallRuntimeFailed,
    /// ECDSA public key recovery failed.
    EcdsaRecoveryFailed,
    /// Returned if an unknown error was received from the host module.
    Unknown,
}

/// The numeric code of each error; `Unknown` follows the last named code.
pub open spec fn spec_error_code(e: Error) -> u32 {
    match e {
        Error::CalleeTrapped => 1,
        Error::CalleeReverted => 2,
        Error::KeyNotFound => 3,
        Error::_BelowSubsistenceThreshold => 4,
        Error::TransferFailed => 5,
        Error::_EndowmentTooLow => 6,
        Error::CodeNotFound => 7,
        Error::NotCallable => 8,
        Error::LoggingDisabled => 9,
        Error::CallRuntimeFailed => 10,
        Error::EcdsaRecoveryFailed => 11,
        Error::Unknown => 12,
    }
}

/// The outcome that a raw host code stands for: 0 is success, 1 to 11 are the
/// named errors, anything else is `Unknown`.
pub open spec fn spec_code_result(code: u32) -> Result<(), Error> {
    if code == 0 {
        Ok(())
    } else if code == 1 {
        Err(Error::CalleeTrapped)
    } else if code == 2 {
        Err(Error::CalleeReverted)
    } else if code == 3 {
        Err(Error::KeyNotFound)
    } else if code == 4 {
        Err(Error::_BelowSubsistenceThreshold)
    } else if code == 5 {
        Err(Error::TransferFailed)
    } else if code == 6 {
        Err(Error::_EndowmentTooLow)
    } else if code == 7 {
        Err(Error::CodeNotFound)
    } else if code == 8 {
        Err(Error::NotCallable)
    } else if code == 9 {
        Err(Error::LoggingDisabled)
    } else if code == 10 {
        Err(Error::CallRuntimeFailed)
    } else if code == 11 {
        Err(Error::EcdsaRecoveryFailed)
    } else {
        Err(Error::Unknown)
    }
}

impl Error {
    /// Returns the numeric code of this error.
    pub fn code(&self) -> (r: u32)
        ensures
            r == spec_error_code(*self),
    {
        match self {
            Error::CalleeTrapped => 1,
            Error::CalleeReverted => 2,
            Error::KeyNotFound => 3,
            Error::_BelowSubsistenceThreshold => 4,
            Error::TransferFailed => 5,
            Error::_EndowmentTooLow => 6,
            Error::CodeNotFound => 7,
            Error::NotCallable => 8,
            Error::LoggingDisabled => 9,
            Error::CallRuntimeFailed => 10,
            Error::EcdsaRecoveryFailed => 11,
            Error::Unknown => 12,
        }
    }
}

/// Success maps to code 0, each named error to its code and back, and every
/// other code to `Unknown`.
pub proof fn lemma_error_code_round_trip(code: u32, e: Error)
    ensures
        code == 0 <==> spec_code_result(code) is Ok,
        1 <= code <= 11 ==> (spec_code_result(code) matches Err(named) && spec_error_code(named)
            == code),
        code > 11 ==> spec_code_result(code) == Err::<(), Error>(Error::Unknown),
        e != Error::Unknown ==> spec_code_result(spec_error_code(e)) == Err::<(), Error>(e),
{
}

/// The largest `u32`, which a host writes to signal that no value is present.
pub const SENTINEL: u32 = 4294967295;

/// The raw return code returned by the host side.
pub struct ReturnCode(pub u32);

impl ReturnCode {
    /// Returns the raw underlying `u32` representation.
    pub fn into_u32(self) -> (r: u32)
        ensures
            r == self.0,
    {
        self.0
    }

    /// Returns the underlying `u32` converted into `bool`.
    pub fn into_bool(self) -> (r: bool)
        ensures
            r == (self.0 != 0),
    {
        self.0 != 0
    }

    /// Reads the code as an optional value: the sentinel means that none is present.
    pub fn into_option(self) -> (r: Option<u32>)
        ensures
            self.0 < SENTINEL ==> r == Some(self.0),
            self.0 == SENTINEL ==> r is None,
    {
        if self.0 < SENTINEL {
            Some(self.0)
        } else {
            None
        }
    }

    /// Reads the code as the outcome of a host call.
    pub fn into_result(self) -> (r: Result<(), Error>)
        ensures
            r == spec_code_result(self.0),
    {
        match self.0 {
            0 => Ok(()),
            1 => Err(Error::CalleeTrapped),
            2 => Err(Error::CalleeReverted),
            3 => Err(Error::KeyNotFound),
            4 => Err(Error::_BelowSubsistenceThreshold),
            5 => Err(Error::TransferFailed),
            6 => Err(Error::_EndowmentTooLow),
            7 => Err(Error::CodeNotFound),
            8 => Err(Error::NotCallable),
            9 => Err(Error::LoggingDisabled),
            10 => Err(Error::CallRuntimeFailed),
            11 => Err(Error::EcdsaRecoveryFailed),
            _ => Err(Error::Unknown),
        }
    }
}

/// Relies on `<[T]>::as_ptr`: the address of the slice's first element,
/// cut to 32 bits. Nothing is promised of its value.
#[verifier::external_body]
fn slice_address<T>(slice: &[T]) -> u32 {
    slice.as_ptr() as u32
}

/// Relies on `core::ptr::from_ref`: the address of the referenced value, cut
/// to 32 bits. Nothing is promised of its value.
#[verifier::external_body]
fn ref_address<T>(a_ref: &T) -> u32 {
    core::ptr::from_ref(a_ref) as u32
}

/// Thin wrapper around a `u32` standing for a pointer into 32-bit contract
/// memory, built from a shared reference only. The raw value stays private.
#[derive(Debug)]
pub struct Ptr32<'a, T: ?Sized> {
    _value: u32,
    marker: PhantomData<&'a T>,
}

impl<'a, T: ?Sized> Ptr32<'a, T> {
    /// Creates a pointer for the given raw pointer value.
    fn new(value: u32) -> (r: Self)
        ensures
            r._value == value,
    {
        Ptr32 { _value: value, marker: PhantomData }
    }
}

impl<'a, T> Ptr32<'a, [T]> {
    /// Creates a pointer from the given shared slice.
    pub fn from_slice(slice: &'a [T]) -> (r: Self) {
        Self::new(slice_address(slice))
    }
}

/// Thin wrapper around a `u32` standing for a pointer into 32-bit contract
/// memory, built from an exclusive reference only. The raw value stays private.
#[derive(Debug)]
pub struct Ptr32Mut<'a, T: ?Sized> {
    _value: u32,
    marker: PhantomData<&'a mut T>,
}

impl<'a, T: ?Sized> Ptr32Mut<'a, T> {
    /// Creates a pointer for the given raw pointer value.
    fn new(value: u32) -> (r: Self)
        ensures
            r._value == value,
    {
        Ptr32Mut { _value: value, marker: PhantomData }
    }
}

impl<'a, T> Ptr32Mut<'a, [T]> {
    /// Creates a pointer from the given exclusive slice.
    pub fn from_slice(slice: &'a mut [T]) -> (r: Self)
        ensures
            final(slice)@ == old(slice)@,
    {
        Self::new(slice_address(slice))
    }
}

impl<'a, T> Ptr32Mut<'a, T> {
    /// Creates a pointer from the given exclusive reference.
    pub fn from_ref(a_ref: &'a mut T) -> (r: Self)
        ensures
            *final(a_ref) == *old(a_ref),
    {
        Self::new(ref_address(a_ref))
    }
}

/// Shortens an output buffer to its first `new_len` bytes.
pub fn extract_from_slice(output: &mut Vec<u8>, new_len: usize)
    requires
        new_len <= old(output).len(),
    ensures
        final(output)@ == old(output)@.subrange(0, new_len as int),
{
    output.truncate(new_len);
}

} // verus!
