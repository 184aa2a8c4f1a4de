//! Selector-based dispatch of incoming calls to a contract's constructors and messages.

use crate::key::{blake2x256, blake2x256_of};
use crate::storage::PackedValue;
use vstd::prelude::*;
use vstd::slice::slice_subrange;

verus! {

/// Why a call could not be dispatched to a handler.
#[derive(Debug, Clone, Copy, PartialEq, Eq, Structural)]
pub enum DispatchError {
    InvalidSelector,
    UnknownSelector,
    InvalidParameters,
    CouldNotReadInput,
    PaidUnpayableMessage,
}

impl DispatchError {
    /// Returns a short description of the error.
    pub fn as_str(&self) -> (r: &'static str)
        ensures
            *self == DispatchError::InvalidSelector ==> r@ == "unable to decode selector"@,
            *self == DispatchError::UnknownSelector ==> r@ == "encountered unknown selector"@,
            *self == DispatchError::InvalidParameters ==> r@ == "unable to decode input"@,
            *self == DispatchError::CouldNotReadInput ==> r@ == "could not read input"@,
            *self == DispatchError::PaidUnpayableMessage ==> r@ == "paid an unpayable message"@,
    {
        match self {
            DispatchError::InvalidSelector => "unable to decode selector",
            DispatchError::UnknownSelector => "encountered unknown selector",
            DispatchError::InvalidParameters => "unable to decode input",
            DispatchError::CouldNotReadInput => "could not read input",
            DispatchError::PaidUnpayableMessage => "paid an unpayable message",
        }
    }
}

/// The selector derived from a handler's label: the first four bytes of its digest.
pub fn selector_from_label(label: &[u8]) -> (r: [u8; 4])
    ensures
        r@ == blake2x256_of(label@).subrange(0, 4),
{
    let h = blake2x256(label);
    let r = [h[0], h[1], h[2], h[3]];
    assert(r@ =~= h@.subrange(0, 4));
    r
}

/// One message of a contract's dispatch table.
pub struct MessageEntry {
    pub selector: [u8; 4],
    pub mutates: bool,
    pub payable: bool,
    pub label: String,
}

/// One constructor of a contract's dispatch table.
pub struct ConstructorEntry {
    pub selector: [u8; 4],
    pub payable: bool,
    pub label: String,
}

/// No two selectors of the list are equal.
pub open spec fn selectors_unique(sels: Seq<[u8; 4]>) -> bool {
    forall|i: int, j: int|
        0 <= i < sels.len() && 0 <= j < sels.len() && i != j ==> #[trigger] sels[i]@ != #[trigger] sels[j]@
}

/// The selectors of a list of messages, in order.
pub open spec fn message_selectors(entries: Seq<MessageEntry>) -> Seq<[u8; 4]> {
    entries.map_values(|e: MessageEntry| e.selector)
}

/// The selectors of a list of constructors, in order.
pub open spec fn constructor_selectors(entries: Seq<ConstructorEntry>) -> Seq<[u8; 4]> {
    entries.map_values(|e: ConstructorEntry| e.selector)
}

/// Compares two selectors.
fn selector_eq(a: &[u8; 4], b: &[u8; 4]) -> (r: bool)
    ensures
        r == (a@ == b@),
{
    let r = a[0] == b[0] && a[1] == b[1] && a[2] == b[2] && a[3] == b[3];
    if r {
        assert(a@ =~= b@);
    }
    r
}

/// Checks that no two selectors of the list are equal.
fn check_unique(sels: &Vec<[u8; 4]>) -> (r: bool)
    ensures
        r == selectors_unique(sels@),
{
    let mut i: usize = 0;
    while i < sels.len()
        invariant
            i <= sels@.len(),
            forall|a: int, b: int|
                0 <= a < i && 0 <= b < sels@.len() && a != b ==> #[trigger] sels@[a]@
                    != #[trigger] sels@[b]@,
        decreases sels@.len() - i,
    {
        let mut j: usize = 0;
        while j < sels.len()
            invariant
                i < sels@.len(),
                j <= sels@.len(),
                forall|a: int, b: int|
                    0 <= a < i && 0 <= b < sels@.len() && a != b ==> #[trigger] sels@[a]@
                        != #[trigger] sels@[b]@,
                forall|b: int| 0 <= b < j && b != i ==> sels@[i as int]@ != #[trigger] sels@[b]@,
            decreases sels@.len() - j,
        {
            if j != i && selector_eq(&sels[i], &sels[j]) {
                return false;
            }
            j = j + 1;
        }
        i = i + 1;
    }
    true
}

/// The position of `sel` in the list, if it occurs.
fn find_selector(sels: &Vec<[u8; 4]>, sel: &[u8; 4]) -> (r: Option<usize>)
    ensures
        r matches Some(i) ==> i < sels@.len() && sels@[i as int]@ == sel@,
        r is None ==> forall|i: int| 0 <= i < sels@.len() ==> #[trigger] sels@[i]@ != sel@,
{
    let mut i: usize = 0;
    while i < sels.len()
        invariant
            i <= sels@.len(),
            forall|j: int| 0 <= j < i ==> #[trigger] sels@[j]@ != sel@,
        decreases sels@.len() - i,
    {
        if selector_eq(&sels[i], sel) {
            return Some(i);
        }
        i = i + 1;
    }
    None
}

/// The handlers of a contract's messages, each known by its index in the
/// contract's table, and implemented on the contract's storage type.
pub trait DispatchableMessageInfo: Sized {
    /// Whether `args` decode into the argument tuple of message `id`.
    spec fn spec_decodes(id: usize, args: Seq<u8>) -> bool;

    /// The encoded return value of message `id` on this state.
    spec fn spec_output(&self, id: usize, args: Seq<u8>) -> Seq<u8>;

    /// The state after message `id` ran on this state.
    spec fn spec_next(&self, id: usize, args: Seq<u8>) -> Self;

    fn decodes(id: usize, args: &[u8]) -> (r: bool)
        ensures
            r == Self::spec_decodes(id, args@),
    ;

    /// Runs a message that may change the state.
    fn call_mut(&mut self, id: usize, args: &[u8]) -> (r: Vec<u8>)
        requires
            Self::spec_decodes(id, args@),
        ensures
            r@ == old(self).spec_output(id, args@),
            *final(self) == old(self).spec_next(id, args@),
    ;

    /// Runs a message that only reads the state.
    fn call_ref(&self, id: usize, args: &[u8]) -> (r: Vec<u8>)
        requires
            Self::spec_decodes(id, args@),
        ensures
            r@ == self.spec_output(id, args@),
    ;
}

/// The constructors of a contract, each known by its index in the contract's table.
pub trait DispatchableConstructorInfo: Sized {
    /// Whether `args` decode into the argument tuple of constructor `id`.
    spec fn spec_decodes(id: usize, args: Seq<u8>) -> bool;

    /// The state that constructor `id` builds.
    spec fn spec_construct(id: usize, args: Seq<u8>) -> Self;

    fn decodes(id: usize, args: &[u8]) -> (r: bool)
        ensures
            r == Self::spec_decodes(id, args@),
    ;

    fn construct(id: usize, args: &[u8]) -> (r: Self)
        requires
            Self::spec_decodes(id, args@),
        ensures
            r == Self::spec_construct(id, args@),
    ;
}

/// A contract's list of messages, in the order of their handler indices.
pub trait ContractDispatchableMessages {
    fn messages() -> Vec<MessageEntry>;
}

/// A contract's list of constructors, in the order of their handler indices.
pub trait ContractDispatchableConstructors {
    fn constructors() -> Vec<ConstructorEntry>;
}

/// The handler that a selector picks out of a list of selectors, if any.
pub open spec fn selected(sels: Seq<[u8; 4]>, input: Seq<u8>) -> Option<int> {
    if exists|i: int| 0 <= i < sels.len() && #[trigger] sels[i]@ == input.subrange(0, 4) {
        Some(choose|i: int| 0 <= i < sels.len() && #[trigger] sels[i]@ == input.subrange(0, 4))
    } else {
        None
    }
}

/// The decision for an input: the handler to run, or the error, checked in
/// this order: input too short, unknown selector, undecodable arguments,
/// value paid to a handler that is not payable.
pub open spec fn route_outcome(
    sels: Seq<[u8; 4]>,
    payable: spec_fn(int) -> bool,
    decodes: spec_fn(int) -> bool,
    input: Seq<u8>,
    transferred: u128,
) -> Result<int, DispatchError> {
    if input.len() < 4 {
        Err(DispatchError::CouldNotReadInput)
    } else {
        match selected(sels, input) {
            None => Err(DispatchError::UnknownSelector),
            Some(i) => if !decodes(i) {
                Err(DispatchError::InvalidParameters)
            } else if !payable(i) && transferred != 0 {
                Err(DispatchError::PaidUnpayableMessage)
            } else {
                Ok(i)
            },
        }
    }
}

/// A contract's dispatch table: its messages and its constructors, each with
/// selectors unique among their kind.
pub struct DispatchTable {
    messages: Vec<MessageEntry>,
    message_sels: Vec<[u8; 4]>,
    constructors: Vec<ConstructorEntry>,
    constructor_sels: Vec<[u8; 4]>,
}

impl DispatchTable {
    pub closed spec fn messages(&self) -> Seq<MessageEntry> {
        self.messages@
    }

    pub closed spec fn constructors(&self) -> Seq<ConstructorEntry> {
        self.constructors@
    }

    pub closed spec fn wf(&self) -> bool {
        &&& self.message_sels@ == message_selectors(self.messages@)
        &&& self.constructor_sels@ == constructor_selectors(self.constructors@)
        &&& selectors_unique(self.message_sels@)
        &&& selectors_unique(self.constructor_sels@)
    }

    #[verifier::type_invariant]
    spec fn inv(self) -> bool {
        self.wf()
    }

    /// What a message call with `input` and `transferred` value leads to, for
    /// a contract whose handlers are `C`.
    pub open spec fn message_route<C: DispatchableMessageInfo>(
        &self,
        input: Seq<u8>,
        transferred: u128,
    ) -> Result<int, DispatchError> {
        route_outcome(
            message_selectors(self.messages()),
            |i: int| self.messages()[i].payable,
            |i: int| C::spec_decodes(i as usize, input.subrange(4, input.len() as int)),
            input,
            transferred,
        )
    }

    /// What a deployment with `input` and `transferred` value leads to, for a
    /// contract whose constructors are `C`.
    pub open spec fn constructor_route<C: DispatchableConstructorInfo>(
        &self,
        input: Seq<u8>,
        transferred: u128,
    ) -> Result<int, DispatchError> {
        route_outcome(
            constructor_selectors(self.constructors()),
            |i: int| self.constructors()[i].payable,
            |i: int| C::spec_decodes(i as usize, input.subrange(4, input.len() as int)),
            input,
            transferred,
        )
    }

    /// Builds the table, refusing one where two messages, or two
    /// constructors, share a selector.
    pub fn new(messages: Vec<MessageEntry>, constructors: Vec<ConstructorEntry>) -> (r: Option<
        DispatchTable,
    >)
        ensures
            r is Some <==> selectors_unique(message_selectors(messages@)) && selectors_unique(
                constructor_selectors(constructors@),
            ),
            r matches Some(t) ==> t.wf() && t.messages() == messages@ && t.constructors()
                == constructors@,
    {
        let mut message_sels: Vec<[u8; 4]> = Vec::new();
        let mut i: usize = 0;
        while i < messages.len()
            invariant
                i <= messages@.len(),
                message_sels@ == message_selectors(messages@).subrange(0, i as int),
            decreases messages@.len() - i,
        {
            message_sels.push(messages[i].selector);
            i = i + 1;
            assert(message_sels@ =~= message_selectors(messages@).subrange(0, i as int));
        }
        assert(message_sels@ =~= message_selectors(messages@));
        let mut constructor_sels: Vec<[u8; 4]> = Vec::new();
        let mut j: usize = 0;
        while j < constructors.len()
            invariant
                j <= constructors@.len(),
                constructor_sels@ == constructor_selectors(constructors@).subrange(0, j as int),
            decreases constructors@.len() - j,
        {
            constructor_sels.push(constructors[j].selector);
            j = j + 1;
            assert(constructor_sels@ =~= constructor_selectors(constructors@).subrange(0, j as int));
        }
        assert(constructor_sels@ =~= constructor_selectors(constructors@));
        if check_unique(&message_sels) && check_unique(&constructor_sels) {
            Some(DispatchTable { messages, message_sels, constructors, constructor_sels })
        } else {
            None
        }
    }

    /// Finds the message that `input` selects, checking the input's length,
    /// the selector, the arguments and the payment, in that order.
    pub fn route_message<C: DispatchableMessageInfo>(&self, input: &[u8], transferred: u128) -> (r:
        Result<usize, DispatchError>)
        ensures
            self.wf(),
            r matches Ok(i) ==> self.message_route::<C>(input@, transferred) == Ok::<int, DispatchError>(i as int),
            r matches Err(e) ==> self.message_route::<C>(input@, transferred) == Err::<int, DispatchError>(e),
    {
        proof {
            use_type_invariant(self);
        }
        if input.len() < 4 {
            return Err(DispatchError::CouldNotReadInput);
        }
        let sel = [input[0], input[1], input[2], input[3]];
        assert(sel@ =~= input@.subrange(0, 4));
        match find_selector(&self.message_sels, &sel) {
            None => Err(DispatchError::UnknownSelector),
            Some(i) => {
                let ghost sels = self.message_sels@;
                proof {
                    let c = choose|k: int| 0 <= k < sels.len() && #[trigger] sels[k]@ == input@.subrange(0, 4);
                    assert(sels[c]@ == sels[i as int]@);
                }
                let args = slice_subrange(input, 4, input.len());
                if !C::decodes(i, args) {
                    Err(DispatchError::InvalidParameters)
                } else if !self.messages[i].payable && transferred != 0 {
                    Err(DispatchError::PaidUnpayableMessage)
                } else {
                    Ok(i)
                }
            },
        }
    }

    /// Finds the constructor that `input` selects, checking the input's
    /// length, the selector, the arguments and the payment, in that order.
    pub fn route_constructor<C: DispatchableConstructorInfo>(&self, input: &[u8], transferred: u128) -> (r:
        Result<usize, DispatchError>)
        ensures
            self.wf(),
            r matches Ok(i) ==> self.constructor_route::<C>(input@, transferred) == Ok::<int, DispatchError>(i as int),
            r matches Err(e) ==> self.constructor_route::<C>(input@, transferred) == Err::<int, DispatchError>(e),
    {
        proof {
            use_type_invariant(self);
        }
        if input.len() < 4 {
            return Err(DispatchError::CouldNotReadInput);
        }
        let sel = [input[0], input[1], input[2], input[3]];
        assert(sel@ =~= input@.subrange(0, 4));
        match find_selector(&self.constructor_sels, &sel) {
            None => Err(DispatchError::UnknownSelector),
            Some(i) => {
                let ghost sels = self.constructor_sels@;
                proof {
                    let c = choose|k: int| 0 <= k < sels.len() && #[trigger] sels[k]@ == input@.subrange(0, 4);
                    assert(sels[c]@ == sels[i as int]@);
                }
                let args = slice_subrange(input, 4, input.len());
                if !C::decodes(i, args) {
                    Err(DispatchError::InvalidParameters)
                } else if !self.constructors[i].payable && transferred != 0 {
                    Err(DispatchError::PaidUnpayableMessage)
                } else {
                    Ok(i)
                }
            },
        }
    }
}

/// The bytes after the selector.
pub open spec fn call_args(input: Seq<u8>) -> Seq<u8> {
    input.subrange(4, input.len() as int)
}

/// Runs the message that `input` selects on `contract`. Nothing runs, and the
/// contract stays as it is, where routing fails; a message that does not
/// mutate only reads the contract.
pub fn execute_message<C: DispatchableMessageInfo>(
    table: &DispatchTable,
    contract: &mut C,
    input: &[u8],
    transferred: u128,
) -> (r: Result<Vec<u8>, DispatchError>)
    ensures
        table.wf(),
        table.message_route::<C>(input@, transferred) matches Err(e) ==> r == Err::<Vec<u8>, DispatchError>(e)
            && *final(contract) == *old(contract),
        table.message_route::<C>(input@, transferred) matches Ok(i) ==> (r matches Ok(out) && out@
            == old(contract).spec_output(i as usize, call_args(input@)) && *final(contract) == if table.messages()[i].mutates {
            old(contract).spec_next(i as usize, call_args(input@))
        } else {
            *old(contract)
        }),
{
    match table.route_message::<C>(input, transferred) {
        Err(e) => Err(e),
        Ok(i) => {
            let args = slice_subrange(input, 4, input.len());
            if table.messages[i].mutates {
                Ok(contract.call_mut(i, args))
            } else {
                Ok(contract.call_ref(i, args))
            }
        },
    }
}

/// Builds the contract that `input` selects a constructor for.
pub fn execute_constructor<C: DispatchableConstructorInfo>(
    table: &DispatchTable,
    input: &[u8],
    transferred: u128,
) -> (r: Result<C, DispatchError>)
    ensures
        table.wf(),
        table.constructor_route::<C>(input@, transferred) matches Err(e) ==> r == Err::<C, DispatchError>(e),
        table.constructor_route::<C>(input@, transferred) matches Ok(i) ==> r == Ok::<C, DispatchError>(
            C::spec_construct(i as usize, call_args(input@)),
        ),
{
    match table.route_constructor::<C>(input, transferred) {
        Err(e) => Err(e),
        Ok(i) => {
            let args = slice_subrange(input, 4, input.len());
            Ok(C::construct(i, args))
        },
    }
}

/// A message bound to selector `S` is the one that the input `S` followed by
/// `args` runs, with `args` as its arguments, where they decode and any value
/// paid is accepted.
pub proof fn lemma_bound_selector_routes<C: DispatchableMessageInfo>(
    table: DispatchTable,
    i: int,
    args: Seq<u8>,
    transferred: u128,
)
    requires
        table.wf(),
        0 <= i < table.messages().len(),
        C::spec_decodes(i as usize, args),
        table.messages()[i].payable || transferred == 0,
    ensures
        table.message_route::<C>(table.messages()[i].selector@ + args, transferred) == Ok::<
            int,
            DispatchError,
        >(i),
        call_args(table.messages()[i].selector@ + args) == args,
{
    let input = table.messages()[i].selector@ + args;
    let sels = message_selectors(table.messages());
    assert(input.subrange(0, 4) =~= table.messages()[i].selector@);
    assert(call_args(input) =~= args);
    assert(sels[i]@ == input.subrange(0, 4));
    let c = choose|k: int| 0 <= k < sels.len() && #[trigger] sels[k]@ == input.subrange(0, 4);
    assert(sels[c]@ == sels[i]@);
}

/// An input whose selector no message is bound to is refused as unknown, so
/// that no message runs.
pub proof fn lemma_unbound_selector_refused<C: DispatchableMessageInfo>(
    table: DispatchTable,
    input: Seq<u8>,
    transferred: u128,
)
    requires
        input.len() >= 4,
        forall|i: int|
            0 <= i < table.messages().len() ==> #[trigger] table.messages()[i].selector@
                != input.subrange(0, 4),
    ensures
        table.message_route::<C>(input, transferred) == Err::<int, DispatchError>(
            DispatchError::UnknownSelector,
        ),
{
    let sels = message_selectors(table.messages());
    assert forall|i: int| 0 <= i < sels.len() implies #[trigger] sels[i]@ != input.subrange(0, 4) by {
        assert(sels[i] == table.messages()[i].selector);
    }
}

/// A message that is not payable, called with a nonzero value and arguments
/// that decode, is refused as paid, so that it does not run.
pub proof fn lemma_unpayable_refused<C: DispatchableMessageInfo>(
    table: DispatchTable,
    i: int,
    args: Seq<u8>,
    transferred: u128,
)
    requires
        table.wf(),
        0 <= i < table.messages().len(),
        C::spec_decodes(i as usize, args),
        !table.messages()[i].payable,
        transferred != 0,
    ensures
        table.message_route::<C>(table.messages()[i].selector@ + args, transferred) == Err::<
            int,
            DispatchError,
        >(DispatchError::PaidUnpayableMessage),
{
    let input = table.messages()[i].selector@ + args;
    let sels = message_selectors(table.messages());
    assert(input.subrange(0, 4) =~= table.messages()[i].selector@);
    assert(call_args(input) =~= args);
    assert(sels[i]@ == input.subrange(0, 4));
    let c = choose|k: int| 0 <= k < sels.len() && #[trigger] sels[k]@ == input.subrange(0, 4);
    assert(sels[c]@ == sels[i]@);
}

/// A contract that holds one boolean. Its messages, by index: 0 flips the
/// value, 1 returns it packed. Its constructors: 0 takes the initial value
/// packed, 1 starts from `false`.
pub struct Flipper {
    pub value: bool,
}

impl DispatchableMessageInfo for Flipper {
    open spec fn spec_decodes(id: usize, args: Seq<u8>) -> bool {
        (id == 0 || id == 1) && args.len() == 0
    }

    open spec fn spec_output(&self, id: usize, args: Seq<u8>) -> Seq<u8> {
        if id == 1 {
            bool::packed(self.value)
        } else {
            Seq::empty()
        }
    }

    open spec fn spec_next(&self, id: usize, args: Seq<u8>) -> Flipper {
        if id == 0 {
            Flipper { value: !self.value }
        } else {
            Flipper { value: self.value }
        }
    }

    fn decodes(id: usize, args: &[u8]) -> (r: bool) {
        (id == 0 || id == 1) && args.len() == 0
    }

    fn call_mut(&mut self, id: usize, args: &[u8]) -> (r: Vec<u8>) {
        if id == 0 {
            self.value = !self.value;
            Vec::new()
        } else {
            self.value.encode_packed()
        }
    }

    fn call_ref(&self, id: usize, args: &[u8]) -> (r: Vec<u8>) {
        if id == 1 {
            self.value.encode_packed()
        } else {
            Vec::new()
        }
    }
}

impl ContractDispatchableMessages for Flipper {
    fn messages() -> Vec<MessageEntry> {
        vec![
            MessageEntry {
                selector: [0x11, 0x22, 0x33, 0x44],
                mutates: true,
                payable: false,
                label: String::from_str("flip"),
            },
            MessageEntry {
                selector: [0x2f, 0x86, 0x5b, 0xd9],
                mutates: false,
                payable: false,
                label: String::from_str("get"),
            },
        ]
    }
}

impl ContractDispatchableConstructors for Flipper {
    fn constructors() -> Vec<ConstructorEntry> {
        vec![
            ConstructorEntry {
                selector: [0x9b, 0xae, 0x9d, 0x5e],
                payable: false,
                label: String::from_str("new"),
            },
            ConstructorEntry {
                selector: [0xed, 0x4b, 0x9d, 0x1b],
                payable: false,
                label: String::from_str("default"),
            },
        ]
    }
}

impl DispatchableConstructorInfo for Flipper {
    open spec fn spec_decodes(id: usize, args: Seq<u8>) -> bool {
        (id == 0 && bool::unpacked(args) is Some) || (id == 1 && args.len() == 0)
    }

    open spec fn spec_construct(id: usize, args: Seq<u8>) -> Flipper {
        if id == 0 {
            Flipper { value: bool::unpacked(args).unwrap() }
        } else {
            Flipper { value: false }
        }
    }

    fn decodes(id: usize, args: &[u8]) -> (r: bool) {
        if id == 0 {
            bool::decode_packed(args).is_some()
        } else {
            id == 1 && args.len() == 0
        }
    }

    fn construct(id: usize, args: &[u8]) -> (r: Flipper) {
        if id == 0 {
            match bool::decode_packed(args) {
                Some(v) => Flipper { value: v },
                None => Flipper { value: false },
            }
        } else {
            Flipper { value: false }
        }
    }
}

} // verus!
