//! Items shared by every platform: the display selector and the errors.

use vstd::prelude::*;
use vstd::string::StringExecFns;
use crate::codec::{decimal_text, push_decimal};

verus! {

/// Controls which identifier of an interface is handed to the caller.
#[derive(Clone, Copy, Debug, PartialEq, Eq, Structural)]
pub enum InterfaceDisplay {
    /// The description a person would recognise.
    HumanReadable,
    /// The identifier the operating system uses internally.
    MachineReadable,
}

/// A selector value that names no display mode.
#[derive(Clone, Copy, Debug, PartialEq, Eq, Structural)]
pub struct UnknownDisplay {
    pub value: i32,
}

impl InterfaceDisplay {
    /// The display mode that the number `value` selects.
    pub open spec fn from_code(value: i32) -> Option<InterfaceDisplay> {
        if value == 0 {
            Some(InterfaceDisplay::HumanReadable)
        } else if value == 1 {
            Some(InterfaceDisplay::MachineReadable)
        } else {
            None
        }
    }

    /// Reads a display mode from its number: 0 is human readable, 1 is
    /// machine readable, and every other number is refused.
    pub fn try_from(value: i32) -> (r: Result<InterfaceDisplay, UnknownDisplay>)
        ensures
            r == match InterfaceDisplay::from_code(value) {
                Some(display) => Ok::<InterfaceDisplay, UnknownDisplay>(display),
                None => Err::<InterfaceDisplay, UnknownDisplay>(UnknownDisplay { value }),
            },
    {
        if value == 0 {
            Ok(InterfaceDisplay::HumanReadable)
        } else if value == 1 {
            Ok(InterfaceDisplay::MachineReadable)
        } else {
            Err(UnknownDisplay { value })
        }
    }
}

/// The operating-system call that a failure came from.
#[derive(Clone, Copy, Debug, PartialEq, Eq, Structural)]
pub enum SystemCall {
    /// Listing the interface addresses.
    InterfaceAddresses,
    /// Listing the interface names with their indexes.
    InterfaceIndexes,
    /// Opening the throwaway socket of the flags query.
    Socket,
    /// The flags query itself.
    InterfaceFlags,
    /// Reading the adapter table.
    AdapterTable,
    /// Reading the table of IPv4 address rows.
    AddressTable,
}

/// What an operation of this library can fail with.
#[derive(Clone, Copy, Debug, PartialEq, Eq, Structural)]
pub enum NetifacesError {
    /// No interface of the snapshot has the name that was asked for, or the
    /// name is longer than the platform allows.
    NotFound,
    /// A call into the operating system failed with the given raw code.
    SystemError { call: SystemCall, code: i32 },
    /// The snapshot contradicts itself: a name, which must be unique,
    /// matches more than one interface.
    InvariantViolation,
}

impl SystemCall {
    /// What the call was for, in words.
    pub open spec fn purpose_text(self) -> Seq<char> {
        match self {
            SystemCall::InterfaceAddresses => "listing the interface addresses"@,
            SystemCall::InterfaceIndexes => "listing the interface indexes"@,
            SystemCall::Socket => "opening a socket"@,
            SystemCall::InterfaceFlags => "reading the interface flags"@,
            SystemCall::AdapterTable => "reading the adapter table"@,
            SystemCall::AddressTable => "reading the address table"@,
        }
    }

    /// What the call was for, in words.
    pub fn purpose(self) -> (r: &'static str)
        ensures
            r@ == self.purpose_text(),
    {
        match self {
            SystemCall::InterfaceAddresses => "listing the interface addresses",
            SystemCall::InterfaceIndexes => "listing the interface indexes",
            SystemCall::Socket => "opening a socket",
            SystemCall::InterfaceFlags => "reading the interface flags",
            SystemCall::AdapterTable => "reading the adapter table",
            SystemCall::AddressTable => "reading the address table",
        }
    }
}

/// Decimal text of an error code: a minus sign before the digits of a
/// negative one.
pub open spec fn code_text(code: i32) -> Seq<char> {
    if code < 0 {
        seq!['-'] + decimal_text((-code) as nat)
    } else {
        decimal_text(code as nat)
    }
}

impl NetifacesError {
    /// The message of this error for an operation on the interface
    /// `if_name`.
    pub open spec fn message_text(self, if_name: Seq<char>) -> Seq<char> {
        match self {
            NetifacesError::NotFound => "Failed to find an interface with the name "@ + if_name,
            NetifacesError::SystemError { call, code } => "Error "@ + call.purpose_text()
                + " for "@ + if_name + ": "@ + code_text(code),
            NetifacesError::InvariantViolation => "More than a single interface with the name "@
                + if_name,
        }
    }

    /// The message of this error for an operation on the interface
    /// `if_name`; an operation on no interface in particular passes the
    /// empty name.
    pub fn message(&self, if_name: &str) -> (r: String)
        ensures
            r@ == self.message_text(if_name@),
    {
        match self {
            NetifacesError::NotFound => {
                let mut text = String::from_str("Failed to find an interface with the name ");
                text.append(if_name);
                text
            },
            NetifacesError::SystemError { call, code } => {
                let mut text = String::from_str("Error ");
                text.append(call.purpose());
                text.append(" for ");
                text.append(if_name);
                text.append(": ");
                if *code < 0 {
                    text.push('-');
                    let magnitude: u32 = if *code == i32::MIN {
                        0x8000_0000
                    } else {
                        (-*code) as u32
                    };
                    push_decimal(&mut text, magnitude);
                } else {
                    push_decimal(&mut text, *code as u32);
                }
                assert(text@ =~= self.message_text(if_name@));
                text
            },
            NetifacesError::InvariantViolation => {
                let mut text = String::from_str("More than a single interface with the name ");
                text.append(if_name);
                text
            },
        }
    }
}

/// The identity of one interface: the description a person would
/// recognise, the name the operating system uses internally, and the
/// numeric index. Where the system has a single name for an interface, as
/// on POSIX, the two names coincide.
#[derive(Clone, Debug, PartialEq, Eq)]
pub struct InterfaceIdentity {
    pub description: String,
    pub name: String,
    pub index: u32,
}

impl InterfaceIdentity {
    /// The identifier under which the interface is shown in the given mode.
    pub open spec fn identifier_text(self, display: InterfaceDisplay) -> Seq<char> {
        match display {
            InterfaceDisplay::HumanReadable => self.description@,
            InterfaceDisplay::MachineReadable => self.name@,
        }
    }

    /// Whether a caller means this interface by `name`: the name is its
    /// description or its internal name.
    pub open spec fn answers_to(self, name: Seq<char>) -> bool {
        self.description@ == name || self.name@ == name
    }

    /// The identifier under which the interface is shown in the given mode.
    pub fn identifier(&self, display: InterfaceDisplay) -> (r: String)
        ensures
            r@ == self.identifier_text(display),
    {
        match display {
            InterfaceDisplay::HumanReadable => self.description.clone(),
            InterfaceDisplay::MachineReadable => self.name.clone(),
        }
    }
}

} // verus!
