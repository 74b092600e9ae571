//! The Glow data model: values, access rights, type hints, the element
//! descriptions that a provider encodes and the commands that it receives.
//!
//! The BER encoding and decoding of these types is done by Lawo's
//! `libember_slim` C library, outside this crate.
use vstd::prelude::*;

verus! {

/// A Glow value.
///
/// A real value is held as the IEEE 754 bit pattern of the `f64` it stands
/// for (`f64::to_bits`), so that the value is carried unchanged.
#[derive(Debug, PartialEq)]
pub enum GlowValue {
    /// No value set.
    NoValue,
    /// Integer value.
    Integer(i64),
    /// Real value, as the bit pattern of an `f64`.
    Real(u64),
    /// Boolean value.
    Boolean(bool),
    /// UTF-8 string value.
    String(String),
    /// Octet string value.
    OctetString(Vec<u8>),
}

/// The mathematical model of a [`GlowValue`].
pub enum GlowValueView {
    NoValue,
    Integer(i64),
    Real(u64),
    Boolean(bool),
    String(Seq<char>),
    OctetString(Seq<u8>),
}

impl View for GlowValue {
    type V = GlowValueView;

    open spec fn view(&self) -> GlowValueView {
        match self {
            GlowValue::NoValue => GlowValueView::NoValue,
            GlowValue::Integer(v) => GlowValueView::Integer(*v),
            GlowValue::Real(v) => GlowValueView::Real(*v),
            GlowValue::Boolean(v) => GlowValueView::Boolean(*v),
            GlowValue::String(s) => GlowValueView::String(s@),
            GlowValue::OctetString(b) => GlowValueView::OctetString(b@),
        }
    }
}

impl Clone for GlowValue {
    fn clone(&self) -> (r: Self)
        ensures
            r@ == self@,
    {
        match self {
            GlowValue::NoValue => GlowValue::NoValue,
            GlowValue::Integer(v) => GlowValue::Integer(*v),
            GlowValue::Real(v) => GlowValue::Real(*v),
            GlowValue::Boolean(v) => GlowValue::Boolean(*v),
            GlowValue::String(s) => GlowValue::String(s.clone()),
            GlowValue::OctetString(b) => GlowValue::OctetString(
                vstd::slice::slice_to_vec(b.as_slice()),
            ),
        }
    }
}

/// Access flags for a parameter.
#[derive(Debug, Clone, Copy, PartialEq, Eq, Structural)]
pub enum Access {
    /// No access.
    NoAccess,
    /// Read-only.
    Read,
    /// Write-only.
    Write,
    /// Read/write.
    ReadWrite,
}

impl Access {
    /// The number that Glow gives this access right.
    pub open spec fn code(self) -> i32 {
        match self {
            Access::NoAccess => 0,
            Access::Read => 1,
            Access::Write => 2,
            Access::ReadWrite => 3,
        }
    }

    /// The number that Glow gives this access right.
    pub fn to_i32(self) -> (r: i32)
        ensures
            r == self.code(),
    {
        match self {
            Access::NoAccess => 0,
            Access::Read => 1,
            Access::Write => 2,
            Access::ReadWrite => 3,
        }
    }
}

/// Parameter type hint.
#[derive(Debug, Clone, Copy, PartialEq, Eq, Structural)]
pub enum ParameterType {
    /// No specific type.
    NoType,
    /// Integer.
    Integer,
    /// Real.
    Real,
    /// String.
    String,
    /// Boolean.
    Boolean,
    /// Trigger.
    Trigger,
    /// Enum.
    Enum,
    /// Octets.
    Octets,
}

impl ParameterType {
    /// The number that Glow gives this parameter type.
    pub open spec fn code(self) -> i32 {
        match self {
            ParameterType::NoType => 0,
            ParameterType::Integer => 1,
            ParameterType::Real => 2,
            ParameterType::String => 3,
            ParameterType::Boolean => 4,
            ParameterType::Trigger => 5,
            ParameterType::Enum => 6,
            ParameterType::Octets => 7,
        }
    }

    /// The number that Glow gives this parameter type.
    pub fn to_i32(self) -> (r: i32)
        ensures
            r == self.code(),
    {
        match self {
            ParameterType::NoType => 0,
            ParameterType::Integer => 1,
            ParameterType::Real => 2,
            ParameterType::String => 3,
            ParameterType::Boolean => 4,
            ParameterType::Trigger => 5,
            ParameterType::Enum => 6,
            ParameterType::Octets => 7,
        }
    }
}

/// Information about a Glow node used for encoding.
#[derive(Debug, Clone)]
pub struct NodeInfo {
    /// Node identifier.
    pub identifier: String,
    /// Optional description.
    pub description: Option<String>,
}

/// Information about a Glow parameter used for encoding.
#[derive(Debug, Clone)]
pub struct ParameterInfo {
    /// Parameter identifier.
    pub identifier: String,
    /// Optional description.
    pub description: Option<String>,
    /// Current value.
    pub value: GlowValue,
    /// Access rights.
    pub access: Access,
    /// Parameter type hint.
    pub parameter_type: ParameterType,
}

impl ParameterInfo {
    /// Whether the parameter carries a value, so that its encoding has a
    /// value field.
    pub fn has_value(&self) -> (r: bool)
        ensures
            r == !(self.value is NoValue),
    {
        !matches!(self.value, GlowValue::NoValue)
    }
}

/// A decoded Glow command.
#[derive(Debug, Clone, PartialEq)]
pub enum Command {
    /// Get directory of the element at the given path.
    GetDirectory {
        /// Path to the element.
        path: Vec<u32>,
        /// Optional field mask.
        dir_field_mask: Option<i32>,
    },
    /// Subscribe to value changes at the given path.
    Subscribe {
        /// Path to the parameter.
        path: Vec<u32>,
    },
    /// Unsubscribe from value changes at the given path.
    Unsubscribe {
        /// Path to the parameter.
        path: Vec<u32>,
    },
    /// Set the value of a parameter.
    SetValue {
        /// Path to the parameter.
        path: Vec<u32>,
        /// New value.
        value: GlowValue,
    },
    /// Invoke a function.
    Invoke {
        /// Path to the function.
        path: Vec<u32>,
        /// Invocation id.
        invocation_id: i32,
    },
    /// Other/unknown command.
    Other,
}

/// The Glow command number of `Subscribe`.
pub const GLOW_COMMAND_SUBSCRIBE: i32 = 30;

/// The Glow command number of `Unsubscribe`.
pub const GLOW_COMMAND_UNSUBSCRIBE: i32 = 31;

/// The Glow command number of `GetDirectory`.
pub const GLOW_COMMAND_GET_DIRECTORY: i32 = 32;

/// The Glow command number of `Invoke`.
pub const GLOW_COMMAND_INVOKE: i32 = 33;

/// The command that a decoded Glow command element stands for, from its
/// command number, its path, its directory field mask (0 when absent) and
/// the invocation id of its invocation (read for `Invoke` only).
pub fn command_from_glow(number: i32, path: Vec<u32>, dir_field_mask: i32, invocation_id: i32) -> (c:
    Command)
    ensures
        number == GLOW_COMMAND_GET_DIRECTORY ==> (c matches Command::GetDirectory {
            path: p,
            dir_field_mask: m,
        } && p@ == path@ && m == (if dir_field_mask != 0 {
            Some(dir_field_mask)
        } else {
            None
        })),
        number == GLOW_COMMAND_SUBSCRIBE ==> (c matches Command::Subscribe { path: p } && p@
            == path@),
        number == GLOW_COMMAND_UNSUBSCRIBE ==> (c matches Command::Unsubscribe { path: p } && p@
            == path@),
        number == GLOW_COMMAND_INVOKE ==> (c matches Command::Invoke { path: p, invocation_id: id }
            && p@ == path@ && id == invocation_id),
        number != GLOW_COMMAND_GET_DIRECTORY && number != GLOW_COMMAND_SUBSCRIBE && number
            != GLOW_COMMAND_UNSUBSCRIBE && number != GLOW_COMMAND_INVOKE ==> c is Other,
{
    if number == GLOW_COMMAND_GET_DIRECTORY {
        Command::GetDirectory {
            path,
            dir_field_mask: if dir_field_mask != 0 {
                Some(dir_field_mask)
            } else {
                None
            },
        }
    } else if number == GLOW_COMMAND_SUBSCRIBE {
        Command::Subscribe { path }
    } else if number == GLOW_COMMAND_UNSUBSCRIBE {
        Command::Unsubscribe { path }
    } else if number == GLOW_COMMAND_INVOKE {
        Command::Invoke { path, invocation_id }
    } else {
        Command::Other
    }
}

} // verus!
