//! Plain values that cross the boundary between a script and the world.

use vstd::prelude::*;
use vstd::string::StringExecFns;

verus! {

/// Handle of one entity slot of one world: the slot's index and generation,
/// packed into 64 bits.
///
/// A handle says nothing about whether its entity is still alive. Every
/// operation that takes one checks it against the world first.
#[derive(Clone, Copy, Debug, PartialEq, Eq, Hash, Structural)]
pub struct EntityId {
    pub bits: u64,
}

impl EntityId {
    pub fn from_bits(bits: u64) -> (id: EntityId)
        ensures
            id.bits == bits,
    {
        EntityId { bits }
    }

    pub fn to_bits(&self) -> (bits: u64)
        ensures
            bits == self.bits,
    {
        self.bits
    }
}

/// What the type registry knows of one registered type.
pub struct TypeFacts {
    /// The type's name without its module path.
    pub short_name: Seq<char>,
    /// The type's fully qualified path. It identifies the type.
    pub full_path: Seq<char>,
    /// Instances of the type can be attached to entities.
    pub is_component: bool,
    /// One instance of the type can be held by the world itself.
    pub is_resource: bool,
    /// The registry can construct a default instance of the type.
    pub has_default: bool,
}

/// Reference to a registered type, as handed out by name resolution.
///
/// The handle is a snapshot of the registration. Two handles denote the same
/// type exactly when their full paths agree; see [`TypeHandle::same_type`].
#[derive(Debug)]
pub struct TypeHandle {
    pub(crate) short_name: String,
    pub(crate) full_path: String,
    pub(crate) is_component: bool,
    pub(crate) is_resource: bool,
    pub(crate) has_default: bool,
}

impl View for TypeHandle {
    type V = TypeFacts;

    closed spec fn view(&self) -> TypeFacts {
        TypeFacts {
            short_name: self.short_name@,
            full_path: self.full_path@,
            is_component: self.is_component,
            is_resource: self.is_resource,
            has_default: self.has_default,
        }
    }
}

impl TypeHandle {
    pub fn short_name(&self) -> (name: &str)
        ensures
            name@ == self@.short_name,
    {
        self.short_name.as_str()
    }

    pub fn full_path(&self) -> (path: &str)
        ensures
            path@ == self@.full_path,
    {
        self.full_path.as_str()
    }

    pub fn is_component(&self) -> (flag: bool)
        ensures
            flag == self@.is_component,
    {
        self.is_component
    }

    pub fn is_resource(&self) -> (flag: bool)
        ensures
            flag == self@.is_resource,
    {
        self.is_resource
    }

    pub fn has_default(&self) -> (flag: bool)
        ensures
            flag == self@.has_default,
    {
        self.has_default
    }

    /// Identity of the underlying type: the names by which the two handles
    /// were found play no part.
    pub fn same_type(&self, other: &TypeHandle) -> (same: bool)
        ensures
            same == (self@.full_path == other@.full_path),
    {
        self.full_path == other.full_path
    }

}

impl Clone for TypeHandle {
    fn clone(&self) -> (copy: TypeHandle)
        ensures
            copy@ == self@,
    {
        TypeHandle {
            short_name: self.short_name.clone(),
            full_path: self.full_path.clone(),
            is_component: self.is_component,
            is_resource: self.is_resource,
            has_default: self.has_default,
        }
    }
}

/// The model of a [`DynamicValue`].
pub struct ValueFacts {
    /// Full path of the value's concrete type.
    pub type_path: Seq<char>,
    /// The value as the reflection layer renders it.
    pub text: Seq<char>,
}

/// Snapshot of one component or resource instance, detached from the world.
///
/// It always knows its concrete type. Later changes of the world do not
/// reach it.
#[derive(Debug)]
pub struct DynamicValue {
    pub(crate) type_path: String,
    pub(crate) text: String,
}

impl View for DynamicValue {
    type V = ValueFacts;

    closed spec fn view(&self) -> ValueFacts {
        ValueFacts { type_path: self.type_path@, text: self.text@ }
    }
}

impl DynamicValue {
    pub fn type_path(&self) -> (path: &str)
        ensures
            path@ == self@.type_path,
    {
        self.type_path.as_str()
    }

    pub fn text(&self) -> (text: &str)
        ensures
            text@ == self@.text,
    {
        self.text.as_str()
    }

}

impl Clone for DynamicValue {
    fn clone(&self) -> (copy: DynamicValue)
        ensures
            copy@ == self@,
    {
        DynamicValue { type_path: self.type_path.clone(), text: self.text.clone() }
    }
}

/// Why an operation was refused. A lookup that merely misses is no error:
/// it returns `None`.
#[derive(Clone, Copy, Debug, PartialEq, Eq, Structural)]
pub enum BridgeError {
    /// The entity handle does not resolve to a live entity.
    InvalidEntity,
    /// The type is unknown to the world's registry or cannot be attached
    /// to entities.
    NotAComponent,
    /// The type is unknown to the world's registry or cannot be held by
    /// the world as a resource.
    NotAResource,
    /// The registry cannot construct a default instance of the type.
    NotDefaultConstructible,
    /// A query names one type as both required and excluded.
    AmbiguousFilter,
}

/// The short name of the type that a call was about, if it was about one.
pub open spec fn subject_of(ty: Option<&TypeHandle>) -> Option<Seq<char>> {
    match ty {
        Some(handle) => Some(handle@.short_name),
        None => None,
    }
}

impl BridgeError {
    /// What the error says, apart from the type that it is about.
    pub open spec fn headline(self) -> Seq<char> {
        match self {
            BridgeError::InvalidEntity => "Entity is not valid"@,
            BridgeError::NotAComponent => "Not a component"@,
            BridgeError::NotAResource => "Not a resource"@,
            BridgeError::NotDefaultConstructible => "Not default constructible"@,
            BridgeError::AmbiguousFilter => "Required and excluded by one query"@,
        }
    }

    /// The text that [`BridgeError::message`] returns: the headline, and
    /// behind it the short name of the type at fault, where the caller
    /// knows one and the error is about a type.
    pub open spec fn message_text(self, subject: Option<Seq<char>>) -> Seq<char> {
        match subject {
            Some(name) if self != BridgeError::InvalidEntity => self.headline() + " "@ + name,
            _ => self.headline(),
        }
    }

    /// The message with which the error is raised in the script. It names
    /// the type that the refused call was about, as in
    /// `Not a resource Transform`.
    pub fn message(&self, ty: Option<&TypeHandle>) -> (text: String)
        ensures
            text@ == self.message_text(subject_of(ty)),
    {
        let mut text = match self {
            BridgeError::InvalidEntity => "Entity is not valid".to_owned(),
            BridgeError::NotAComponent => "Not a component".to_owned(),
            BridgeError::NotAResource => "Not a resource".to_owned(),
            BridgeError::NotDefaultConstructible => "Not default constructible".to_owned(),
            BridgeError::AmbiguousFilter => "Required and excluded by one query".to_owned(),
        };
        match ty {
            Some(handle) => {
                match self {
                    BridgeError::InvalidEntity => {},
                    _ => {
                        text.append(" ");
                        text.append(handle.short_name());
                    },
                }
            },
            None => {},
        }
        text
    }
}

} // verus!
