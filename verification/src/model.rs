//! The schema model: an in-memory representation of one protocol
//! definition, from which bindings are compiled.

use vstd::prelude::*;

verus! {

/// One protocol: a name and its interfaces.
#[derive(Clone, Debug, Eq, Hash, PartialEq)]
pub struct Protocol {
    /// The protocol's name.
    pub name: String,
    /// The interfaces the protocol declares, in declaration order.
    pub interfaces: Vec<Interface>,
}

/// A named, versioned set of requests, events and enums.
#[derive(Clone, Debug, Eq, Hash, PartialEq)]
pub struct Interface {
    /// The interface's name.
    pub name: String,
    /// The interface's version.
    pub version: u32,
    /// The one-line summary of the description, if any.
    pub short_description: Option<String>,
    /// The description's full text, if any.
    pub description: Option<String>,
    /// The requests (client-to-server messages), in declaration order.
    pub requests: Vec<Procedure>,
    /// The events (server-to-client messages), in declaration order.
    pub events: Vec<Procedure>,
    /// The enums, in declaration order.
    pub enums: Vec<Enum>,
}

/// One request or event: both share this shape.
#[derive(Clone, Debug, Eq, Hash, PartialEq)]
pub struct Procedure {
    /// The message's name.
    pub name: String,
    /// The one-line summary of the description, if any.
    pub short_description: Option<String>,
    /// The description's full text, if any.
    pub description: Option<String>,
    /// The arguments; declaration order equals wire order.
    pub args: Vec<Arg>,
}

/// A named set of numeric constants.
#[derive(Clone, Debug, Eq, Hash, PartialEq)]
pub struct Enum {
    /// The enum's name.
    pub name: String,
    /// The one-line summary of the description, if any.
    pub short_description: Option<String>,
    /// The description's full text, if any.
    pub description: Option<String>,
    /// The variants, in declaration order.
    pub variants: Vec<EnumVariant>,
}

/// One named numeric constant of an enum.
#[derive(Clone, Debug, Eq, Hash, PartialEq)]
pub struct EnumVariant {
    /// The variant's name.
    pub name: String,
    /// The variant's wire value.
    pub value: u32,
    /// The one-line summary, if any.
    pub short_description: Option<String>,
}

/// One argument of a request or event.
#[derive(Clone, Debug, Eq, Hash, PartialEq)]
pub struct Arg {
    /// The argument's name.
    pub name: String,
    /// The argument's wire type.
    pub arg_type: ArgType,
    /// The interface the argument references, where the type carries one.
    pub interface: Option<String>,
    /// The one-line summary, if any.
    pub short_description: Option<String>,
}


/// The view of an optional string: the characters, if present.
pub open spec fn spec_opt_str(o: Option<String>) -> Option<Seq<char>> {
    match o {
        Some(s) => Some(s@),
        None => None,
    }
}

/// What a protocol holds, as mathematical values.
pub ghost struct ProtocolView {
    /// The protocol's name.
    pub name: Seq<char>,
    /// The interfaces, in declaration order.
    pub interfaces: Seq<InterfaceView>,
}

/// What an interface holds, as mathematical values.
pub ghost struct InterfaceView {
    /// The interface's name.
    pub name: Seq<char>,
    /// The interface's version.
    pub version: u32,
    /// The one-line summary, if any.
    pub short_description: Option<Seq<char>>,
    /// The description text, if any.
    pub description: Option<Seq<char>>,
    /// The requests, in declaration order.
    pub requests: Seq<ProcedureView>,
    /// The events, in declaration order.
    pub events: Seq<ProcedureView>,
    /// The enums, in declaration order.
    pub enums: Seq<EnumView>,
}

/// What a request or event holds, as mathematical values.
pub ghost struct ProcedureView {
    /// The message's name.
    pub name: Seq<char>,
    /// The one-line summary, if any.
    pub short_description: Option<Seq<char>>,
    /// The description text, if any.
    pub description: Option<Seq<char>>,
    /// The arguments, in wire order.
    pub args: Seq<ArgView>,
}

/// What an enum holds, as mathematical values.
pub ghost struct EnumView {
    /// The enum's name.
    pub name: Seq<char>,
    /// The one-line summary, if any.
    pub short_description: Option<Seq<char>>,
    /// The description text, if any.
    pub description: Option<Seq<char>>,
    /// The variants, in declaration order.
    pub variants: Seq<EnumVariantView>,
}

/// What an enum variant holds, as mathematical values.
pub ghost struct EnumVariantView {
    /// The variant's name.
    pub name: Seq<char>,
    /// The variant's wire value.
    pub value: u32,
    /// The one-line summary, if any.
    pub short_description: Option<Seq<char>>,
}

/// What an argument holds, as mathematical values.
pub ghost struct ArgView {
    /// The argument's name.
    pub name: Seq<char>,
    /// The argument's wire type.
    pub arg_type: ArgType,
    /// The referenced interface, if any.
    pub interface: Option<Seq<char>>,
    /// The one-line summary, if any.
    pub short_description: Option<Seq<char>>,
}

impl View for Protocol {
    type V = ProtocolView;

    open spec fn view(&self) -> ProtocolView {
        ProtocolView {
            name: self.name@,
            interfaces: self.interfaces@.map_values(|i: Interface| i@),
        }
    }
}

impl View for Interface {
    type V = InterfaceView;

    open spec fn view(&self) -> InterfaceView {
        InterfaceView {
            name: self.name@,
            version: self.version,
            short_description: spec_opt_str(self.short_description),
            description: spec_opt_str(self.description),
            requests: self.requests@.map_values(|p: Procedure| p@),
            events: self.events@.map_values(|p: Procedure| p@),
            enums: self.enums@.map_values(|e: Enum| e@),
        }
    }
}

impl View for Procedure {
    type V = ProcedureView;

    open spec fn view(&self) -> ProcedureView {
        ProcedureView {
            name: self.name@,
            short_description: spec_opt_str(self.short_description),
            description: spec_opt_str(self.description),
            args: self.args@.map_values(|a: Arg| a@),
        }
    }
}

impl View for Enum {
    type V = EnumView;

    open spec fn view(&self) -> EnumView {
        EnumView {
            name: self.name@,
            short_description: spec_opt_str(self.short_description),
            description: spec_opt_str(self.description),
            variants: self.variants@.map_values(|v: EnumVariant| v@),
        }
    }
}

impl View for EnumVariant {
    type V = EnumVariantView;

    open spec fn view(&self) -> EnumVariantView {
        EnumVariantView {
            name: self.name@,
            value: self.value,
            short_description: spec_opt_str(self.short_description),
        }
    }
}

impl View for Arg {
    type V = ArgView;

    open spec fn view(&self) -> ArgView {
        ArgView {
            name: self.name@,
            arg_type: self.arg_type,
            interface: spec_opt_str(self.interface),
            short_description: spec_opt_str(self.short_description),
        }
    }
}

/// The closed set of argument wire types.
#[derive(Clone, Copy, Debug, Eq, Hash, PartialEq, Structural)]
pub enum ArgType {
    /// An unsigned 32-bit scalar.
    Uint,
    /// A signed 32-bit scalar.
    Int,
    /// A signed 24.8 fixed-point scalar.
    Fixed,
    /// A NUL-terminated, padded string.
    String,
    /// A reference to an existing object, possibly null.
    ObjectId,
    /// An object about to be created.
    NewId,
    /// A length-prefixed, padded byte array.
    Array,
    /// An out-of-band resource handle.
    FileDescriptor,
}

/// The wire type a schema type name denotes, if it is in the closed set.
pub open spec fn spec_arg_type_of(s: Seq<char>) -> Option<ArgType> {
    if s == "uint"@ {
        Some(ArgType::Uint)
    } else if s == "int"@ {
        Some(ArgType::Int)
    } else if s == "fixed"@ {
        Some(ArgType::Fixed)
    } else if s == "string"@ {
        Some(ArgType::String)
    } else if s == "object"@ {
        Some(ArgType::ObjectId)
    } else if s == "new_id"@ {
        Some(ArgType::NewId)
    } else if s == "array"@ {
        Some(ArgType::Array)
    } else if s == "fd"@ {
        Some(ArgType::FileDescriptor)
    } else {
        None
    }
}

impl ArgType {
    /// Maps a schema type name to its wire type; names outside the closed
    /// set are refused.
    pub fn try_from_str(s: &str) -> (r: Option<Self>)
        ensures
            r == spec_arg_type_of(s@),
    {
        if crate::document::str_equal(s, "uint") {
            Some(Self::Uint)
        } else if crate::document::str_equal(s, "int") {
            Some(Self::Int)
        } else if crate::document::str_equal(s, "fixed") {
            Some(Self::Fixed)
        } else if crate::document::str_equal(s, "string") {
            Some(Self::String)
        } else if crate::document::str_equal(s, "object") {
            Some(Self::ObjectId)
        } else if crate::document::str_equal(s, "new_id") {
            Some(Self::NewId)
        } else if crate::document::str_equal(s, "array") {
            Some(Self::Array)
        } else if crate::document::str_equal(s, "fd") {
            Some(Self::FileDescriptor)
        } else {
            None
        }
    }
}

} // verus!
