//! Client-side implementation of a binary, object-oriented wire protocol
//! spoken with a display server over a local stream socket, together with an
//! offline compiler that turns a protocol schema into per-interface request
//! senders and event-handler contracts.

pub mod clipboard;
pub mod connection;
pub mod document;
pub mod error;
pub mod fixed;
pub mod iter_ext;
pub mod model;
pub mod notifier;
pub mod output;
pub mod packet;
pub mod parser;
pub mod secrets;
pub mod totp;

use vstd::prelude::*;

pub use crate::error::Error;
pub use crate::fixed::Fixed;
pub use crate::packet::Packet;

verus! {

/// Identifies one object on one connection.
///
/// Object ids are non-zero; id 1 is the well-known root (display) object.
#[derive(Clone, Copy, Debug, Eq, Hash, PartialEq, Structural)]
pub struct ObjectId(pub u32);

impl ObjectId {
    /// The id of the well-known root object.
    pub fn display() -> (r: ObjectId)
        ensures
            r.0 == 1,
    {
        ObjectId(1)
    }

    /// Wraps a raw id, refusing the reserved value zero.
    pub fn new(object_id: u32) -> (r: Option<Self>)
        ensures
            object_id == 0 <==> r is None,
            object_id != 0 ==> r == Some(ObjectId(object_id)),
    {
        if object_id == 0 {
            None
        } else {
            Some(ObjectId(object_id))
        }
    }
}

/// Marks an argument that designates an object about to be created, whose
/// interface the schema already fixes.
#[derive(Clone, Copy, Debug, Eq, Hash, PartialEq, Structural)]
pub struct NewObjectId(pub ObjectId);

/// An object about to be created whose interface is not statically known:
/// the id travels with the interface name and version.
#[derive(Clone, Debug, Eq, Hash, PartialEq)]
pub struct NewObject {
    /// The id the new object will use.
    pub object_id: ObjectId,
    /// The name of the interface the new object speaks.
    pub interface: String,
    /// The interface version the new object was bound at.
    pub interface_version: u32,
}

} // verus!
