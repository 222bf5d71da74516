//! Plain state carried by the clipboard client built on the runtime: the
//! object ids it tracks, the messages its tasks exchange, and the registry
//! bind request it sends for each announced global.

use vstd::prelude::*;
use vstd::utf8::encode_utf8;

use crate::{NewObject, ObjectId};
use crate::packet::{spec_enc_strfield, spec_enc_uint, Packet, PacketView};

verus! {

/// A message to the task owning the clipboard state.
#[derive(Clone, Debug, Eq, Hash, PartialEq)]
pub enum ClipboardMessage {
    /// Publish this text on the clipboard.
    Copy(String),
    /// Withdraw whatever is on the clipboard.
    Clear,
    /// Shut the client down.
    Exit,
}

/// The object ids a clipboard client tracks over one connection.
#[derive(Clone, Debug, Default, Eq, Hash, PartialEq)]
pub struct WaylandData {
    /// The registry object, once bound.
    pub registry_id: Option<ObjectId>,
    /// The seat, once announced and bound.
    pub seat_id: Option<ObjectId>,
    /// The data-control manager, once announced and bound.
    pub clipboard_manager_id: Option<ObjectId>,
    /// The data-control device, once requested.
    pub clipboard_device_id: Option<ObjectId>,
    /// The text currently published, if any.
    pub clipboard_data: Option<String>,
    /// The data source currently offered, if any.
    pub clipboard_source_id: Option<ObjectId>,
    /// The incoming offer object, if any.
    pub incoming_offer_id: Option<ObjectId>,
}

impl WaylandData {
    /// A fresh state: nothing bound, nothing published.
    pub fn new() -> (r: Self)
        ensures
            r.registry_id is None,
            r.seat_id is None,
            r.clipboard_manager_id is None,
            r.clipboard_device_id is None,
            r.clipboard_data is None,
            r.clipboard_source_id is None,
            r.incoming_offer_id is None,
    {
        Self {
            registry_id: None,
            seat_id: None,
            clipboard_manager_id: None,
            clipboard_device_id: None,
            clipboard_data: None,
            clipboard_source_id: None,
            incoming_offer_id: None,
        }
    }
}

/// One global the registry announced: its current numeric name on the
/// server, and the interface it speaks.
#[derive(Clone, Debug, Eq, Hash, PartialEq)]
pub struct InterfaceDef {
    /// The object id under which the global is announced.
    pub obj_id: ObjectId,
    /// The interface's name.
    pub name: String,
    /// The interface's version.
    pub version: u32,
}

impl InterfaceDef {
    /// Bundles one announced global.
    pub fn new(obj_id: ObjectId, name: String, version: u32) -> (r: Self)
        ensures
            r.obj_id == obj_id,
            r.name == name,
            r.version == version,
    {
        Self { obj_id, name, version }
    }
}

/// The object ids the alternate, handler-based clipboard client tracks.
#[derive(Clone, Copy, Debug, Default, Eq, Hash, PartialEq, Structural)]
pub struct ClipboardObjectIds {
    /// The seat, once bound.
    pub seat_id: Option<ObjectId>,
    /// The data-control manager, once bound.
    pub manager_id: Option<ObjectId>,
    /// The data-control device, once requested.
    pub device_id: Option<ObjectId>,
    /// The data source currently offered, if any.
    pub control_source_id: Option<ObjectId>,
}

impl ClipboardObjectIds {
    /// A fresh state: nothing bound.
    pub fn new() -> (r: Self)
        ensures
            r.seat_id is None,
            r.manager_id is None,
            r.device_id is None,
            r.control_source_id is None,
    {
        Self { seat_id: None, manager_id: None, device_id: None, control_source_id: None }
    }
}

/// The decoded arguments of the registry's announcement event: a numeric
/// name, the interface, and its version.
#[derive(Clone, Debug, Eq, Hash, PartialEq)]
pub struct GlobalEventArgs {
    /// The numeric name under which the global is announced.
    pub name: u32,
    /// The interface the global speaks.
    pub interface: String,
    /// The interface version the server offers.
    pub version: u32,
}

/// The opcode of the registry's bind request.
pub const REGISTRY_BIND_OPCODE: u16 = 0;

/// Builds the bind request that answers one announced global: the global's
/// numeric name, then the new object with its interface name and version.
pub fn global_event_args_to_bind_request_packet(
    global_args: &GlobalEventArgs,
    new_object_id: ObjectId,
    registry_id: ObjectId,
) -> (r: Packet)
    requires
        forall|i: int|
            0 <= i < encode_utf8(global_args.interface@).len() ==> encode_utf8(
                global_args.interface@,
            )[i] != 0,
        encode_utf8(global_args.interface@).len() + 1 <= u32::MAX,
    ensures
        r@ == (PacketView {
            object_id: registry_id.0,
            opcode: REGISTRY_BIND_OPCODE,
            payload: spec_enc_uint(global_args.name) + spec_enc_strfield(
                encode_utf8(global_args.interface@),
            ) + spec_enc_uint(global_args.version) + spec_enc_uint(new_object_id.0),
            fds: Seq::empty(),
        }),
{
    let mut packet = Packet::new(registry_id, REGISTRY_BIND_OPCODE);
    packet.push_uint(global_args.name);
    let new_obj = NewObject {
        object_id: new_object_id,
        interface: global_args.interface.clone(),
        interface_version: global_args.version,
    };
    packet.push_new_id_unknown_interface(&new_obj);
    proof {
        assert(packet@.payload =~= spec_enc_uint(global_args.name) + spec_enc_strfield(
            encode_utf8(global_args.interface@),
        ) + spec_enc_uint(global_args.version) + spec_enc_uint(new_object_id.0));
    }
    packet
}

} // verus!
