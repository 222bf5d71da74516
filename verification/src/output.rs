//! The binding compiler's back end: walks the schema model and emits, per
//! interface, a request-sender type, an event-handler contract with its
//! dispatch entry point, and the enums' numeric values.
//!
//! Compilation is pure and deterministic: identical model and mode flag
//! always produce byte-identical output, which the contracts below pin down
//! by equating the output with a function of the model alone.

use vstd::prelude::*;

use crate::model::{
    Arg, ArgType, ArgView, Enum, EnumVariant, EnumVariantView, EnumView, Interface, InterfaceView,
    Procedure, ProcedureView, Protocol, ProtocolView,
};

verus! {

/// One decimal digit as text.
pub open spec fn spec_digit_str(d: int) -> Seq<char> {
    if d == 0 {
        "0"@
    } else if d == 1 {
        "1"@
    } else if d == 2 {
        "2"@
    } else if d == 3 {
        "3"@
    } else if d == 4 {
        "4"@
    } else if d == 5 {
        "5"@
    } else if d == 6 {
        "6"@
    } else if d == 7 {
        "7"@
    } else if d == 8 {
        "8"@
    } else {
        "9"@
    }
}

/// A number in decimal, most significant digit first.
pub open spec fn spec_u32_decimal(n: int) -> Seq<char>
    decreases n,
{
    if n < 10 {
        spec_digit_str(n)
    } else {
        spec_u32_decimal(n / 10) + spec_digit_str(n % 10)
    }
}

/// Appends one decimal digit to `out`.
fn emit_digit(d: u32, out: &mut String)
    requires
        d < 10,
    ensures
        final(out)@ == old(out)@ + spec_digit_str(d as int),
{
    if d == 0 {
        out.append("0");
    } else if d == 1 {
        out.append("1");
    } else if d == 2 {
        out.append("2");
    } else if d == 3 {
        out.append("3");
    } else if d == 4 {
        out.append("4");
    } else if d == 5 {
        out.append("5");
    } else if d == 6 {
        out.append("6");
    } else if d == 7 {
        out.append("7");
    } else if d == 8 {
        out.append("8");
    } else {
        out.append("9");
    }
}

/// Appends a number in decimal to `out`.
fn emit_u32_decimal(n: u32, out: &mut String)
    ensures
        final(out)@ == old(out)@ + spec_u32_decimal(n as int),
    decreases n,
{
    if n < 10 {
        emit_digit(n, out);
    } else {
        emit_u32_decimal(n / 10, out);
        emit_digit(n % 10, out);
    }
}


/// The keyword prefix the mode flag selects for generated methods.
pub open spec fn spec_async_kw(asynchronous: bool) -> Seq<char> {
    if asynchronous {
        "async "@
    } else {
        Seq::empty()
    }
}

/// The suffix the mode flag selects for generated calls.
pub open spec fn spec_await_sfx(asynchronous: bool) -> Seq<char> {
    if asynchronous {
        ".await"@
    } else {
        Seq::empty()
    }
}

/// The field type one argument gets in its args struct.
pub open spec fn spec_arg_rust_type(a: ArgView) -> Seq<char> {
    match a.arg_type {
        ArgType::Uint => "u32"@,
        ArgType::Int => "i32"@,
        ArgType::Fixed => "Fixed"@,
        ArgType::String => "String"@,
        ArgType::ObjectId => "Option<ObjectId>"@,
        ArgType::NewId => if a.interface is Some {
            "NewObjectId"@
        } else {
            "NewObject"@
        },
        ArgType::Array => "Vec<u8>"@,
        ArgType::FileDescriptor => "i32"@,
    }
}

/// The per-interface name prefix: the interface's name and version.
pub open spec fn spec_iface_prefix(i: InterfaceView) -> Seq<char> {
    i.name + "_v"@ + spec_u32_decimal(i.version as int)
}

/// One args-struct field declaration.
pub open spec fn spec_field_line(a: ArgView) -> Seq<char> {
    "    pub "@ + a.name + ": "@ + spec_arg_rust_type(a) + ",\n"@
}

/// All field declarations, in wire order.
pub open spec fn spec_fields(args: Seq<ArgView>) -> Seq<char>
    decreases args.len(),
{
    if args.len() == 0 {
        Seq::empty()
    } else {
        spec_fields(args.drop_last()) + spec_field_line(args.last())
    }
}

/// One method parameter.
pub open spec fn spec_param(a: ArgView) -> Seq<char> {
    ", "@ + a.name + ": "@ + spec_arg_rust_type(a)
}

/// All method parameters, in wire order.
pub open spec fn spec_params(args: Seq<ArgView>) -> Seq<char>
    decreases args.len(),
{
    if args.len() == 0 {
        Seq::empty()
    } else {
        spec_params(args.drop_last()) + spec_param(args.last())
    }
}

/// One struct-literal field initializer.
pub open spec fn spec_init(a: ArgView) -> Seq<char> {
    a.name + ", "@
}

/// All struct-literal field initializers.
pub open spec fn spec_inits(args: Seq<ArgView>) -> Seq<char>
    decreases args.len(),
{
    if args.len() == 0 {
        Seq::empty()
    } else {
        spec_inits(args.drop_last()) + spec_init(args.last())
    }
}

/// The encode statement one argument compiles to.
pub open spec fn spec_push_line(a: ArgView) -> Seq<char> {
    match a.arg_type {
        ArgType::Uint => "        packet.push_uint(self."@ + a.name + ");\n"@,
        ArgType::Int => "        packet.push_int(self."@ + a.name + ");\n"@,
        ArgType::Fixed => "        packet.push_fixed(self."@ + a.name + ");\n"@,
        ArgType::String => "        packet.push_str(self."@ + a.name + ".as_str());\n"@,
        ArgType::ObjectId => "        packet.push_object(self."@ + a.name + ");\n"@,
        ArgType::NewId => if a.interface is Some {
            "        packet.push_new_id_known_interface(self."@ + a.name + ");\n"@
        } else {
            "        packet.push_new_id_unknown_interface(&self."@ + a.name + ");\n"@
        },
        ArgType::Array => "        packet.push_array(self."@ + a.name + ".as_slice());\n"@,
        ArgType::FileDescriptor => "        packet.push_fd(self."@ + a.name + ");\n"@,
    }
}

/// All encode statements, in wire order.
pub open spec fn spec_pushes(args: Seq<ArgView>) -> Seq<char>
    decreases args.len(),
{
    if args.len() == 0 {
        Seq::empty()
    } else {
        spec_pushes(args.drop_last()) + spec_push_line(args.last())
    }
}

/// The decode statement one argument compiles to.
pub open spec fn spec_read_line(a: ArgView) -> Seq<char> {
    match a.arg_type {
        ArgType::Uint => "        let "@ + a.name + " = reader.read_uint()?;\n"@,
        ArgType::Int => "        let "@ + a.name + " = reader.read_int()?;\n"@,
        ArgType::Fixed => "        let "@ + a.name + " = reader.read_fixed()?;\n"@,
        ArgType::String => "        let "@ + a.name + " = reader.read_str()?;\n"@,
        ArgType::ObjectId => "        let "@ + a.name + " = reader.read_object()?;\n"@,
        ArgType::NewId => if a.interface is Some {
            "        let "@ + a.name
                + " = match reader.read_object()? {\n            Some(oi) => NewObjectId(oi),\n            None => return Err(Error::ZeroObjectId),\n        };\n"@
        } else {
            "        let "@ + a.name + "_interface = reader.read_str()?;\n        let "@ + a.name
                + "_version = reader.read_uint()?;\n        let "@ + a.name
                + " = match reader.read_object()? {\n            Some(oi) => NewObject { object_id: oi, interface: "@
                + a.name + "_interface, interface_version: "@ + a.name
                + "_version },\n            None => return Err(Error::ZeroObjectId),\n        };\n"@
        },
        ArgType::Array => "        let "@ + a.name + " = reader.read_array()?;\n"@,
        ArgType::FileDescriptor => "        let "@ + a.name + " = reader.read_fd()?;\n"@,
    }
}

/// All decode statements, in wire order.
pub open spec fn spec_reads(args: Seq<ArgView>) -> Seq<char>
    decreases args.len(),
{
    if args.len() == 0 {
        Seq::empty()
    } else {
        spec_reads(args.drop_last()) + spec_read_line(args.last())
    }
}

/// One decoded-argument expression handed to a handler method.
pub open spec fn spec_handler_arg(a: ArgView) -> Seq<char> {
    ", args."@ + a.name
}

/// All decoded-argument expressions, in wire order.
pub open spec fn spec_handler_args(args: Seq<ArgView>) -> Seq<char>
    decreases args.len(),
{
    if args.len() == 0 {
        Seq::empty()
    } else {
        spec_handler_args(args.drop_last()) + spec_handler_arg(args.last())
    }
}

/// One enum variant's constant.
pub open spec fn spec_variant_const(prefix: Seq<char>, enum_name: Seq<char>, v: EnumVariantView)
    -> Seq<char> {
    "pub const "@ + prefix + "_"@ + enum_name + "_"@ + v.name + ": u32 = "@ + spec_u32_decimal(
        v.value as int,
    ) + ";\n"@
}

/// All of one enum's constants.
pub open spec fn spec_variant_consts(
    prefix: Seq<char>,
    enum_name: Seq<char>,
    vs: Seq<EnumVariantView>,
) -> Seq<char>
    decreases vs.len(),
{
    if vs.len() == 0 {
        Seq::empty()
    } else {
        spec_variant_consts(prefix, enum_name, vs.drop_last()) + spec_variant_const(
            prefix,
            enum_name,
            vs.last(),
        )
    }
}

/// One enum compiled to constants, with a trailing blank line.
pub open spec fn spec_enum_code(prefix: Seq<char>, en: EnumView) -> Seq<char> {
    spec_variant_consts(prefix, en.name, en.variants) + "\n"@
}

/// All of one interface's enums.
pub open spec fn spec_enums_code(prefix: Seq<char>, enums: Seq<EnumView>) -> Seq<char>
    decreases enums.len(),
{
    if enums.len() == 0 {
        Seq::empty()
    } else {
        spec_enums_code(prefix, enums.drop_last()) + spec_enum_code(prefix, enums.last())
    }
}

/// One request compiled to its args struct and packet builder.
pub open spec fn spec_request_block(prefix: Seq<char>, opcode: int, r: ProcedureView) -> Seq<
    char,
> {
    "pub struct "@ + prefix + "_request_"@ + r.name + "_args {\n"@ + spec_fields(r.args)
        + "}\nimpl "@ + prefix + "_request_"@ + r.name
        + "_args {\n    pub const OPCODE: u16 = "@ + spec_u32_decimal(opcode)
        + ";\n    pub fn try_into_packet(self, target: ObjectId) -> Result<Packet, Error> {\n        let mut packet = Packet::new(target, "@
        + spec_u32_decimal(opcode) + ");\n"@ + spec_pushes(r.args)
        + "        Ok(packet)\n    }\n}\n\n"@
}

/// All requests, opcodes counted from zero in declaration order.
pub open spec fn spec_request_blocks(prefix: Seq<char>, rs: Seq<ProcedureView>) -> Seq<char>
    decreases rs.len(),
{
    if rs.len() == 0 {
        Seq::empty()
    } else {
        spec_request_blocks(prefix, rs.drop_last()) + spec_request_block(
            prefix,
            rs.len() - 1,
            rs.last(),
        )
    }
}

/// One event compiled to its args struct and packet decoder.
pub open spec fn spec_event_block(prefix: Seq<char>, opcode: int, e: ProcedureView) -> Seq<char> {
    "pub struct "@ + prefix + "_event_"@ + e.name + "_args {\n"@ + spec_fields(e.args)
        + "}\nimpl "@ + prefix + "_event_"@ + e.name + "_args {\n    pub const OPCODE: u16 = "@
        + spec_u32_decimal(opcode)
        + ";\n    pub fn try_from_packet(packet: &Packet) -> Result<Self, Error> {\n        let mut reader = packet.read();\n"@
        + spec_reads(e.args) + "        reader.finish()?;\n        Ok(Self { "@ + spec_inits(
        e.args,
    ) + "})\n    }\n}\n\n"@
}

/// All events, opcodes counted from zero in declaration order.
pub open spec fn spec_event_blocks(prefix: Seq<char>, es: Seq<ProcedureView>) -> Seq<char>
    decreases es.len(),
{
    if es.len() == 0 {
        Seq::empty()
    } else {
        spec_event_blocks(prefix, es.drop_last()) + spec_event_block(
            prefix,
            es.len() - 1,
            es.last(),
        )
    }
}

/// One request's send method on the proxy.
pub open spec fn spec_send_method(prefix: Seq<char>, r: ProcedureView, asynchronous: bool) -> Seq<
    char,
> {
    "    pub "@ + spec_async_kw(asynchronous) + "fn send_"@ + r.name
        + "(&self, target: ObjectId"@ + spec_params(r.args)
        + ") -> Result<(), Error> {\n        let args = "@ + prefix + "_request_"@ + r.name
        + "_args { "@ + spec_inits(r.args)
        + "};\n        let packet = args.try_into_packet(target)?;\n        self.connection.send_packet(&packet)"@
        + spec_await_sfx(asynchronous) + "\n    }\n"@
}

/// All send methods, in declaration order.
pub open spec fn spec_send_methods(
    prefix: Seq<char>,
    rs: Seq<ProcedureView>,
    asynchronous: bool,
) -> Seq<char>
    decreases rs.len(),
{
    if rs.len() == 0 {
        Seq::empty()
    } else {
        spec_send_methods(prefix, rs.drop_last(), asynchronous) + spec_send_method(
            prefix,
            rs.last(),
            asynchronous,
        )
    }
}

/// The request-sender type bound to a connection.
pub open spec fn spec_proxy_code(
    prefix: Seq<char>,
    rs: Seq<ProcedureView>,
    asynchronous: bool,
) -> Seq<char> {
    "pub struct "@ + prefix
        + "_request_proxy<'a> {\n    connection: &'a Connection,\n}\nimpl<'a> "@ + prefix
        + "_request_proxy<'a> {\n    pub fn new(connection: &'a Connection) -> Self {\n        Self { connection }\n    }\n"@
        + spec_send_methods(prefix, rs, asynchronous) + "}\n\n"@
}

/// One event's method on the handler contract.
pub open spec fn spec_handler_method(e: ProcedureView, asynchronous: bool) -> Seq<char> {
    "    "@ + spec_async_kw(asynchronous) + "fn handle_"@ + e.name
        + "(&self, connection: &Connection, packet: &Packet"@ + spec_params(e.args) + ");\n"@
}

/// All handler methods, in declaration order.
pub open spec fn spec_handler_methods(es: Seq<ProcedureView>, asynchronous: bool) -> Seq<char>
    decreases es.len(),
{
    if es.len() == 0 {
        Seq::empty()
    } else {
        spec_handler_methods(es.drop_last(), asynchronous) + spec_handler_method(
            es.last(),
            asynchronous,
        )
    }
}

/// The event-handler contract: one method per event.
pub open spec fn spec_trait_code(
    prefix: Seq<char>,
    es: Seq<ProcedureView>,
    asynchronous: bool,
) -> Seq<char> {
    "pub trait "@ + prefix + "_event_handler {\n"@ + spec_handler_methods(es, asynchronous)
        + "}\n"@
}

/// One dispatch arm: decode the event's arguments and call its method.
pub open spec fn spec_dispatch_arm(
    prefix: Seq<char>,
    opcode: int,
    e: ProcedureView,
    asynchronous: bool,
) -> Seq<char> {
    "        "@ + spec_u32_decimal(opcode) + " => {\n            let args = "@ + prefix
        + "_event_"@ + e.name
        + "_args::try_from_packet(&packet)?;\n            handler.handle_"@ + e.name
        + "(connection, &packet"@ + spec_handler_args(e.args) + ")"@ + spec_await_sfx(
        asynchronous,
    ) + ";\n            Ok(())\n        },\n"@
}

/// All dispatch arms, opcodes counted from zero.
pub open spec fn spec_dispatch_arms(
    prefix: Seq<char>,
    es: Seq<ProcedureView>,
    asynchronous: bool,
) -> Seq<char>
    decreases es.len(),
{
    if es.len() == 0 {
        Seq::empty()
    } else {
        spec_dispatch_arms(prefix, es.drop_last(), asynchronous) + spec_dispatch_arm(
            prefix,
            es.len() - 1,
            es.last(),
            asynchronous,
        )
    }
}

/// The dispatch entry point the connection runtime calls, keyed by opcode.
pub open spec fn spec_dispatch_code(
    prefix: Seq<char>,
    es: Seq<ProcedureView>,
    asynchronous: bool,
) -> Seq<char> {
    "pub "@ + spec_async_kw(asynchronous) + "fn "@ + prefix + "_dispatch_event<H: "@ + prefix
        + "_event_handler>(handler: &H, connection: &Connection, packet: Packet) -> Result<(), Error> {\n    match packet.opcode() {\n"@
        + spec_dispatch_arms(prefix, es, asynchronous)
        + "        _ => Err(Error::NoEventHandler { object_id: packet.object_id() }),\n    }\n}\n\n"@
}

/// One interface's whole compilation.
pub open spec fn spec_interface_code(i: InterfaceView, asynchronous: bool) -> Seq<char> {
    let prefix = spec_iface_prefix(i);
    spec_enums_code(prefix, i.enums) + spec_request_blocks(prefix, i.requests)
        + spec_event_blocks(prefix, i.events) + spec_proxy_code(prefix, i.requests, asynchronous)
        + spec_trait_code(prefix, i.events, asynchronous) + spec_dispatch_code(
        prefix,
        i.events,
        asynchronous,
    )
}

/// All interfaces, in declaration order.
pub open spec fn spec_interfaces_code(is: Seq<InterfaceView>, asynchronous: bool) -> Seq<char>
    decreases is.len(),
{
    if is.len() == 0 {
        Seq::empty()
    } else {
        spec_interfaces_code(is.drop_last(), asynchronous) + spec_interface_code(
            is.last(),
            asynchronous,
        )
    }
}

/// The fixed import block the compiled text starts with.
pub open spec fn spec_imports() -> Seq<char> {
    "use crate::{Connection, Error, Fixed, NewObject, NewObjectId, ObjectId, Packet};\n\n"@
}

/// A whole protocol's compilation.
pub open spec fn spec_protocol_code(p: ProtocolView, asynchronous: bool) -> Seq<char> {
    "// Bindings for protocol "@ + p.name + ".\n\n"@ + spec_imports() + spec_interfaces_code(
        p.interfaces,
        asynchronous,
    )
}


/// Appends the field type one argument gets.
fn emit_arg_rust_type(a: &Arg, out: &mut String)
    ensures
        final(out)@ == old(out)@ + spec_arg_rust_type(a@),
{
    match a.arg_type {
        ArgType::Uint => out.append("u32"),
        ArgType::Int => out.append("i32"),
        ArgType::Fixed => out.append("Fixed"),
        ArgType::String => out.append("String"),
        ArgType::ObjectId => out.append("Option<ObjectId>"),
        ArgType::NewId => {
            if a.interface.is_some() {
                out.append("NewObjectId");
            } else {
                out.append("NewObject");
            }
        },
        ArgType::Array => out.append("Vec<u8>"),
        ArgType::FileDescriptor => out.append("i32"),
    }
}

/// Appends one args-struct field declaration.
fn emit_field(a: &Arg, out: &mut String)
    ensures
        final(out)@ == old(out)@ + spec_field_line(a@),
{
    out.append("    pub ");
    out.append(a.name.as_str());
    out.append(": ");
    emit_arg_rust_type(a, out);
    out.append(",\n");
    proof {
        assert(final(out)@ =~= old(out)@ + spec_field_line(a@));
    }
}

/// Appends one method parameter.
fn emit_param(a: &Arg, out: &mut String)
    ensures
        final(out)@ == old(out)@ + spec_param(a@),
{
    out.append(", ");
    out.append(a.name.as_str());
    out.append(": ");
    emit_arg_rust_type(a, out);
    proof {
        assert(final(out)@ =~= old(out)@ + spec_param(a@));
    }
}

/// Appends one struct-literal field initializer.
fn emit_init(a: &Arg, out: &mut String)
    ensures
        final(out)@ == old(out)@ + spec_init(a@),
{
    out.append(a.name.as_str());
    out.append(", ");
    proof {
        assert(final(out)@ =~= old(out)@ + spec_init(a@));
    }
}

/// Appends the encode statement one argument compiles to.
fn emit_push_line(a: &Arg, out: &mut String)
    ensures
        final(out)@ == old(out)@ + spec_push_line(a@),
{
    match a.arg_type {
        ArgType::Uint => {
            out.append("        packet.push_uint(self.");
            out.append(a.name.as_str());
            out.append(");\n");
        },
        ArgType::Int => {
            out.append("        packet.push_int(self.");
            out.append(a.name.as_str());
            out.append(");\n");
        },
        ArgType::Fixed => {
            out.append("        packet.push_fixed(self.");
            out.append(a.name.as_str());
            out.append(");\n");
        },
        ArgType::String => {
            out.append("        packet.push_str(self.");
            out.append(a.name.as_str());
            out.append(".as_str());\n");
        },
        ArgType::ObjectId => {
            out.append("        packet.push_object(self.");
            out.append(a.name.as_str());
            out.append(");\n");
        },
        ArgType::NewId => {
            if a.interface.is_some() {
                out.append("        packet.push_new_id_known_interface(self.");
                out.append(a.name.as_str());
                out.append(");\n");
            } else {
                out.append("        packet.push_new_id_unknown_interface(&self.");
                out.append(a.name.as_str());
                out.append(");\n");
            }
        },
        ArgType::Array => {
            out.append("        packet.push_array(self.");
            out.append(a.name.as_str());
            out.append(".as_slice());\n");
        },
        ArgType::FileDescriptor => {
            out.append("        packet.push_fd(self.");
            out.append(a.name.as_str());
            out.append(");\n");
        },
    }
    proof {
        assert(final(out)@ =~= old(out)@ + spec_push_line(a@));
    }
}

/// Appends the decode statement one argument compiles to.
fn emit_read_line(a: &Arg, out: &mut String)
    ensures
        final(out)@ == old(out)@ + spec_read_line(a@),
{
    match a.arg_type {
        ArgType::Uint => {
            out.append("        let ");
            out.append(a.name.as_str());
            out.append(" = reader.read_uint()?;\n");
        },
        ArgType::Int => {
            out.append("        let ");
            out.append(a.name.as_str());
            out.append(" = reader.read_int()?;\n");
        },
        ArgType::Fixed => {
            out.append("        let ");
            out.append(a.name.as_str());
            out.append(" = reader.read_fixed()?;\n");
        },
        ArgType::String => {
            out.append("        let ");
            out.append(a.name.as_str());
            out.append(" = reader.read_str()?;\n");
        },
        ArgType::ObjectId => {
            out.append("        let ");
            out.append(a.name.as_str());
            out.append(" = reader.read_object()?;\n");
        },
        ArgType::NewId => {
            if a.interface.is_some() {
                out.append("        let ");
                out.append(a.name.as_str());
                out.append(
                    " = match reader.read_object()? {\n            Some(oi) => NewObjectId(oi),\n            None => return Err(Error::ZeroObjectId),\n        };\n",
                );
            } else {
                out.append("        let ");
                out.append(a.name.as_str());
                out.append("_interface = reader.read_str()?;\n        let ");
                out.append(a.name.as_str());
                out.append("_version = reader.read_uint()?;\n        let ");
                out.append(a.name.as_str());
                out.append(
                    " = match reader.read_object()? {\n            Some(oi) => NewObject { object_id: oi, interface: ",
                );
                out.append(a.name.as_str());
                out.append("_interface, interface_version: ");
                out.append(a.name.as_str());
                out.append(
                    "_version },\n            None => return Err(Error::ZeroObjectId),\n        };\n",
                );
            }
        },
        ArgType::Array => {
            out.append("        let ");
            out.append(a.name.as_str());
            out.append(" = reader.read_array()?;\n");
        },
        ArgType::FileDescriptor => {
            out.append("        let ");
            out.append(a.name.as_str());
            out.append(" = reader.read_fd()?;\n");
        },
    }
    proof {
        assert(final(out)@ =~= old(out)@ + spec_read_line(a@));
    }
}

/// Appends one decoded-argument expression.
fn emit_handler_arg(a: &Arg, out: &mut String)
    ensures
        final(out)@ == old(out)@ + spec_handler_arg(a@),
{
    out.append(", args.");
    out.append(a.name.as_str());
    proof {
        assert(final(out)@ =~= old(out)@ + spec_handler_arg(a@));
    }
}

/// Appends the field declaration for every argument.
fn emit_fields(args: &Vec<Arg>, out: &mut String)
    ensures
        final(out)@ == old(out)@ + spec_fields(args@.map_values(|a: Arg| a@)),
{
    let ghost vargs = args@.map_values(|a: Arg| a@);
    let ghost orig = out@;
    proof {
        assert(vargs.take(0) =~= Seq::<ArgView>::empty());
    }
    let mut i: usize = 0;
    while i < args.len()
        invariant
            0 <= i <= args@.len(),
            vargs == args@.map_values(|a: Arg| a@),
            out@ == orig + spec_fields(vargs.take(i as int)),
        decreases args@.len() - i,
    {
        proof {
            assert(vargs.take(i + 1).drop_last() =~= vargs.take(i as int));
            assert(vargs.take(i + 1).last() == vargs[i as int]);
            assert(vargs[i as int] == args@[i as int]@);
        }
        emit_field(&args[i], out);
        proof {
            assert(spec_fields(vargs.take(i + 1)) == spec_fields(vargs.take(i as int))
                + spec_field_line(vargs[i as int]));
            assert(out@ =~= orig + spec_fields(vargs.take(i + 1)));
        }
        i += 1;
    }
    proof {
        assert(vargs.take(vargs.len() as int) =~= vargs);
    }
}

/// Appends the method parameter for every argument.
fn emit_params(args: &Vec<Arg>, out: &mut String)
    ensures
        final(out)@ == old(out)@ + spec_params(args@.map_values(|a: Arg| a@)),
{
    let ghost vargs = args@.map_values(|a: Arg| a@);
    let ghost orig = out@;
    proof {
        assert(vargs.take(0) =~= Seq::<ArgView>::empty());
    }
    let mut i: usize = 0;
    while i < args.len()
        invariant
            0 <= i <= args@.len(),
            vargs == args@.map_values(|a: Arg| a@),
            out@ == orig + spec_params(vargs.take(i as int)),
        decreases args@.len() - i,
    {
        proof {
            assert(vargs.take(i + 1).drop_last() =~= vargs.take(i as int));
            assert(vargs.take(i + 1).last() == vargs[i as int]);
            assert(vargs[i as int] == args@[i as int]@);
        }
        emit_param(&args[i], out);
        proof {
            assert(spec_params(vargs.take(i + 1)) == spec_params(vargs.take(i as int))
                + spec_param(vargs[i as int]));
            assert(out@ =~= orig + spec_params(vargs.take(i + 1)));
        }
        i += 1;
    }
    proof {
        assert(vargs.take(vargs.len() as int) =~= vargs);
    }
}

/// Appends the struct-literal initializer for every argument.
fn emit_inits(args: &Vec<Arg>, out: &mut String)
    ensures
        final(out)@ == old(out)@ + spec_inits(args@.map_values(|a: Arg| a@)),
{
    let ghost vargs = args@.map_values(|a: Arg| a@);
    let ghost orig = out@;
    proof {
        assert(vargs.take(0) =~= Seq::<ArgView>::empty());
    }
    let mut i: usize = 0;
    while i < args.len()
        invariant
            0 <= i <= args@.len(),
            vargs == args@.map_values(|a: Arg| a@),
            out@ == orig + spec_inits(vargs.take(i as int)),
        decreases args@.len() - i,
    {
        proof {
            assert(vargs.take(i + 1).drop_last() =~= vargs.take(i as int));
            assert(vargs.take(i + 1).last() == vargs[i as int]);
            assert(vargs[i as int] == args@[i as int]@);
        }
        emit_init(&args[i], out);
        proof {
            assert(spec_inits(vargs.take(i + 1)) == spec_inits(vargs.take(i as int))
                + spec_init(vargs[i as int]));
            assert(out@ =~= orig + spec_inits(vargs.take(i + 1)));
        }
        i += 1;
    }
    proof {
        assert(vargs.take(vargs.len() as int) =~= vargs);
    }
}

/// Appends the encode statement for every argument.
fn emit_pushes(args: &Vec<Arg>, out: &mut String)
    ensures
        final(out)@ == old(out)@ + spec_pushes(args@.map_values(|a: Arg| a@)),
{
    let ghost vargs = args@.map_values(|a: Arg| a@);
    let ghost orig = out@;
    proof {
        assert(vargs.take(0) =~= Seq::<ArgView>::empty());
    }
    let mut i: usize = 0;
    while i < args.len()
        invariant
            0 <= i <= args@.len(),
            vargs == args@.map_values(|a: Arg| a@),
            out@ == orig + spec_pushes(vargs.take(i as int)),
        decreases args@.len() - i,
    {
        proof {
            assert(vargs.take(i + 1).drop_last() =~= vargs.take(i as int));
            assert(vargs.take(i + 1).last() == vargs[i as int]);
            assert(vargs[i as int] == args@[i as int]@);
        }
        emit_push_line(&args[i], out);
        proof {
            assert(spec_pushes(vargs.take(i + 1)) == spec_pushes(vargs.take(i as int))
                + spec_push_line(vargs[i as int]));
            assert(out@ =~= orig + spec_pushes(vargs.take(i + 1)));
        }
        i += 1;
    }
    proof {
        assert(vargs.take(vargs.len() as int) =~= vargs);
    }
}

/// Appends the decode statement for every argument.
fn emit_reads(args: &Vec<Arg>, out: &mut String)
    ensures
        final(out)@ == old(out)@ + spec_reads(args@.map_values(|a: Arg| a@)),
{
    let ghost vargs = args@.map_values(|a: Arg| a@);
    let ghost orig = out@;
    proof {
        assert(vargs.take(0) =~= Seq::<ArgView>::empty());
    }
    let mut i: usize = 0;
    while i < args.len()
        invariant
            0 <= i <= args@.len(),
            vargs == args@.map_values(|a: Arg| a@),
            out@ == orig + spec_reads(vargs.take(i as int)),
        decreases args@.len() - i,
    {
        proof {
            assert(vargs.take(i + 1).drop_last() =~= vargs.take(i as int));
            assert(vargs.take(i + 1).last() == vargs[i as int]);
            assert(vargs[i as int] == args@[i as int]@);
        }
        emit_read_line(&args[i], out);
        proof {
            assert(spec_reads(vargs.take(i + 1)) == spec_reads(vargs.take(i as int))
                + spec_read_line(vargs[i as int]));
            assert(out@ =~= orig + spec_reads(vargs.take(i + 1)));
        }
        i += 1;
    }
    proof {
        assert(vargs.take(vargs.len() as int) =~= vargs);
    }
}

/// Appends the decoded-argument expression for every argument.
fn emit_handler_args(args: &Vec<Arg>, out: &mut String)
    ensures
        final(out)@ == old(out)@ + spec_handler_args(args@.map_values(|a: Arg| a@)),
{
    let ghost vargs = args@.map_values(|a: Arg| a@);
    let ghost orig = out@;
    proof {
        assert(vargs.take(0) =~= Seq::<ArgView>::empty());
    }
    let mut i: usize = 0;
    while i < args.len()
        invariant
            0 <= i <= args@.len(),
            vargs == args@.map_values(|a: Arg| a@),
            out@ == orig + spec_handler_args(vargs.take(i as int)),
        decreases args@.len() - i,
    {
        proof {
            assert(vargs.take(i + 1).drop_last() =~= vargs.take(i as int));
            assert(vargs.take(i + 1).last() == vargs[i as int]);
            assert(vargs[i as int] == args@[i as int]@);
        }
        emit_handler_arg(&args[i], out);
        proof {
            assert(spec_handler_args(vargs.take(i + 1)) == spec_handler_args(vargs.take(i as int))
                + spec_handler_arg(vargs[i as int]));
            assert(out@ =~= orig + spec_handler_args(vargs.take(i + 1)));
        }
        i += 1;
    }
    proof {
        assert(vargs.take(vargs.len() as int) =~= vargs);
    }
}

/// Appends a nonnegative machine integer in decimal.
fn emit_usize_decimal(n: usize, out: &mut String)
    ensures
        final(out)@ == old(out)@ + spec_u32_decimal(n as int),
    decreases n,
{
    if n < 10 {
        emit_digit(n as u32, out);
    } else {
        emit_usize_decimal(n / 10, out);
        emit_digit((n % 10) as u32, out);
    }
}

/// Appends one enum variant's constant.
fn emit_variant_const(prefix: &str, enum_name: &str, v: &EnumVariant, out: &mut String)
    ensures
        final(out)@ == old(out)@ + spec_variant_const(prefix@, enum_name@, v@),
{
    out.append("pub const ");
    out.append(prefix);
    out.append("_");
    out.append(enum_name);
    out.append("_");
    out.append(v.name.as_str());
    out.append(": u32 = ");
    emit_u32_decimal(v.value, out);
    out.append(";\n");
    proof {
        assert(final(out)@ =~= old(out)@ + spec_variant_const(prefix@, enum_name@, v@));
    }
}

/// Appends one enum's constants and a blank line.
fn emit_enum_code(prefix: &str, en: &Enum, out: &mut String)
    ensures
        final(out)@ == old(out)@ + spec_enum_code(prefix@, en@),
{
    let ghost vvs = en.variants@.map_values(|v: EnumVariant| v@);
    let ghost orig = out@;
    proof {
        assert(vvs.take(0) =~= Seq::<EnumVariantView>::empty());
    }
    let mut i: usize = 0;
    while i < en.variants.len()
        invariant
            0 <= i <= en.variants@.len(),
            vvs == en.variants@.map_values(|v: EnumVariant| v@),
            out@ == orig + spec_variant_consts(prefix@, en.name@, vvs.take(i as int)),
        decreases en.variants@.len() - i,
    {
        proof {
            assert(vvs.take(i + 1).drop_last() =~= vvs.take(i as int));
            assert(vvs.take(i + 1).last() == vvs[i as int]);
            assert(vvs[i as int] == en.variants@[i as int]@);
        }
        emit_variant_const(prefix, en.name.as_str(), &en.variants[i], out);
        proof {
            assert(spec_variant_consts(prefix@, en.name@, vvs.take(i + 1)) == spec_variant_consts(
                prefix@,
                en.name@,
                vvs.take(i as int),
            ) + spec_variant_const(prefix@, en.name@, vvs[i as int]));
            assert(out@ =~= orig + spec_variant_consts(prefix@, en.name@, vvs.take(i + 1)));
        }
        i += 1;
    }
    proof {
        assert(vvs.take(vvs.len() as int) =~= vvs);
    }
    out.append("\n");
    proof {
        assert(final(out)@ =~= old(out)@ + spec_enum_code(prefix@, en@));
    }
}

/// Appends one request's args struct and packet builder.
fn emit_request_block(prefix: &str, opcode: usize, r: &Procedure, out: &mut String)
    ensures
        final(out)@ == old(out)@ + spec_request_block(prefix@, opcode as int, r@),
{
    out.append("pub struct ");
    out.append(prefix);
    out.append("_request_");
    out.append(r.name.as_str());
    out.append("_args {\n");
    emit_fields(&r.args, out);
    out.append("}\nimpl ");
    out.append(prefix);
    out.append("_request_");
    out.append(r.name.as_str());
    out.append("_args {\n    pub const OPCODE: u16 = ");
    emit_usize_decimal(opcode, out);
    out.append(
        ";\n    pub fn try_into_packet(self, target: ObjectId) -> Result<Packet, Error> {\n        let mut packet = Packet::new(target, ",
    );
    emit_usize_decimal(opcode, out);
    out.append(");\n");
    emit_pushes(&r.args, out);
    out.append("        Ok(packet)\n    }\n}\n\n");
    proof {
        assert(final(out)@ =~= old(out)@ + spec_request_block(prefix@, opcode as int, r@));
    }
}

/// Appends one event's args struct and packet decoder.
fn emit_event_block(prefix: &str, opcode: usize, e: &Procedure, out: &mut String)
    ensures
        final(out)@ == old(out)@ + spec_event_block(prefix@, opcode as int, e@),
{
    out.append("pub struct ");
    out.append(prefix);
    out.append("_event_");
    out.append(e.name.as_str());
    out.append("_args {\n");
    emit_fields(&e.args, out);
    out.append("}\nimpl ");
    out.append(prefix);
    out.append("_event_");
    out.append(e.name.as_str());
    out.append("_args {\n    pub const OPCODE: u16 = ");
    emit_usize_decimal(opcode, out);
    out.append(
        ";\n    pub fn try_from_packet(packet: &Packet) -> Result<Self, Error> {\n        let mut reader = packet.read();\n",
    );
    emit_reads(&e.args, out);
    out.append("        reader.finish()?;\n        Ok(Self { ");
    emit_inits(&e.args, out);
    out.append("})\n    }\n}\n\n");
    proof {
        assert(final(out)@ =~= old(out)@ + spec_event_block(prefix@, opcode as int, e@));
    }
}

/// Appends one request's send method.
fn emit_send_method(prefix: &str, r: &Procedure, asynchronous: bool, out: &mut String)
    ensures
        final(out)@ == old(out)@ + spec_send_method(prefix@, r@, asynchronous),
{
    out.append("    pub ");
    if asynchronous {
        out.append("async ");
    }
    out.append("fn send_");
    out.append(r.name.as_str());
    out.append("(&self, target: ObjectId");
    emit_params(&r.args, out);
    out.append(") -> Result<(), Error> {\n        let args = ");
    out.append(prefix);
    out.append("_request_");
    out.append(r.name.as_str());
    out.append("_args { ");
    emit_inits(&r.args, out);
    out.append(
        "};\n        let packet = args.try_into_packet(target)?;\n        self.connection.send_packet(&packet)",
    );
    if asynchronous {
        out.append(".await");
    }
    out.append("\n    }\n");
    proof {
        assert(final(out)@ =~= old(out)@ + spec_send_method(prefix@, r@, asynchronous));
    }
}

/// Appends the request-sender type and its methods.
fn emit_proxy_code(prefix: &str, rs: &Vec<Procedure>, asynchronous: bool, out: &mut String)
    ensures
        final(out)@ == old(out)@ + spec_proxy_code(
            prefix@,
            rs@.map_values(|p: Procedure| p@),
            asynchronous,
        ),
{
    let ghost vrs = rs@.map_values(|p: Procedure| p@);
    out.append("pub struct ");
    out.append(prefix);
    out.append("_request_proxy<'a> {\n    connection: &'a Connection,\n}\nimpl<'a> ");
    out.append(prefix);
    out.append(
        "_request_proxy<'a> {\n    pub fn new(connection: &'a Connection) -> Self {\n        Self { connection }\n    }\n",
    );
    let ghost orig = out@;
    proof {
        assert(vrs.take(0) =~= Seq::<ProcedureView>::empty());
    }
    let mut i: usize = 0;
    while i < rs.len()
        invariant
            0 <= i <= rs@.len(),
            vrs == rs@.map_values(|p: Procedure| p@),
            out@ == orig + spec_send_methods(prefix@, vrs.take(i as int), asynchronous),
        decreases rs@.len() - i,
    {
        proof {
            assert(vrs.take(i + 1).drop_last() =~= vrs.take(i as int));
            assert(vrs.take(i + 1).last() == vrs[i as int]);
            assert(vrs[i as int] == rs@[i as int]@);
        }
        emit_send_method(prefix, &rs[i], asynchronous, out);
        proof {
            assert(spec_send_methods(prefix@, vrs.take(i + 1), asynchronous) == spec_send_methods(
                prefix@,
                vrs.take(i as int),
                asynchronous,
            ) + spec_send_method(prefix@, vrs[i as int], asynchronous));
            assert(out@ =~= orig + spec_send_methods(prefix@, vrs.take(i + 1), asynchronous));
        }
        i += 1;
    }
    proof {
        assert(vrs.take(vrs.len() as int) =~= vrs);
    }
    out.append("}\n\n");
    proof {
        assert(final(out)@ =~= old(out)@ + spec_proxy_code(prefix@, vrs, asynchronous));
    }
}

/// Appends one event's handler-contract method.
fn emit_handler_method(e: &Procedure, asynchronous: bool, out: &mut String)
    ensures
        final(out)@ == old(out)@ + spec_handler_method(e@, asynchronous),
{
    out.append("    ");
    if asynchronous {
        out.append("async ");
    }
    out.append("fn handle_");
    out.append(e.name.as_str());
    out.append("(&self, connection: &Connection, packet: &Packet");
    emit_params(&e.args, out);
    out.append(");\n");
    proof {
        assert(final(out)@ =~= old(out)@ + spec_handler_method(e@, asynchronous));
    }
}

/// Appends the event-handler contract.
fn emit_trait_code(prefix: &str, es: &Vec<Procedure>, asynchronous: bool, out: &mut String)
    ensures
        final(out)@ == old(out)@ + spec_trait_code(
            prefix@,
            es@.map_values(|p: Procedure| p@),
            asynchronous,
        ),
{
    let ghost ves = es@.map_values(|p: Procedure| p@);
    out.append("pub trait ");
    out.append(prefix);
    out.append("_event_handler {\n");
    let ghost orig = out@;
    proof {
        assert(ves.take(0) =~= Seq::<ProcedureView>::empty());
    }
    let mut i: usize = 0;
    while i < es.len()
        invariant
            0 <= i <= es@.len(),
            ves == es@.map_values(|p: Procedure| p@),
            out@ == orig + spec_handler_methods(ves.take(i as int), asynchronous),
        decreases es@.len() - i,
    {
        proof {
            assert(ves.take(i + 1).drop_last() =~= ves.take(i as int));
            assert(ves.take(i + 1).last() == ves[i as int]);
            assert(ves[i as int] == es@[i as int]@);
        }
        emit_handler_method(&es[i], asynchronous, out);
        proof {
            assert(spec_handler_methods(ves.take(i + 1), asynchronous) == spec_handler_methods(
                ves.take(i as int),
                asynchronous,
            ) + spec_handler_method(ves[i as int], asynchronous));
            assert(out@ =~= orig + spec_handler_methods(ves.take(i + 1), asynchronous));
        }
        i += 1;
    }
    proof {
        assert(ves.take(ves.len() as int) =~= ves);
    }
    out.append("}\n");
    proof {
        assert(final(out)@ =~= old(out)@ + spec_trait_code(prefix@, ves, asynchronous));
    }
}

/// Appends one dispatch arm.
fn emit_dispatch_arm(
    prefix: &str,
    opcode: usize,
    e: &Procedure,
    asynchronous: bool,
    out: &mut String,
)
    ensures
        final(out)@ == old(out)@ + spec_dispatch_arm(prefix@, opcode as int, e@, asynchronous),
{
    out.append("        ");
    emit_usize_decimal(opcode, out);
    out.append(" => {\n            let args = ");
    out.append(prefix);
    out.append("_event_");
    out.append(e.name.as_str());
    out.append("_args::try_from_packet(&packet)?;\n            handler.handle_");
    out.append(e.name.as_str());
    out.append("(connection, &packet");
    emit_handler_args(&e.args, out);
    out.append(")");
    if asynchronous {
        out.append(".await");
    }
    out.append(";\n            Ok(())\n        },\n");
    proof {
        assert(final(out)@ =~= old(out)@ + spec_dispatch_arm(
            prefix@,
            opcode as int,
            e@,
            asynchronous,
        ));
    }
}

/// Appends the dispatch entry point.
fn emit_dispatch_code(prefix: &str, es: &Vec<Procedure>, asynchronous: bool, out: &mut String)
    ensures
        final(out)@ == old(out)@ + spec_dispatch_code(
            prefix@,
            es@.map_values(|p: Procedure| p@),
            asynchronous,
        ),
{
    let ghost ves = es@.map_values(|p: Procedure| p@);
    out.append("pub ");
    if asynchronous {
        out.append("async ");
    }
    out.append("fn ");
    out.append(prefix);
    out.append("_dispatch_event<H: ");
    out.append(prefix);
    out.append(
        "_event_handler>(handler: &H, connection: &Connection, packet: Packet) -> Result<(), Error> {\n    match packet.opcode() {\n",
    );
    let ghost orig = out@;
    proof {
        assert(ves.take(0) =~= Seq::<ProcedureView>::empty());
    }
    let mut i: usize = 0;
    while i < es.len()
        invariant
            0 <= i <= es@.len(),
            ves == es@.map_values(|p: Procedure| p@),
            out@ == orig + spec_dispatch_arms(prefix@, ves.take(i as int), asynchronous),
        decreases es@.len() - i,
    {
        proof {
            assert(ves.take(i + 1).drop_last() =~= ves.take(i as int));
            assert(ves.take(i + 1).last() == ves[i as int]);
            assert(ves[i as int] == es@[i as int]@);
        }
        emit_dispatch_arm(prefix, i, &es[i], asynchronous, out);
        proof {
            assert(spec_dispatch_arms(prefix@, ves.take(i + 1), asynchronous)
                == spec_dispatch_arms(prefix@, ves.take(i as int), asynchronous)
                + spec_dispatch_arm(prefix@, i as int, ves[i as int], asynchronous));
            assert(out@ =~= orig + spec_dispatch_arms(prefix@, ves.take(i + 1), asynchronous));
        }
        i += 1;
    }
    proof {
        assert(ves.take(ves.len() as int) =~= ves);
    }
    out.append(
        "        _ => Err(Error::NoEventHandler { object_id: packet.object_id() }),\n    }\n}\n\n",
    );
    proof {
        assert(final(out)@ =~= old(out)@ + spec_dispatch_code(prefix@, ves, asynchronous));
    }
}

/// Appends one interface's whole compilation.
#[verifier::rlimit(60)]
fn emit_interface_code(iface: &Interface, asynchronous: bool, out: &mut String)
    ensures
        final(out)@ == old(out)@ + spec_interface_code(iface@, asynchronous),
{
    let mut prefix = String::new();
    prefix.append(iface.name.as_str());
    prefix.append("_v");
    emit_u32_decimal(iface.version, &mut prefix);
    proof {
        assert(prefix@ =~= spec_iface_prefix(iface@));
    }

    let ghost orig = out@;
    let ghost vens = iface.enums@.map_values(|e: Enum| e@);
    proof {
        assert(vens.take(0) =~= Seq::<EnumView>::empty());
    }
    let mut i: usize = 0;
    while i < iface.enums.len()
        invariant
            0 <= i <= iface.enums@.len(),
            vens == iface.enums@.map_values(|e: Enum| e@),
            prefix@ == spec_iface_prefix(iface@),
            out@ == orig + spec_enums_code(prefix@, vens.take(i as int)),
        decreases iface.enums@.len() - i,
    {
        proof {
            assert(vens.take(i + 1).drop_last() =~= vens.take(i as int));
            assert(vens.take(i + 1).last() == vens[i as int]);
            assert(vens[i as int] == iface.enums@[i as int]@);
        }
        emit_enum_code(prefix.as_str(), &iface.enums[i], out);
        proof {
            assert(spec_enums_code(prefix@, vens.take(i + 1)) == spec_enums_code(
                prefix@,
                vens.take(i as int),
            ) + spec_enum_code(prefix@, vens[i as int]));
            assert(out@ =~= orig + spec_enums_code(prefix@, vens.take(i + 1)));
        }
        i += 1;
    }
    proof {
        assert(vens.take(vens.len() as int) =~= vens);
    }

    let ghost orig2 = out@;
    let ghost vrs = iface.requests@.map_values(|p: Procedure| p@);
    proof {
        assert(vrs.take(0) =~= Seq::<ProcedureView>::empty());
    }
    let mut i: usize = 0;
    while i < iface.requests.len()
        invariant
            0 <= i <= iface.requests@.len(),
            vrs == iface.requests@.map_values(|p: Procedure| p@),
            prefix@ == spec_iface_prefix(iface@),
            out@ == orig2 + spec_request_blocks(prefix@, vrs.take(i as int)),
        decreases iface.requests@.len() - i,
    {
        proof {
            assert(vrs.take(i + 1).drop_last() =~= vrs.take(i as int));
            assert(vrs.take(i + 1).last() == vrs[i as int]);
            assert(vrs[i as int] == iface.requests@[i as int]@);
        }
        emit_request_block(prefix.as_str(), i, &iface.requests[i], out);
        proof {
            assert(spec_request_blocks(prefix@, vrs.take(i + 1)) == spec_request_blocks(
                prefix@,
                vrs.take(i as int),
            ) + spec_request_block(prefix@, i as int, vrs[i as int]));
            assert(out@ =~= orig2 + spec_request_blocks(prefix@, vrs.take(i + 1)));
        }
        i += 1;
    }
    proof {
        assert(vrs.take(vrs.len() as int) =~= vrs);
    }

    let ghost orig3 = out@;
    let ghost ves = iface.events@.map_values(|p: Procedure| p@);
    proof {
        assert(ves.take(0) =~= Seq::<ProcedureView>::empty());
    }
    let mut i: usize = 0;
    while i < iface.events.len()
        invariant
            0 <= i <= iface.events@.len(),
            ves == iface.events@.map_values(|p: Procedure| p@),
            prefix@ == spec_iface_prefix(iface@),
            out@ == orig3 + spec_event_blocks(prefix@, ves.take(i as int)),
        decreases iface.events@.len() - i,
    {
        proof {
            assert(ves.take(i + 1).drop_last() =~= ves.take(i as int));
            assert(ves.take(i + 1).last() == ves[i as int]);
            assert(ves[i as int] == iface.events@[i as int]@);
        }
        emit_event_block(prefix.as_str(), i, &iface.events[i], out);
        proof {
            assert(spec_event_blocks(prefix@, ves.take(i + 1)) == spec_event_blocks(
                prefix@,
                ves.take(i as int),
            ) + spec_event_block(prefix@, i as int, ves[i as int]));
            assert(out@ =~= orig3 + spec_event_blocks(prefix@, ves.take(i + 1)));
        }
        i += 1;
    }
    proof {
        assert(ves.take(ves.len() as int) =~= ves);
    }

    emit_proxy_code(prefix.as_str(), &iface.requests, asynchronous, out);
    emit_trait_code(prefix.as_str(), &iface.events, asynchronous, out);
    emit_dispatch_code(prefix.as_str(), &iface.events, asynchronous, out);
    proof {
        assert(final(out)@ =~= old(out)@ + spec_interface_code(iface@, asynchronous));
    }
}

/// The binding compiler's text emitter: fixed to one mode at construction.
pub struct Tokenizer {
    asynchronous: bool,
}

impl Tokenizer {
    /// The mode flag: suspendable signatures when set, synchronous ones
    /// otherwise.
    pub closed spec fn spec_asynchronous(self) -> bool {
        self.asynchronous
    }

    /// An emitter for the given mode.
    pub fn new(asynchronous: bool) -> (r: Self)
        ensures
            r.spec_asynchronous() == asynchronous,
    {
        Self { asynchronous }
    }

    /// Compiles a protocol to source text.
    ///
    /// The output is a function of the model and the mode flag alone, so
    /// identical inputs always produce byte-identical text.
    #[verifier::rlimit(60)]
    pub fn protocol_to_code(&self, protocol: &Protocol) -> (r: String)
        ensures
            r@ == spec_protocol_code(protocol@, self.spec_asynchronous()),
    {
        let mut out = String::new();
        out.append("// Bindings for protocol ");
        out.append(protocol.name.as_str());
        out.append(".\n\n");
        out.append(
            "use crate::{Connection, Error, Fixed, NewObject, NewObjectId, ObjectId, Packet};\n\n",
        );
        let ghost orig = out@;
        let ghost vis = protocol.interfaces@.map_values(|i: Interface| i@);
        proof {
            assert(vis.take(0) =~= Seq::<InterfaceView>::empty());
        }
        let mut i: usize = 0;
        while i < protocol.interfaces.len()
            invariant
                0 <= i <= protocol.interfaces@.len(),
                vis == protocol.interfaces@.map_values(|iv: Interface| iv@),
                out@ == orig + spec_interfaces_code(vis.take(i as int), self.asynchronous),
            decreases protocol.interfaces@.len() - i,
        {
            proof {
                assert(vis.take(i + 1).drop_last() =~= vis.take(i as int));
                assert(vis.take(i + 1).last() == vis[i as int]);
                assert(vis[i as int] == protocol.interfaces@[i as int]@);
            }
            emit_interface_code(&protocol.interfaces[i], self.asynchronous, &mut out);
            proof {
                assert(spec_interfaces_code(vis.take(i + 1), self.asynchronous)
                    == spec_interfaces_code(vis.take(i as int), self.asynchronous)
                    + spec_interface_code(vis[i as int], self.asynchronous));
                assert(out@ =~= orig + spec_interfaces_code(vis.take(i + 1), self.asynchronous));
            }
            i += 1;
        }
        proof {
            assert(vis.take(vis.len() as int) =~= vis);
            assert(out@ =~= spec_protocol_code(protocol@, self.spec_asynchronous()));
        }
        out
    }
}

/// Identical models compiled under the same mode flag always yield
/// byte-identical output: compilation is a function of its inputs alone.
pub proof fn lemma_compilation_deterministic(p1: ProtocolView, p2: ProtocolView, mode: bool)
    requires
        p1 == p2,
    ensures
        spec_protocol_code(p1, mode) == spec_protocol_code(p2, mode),
{
}

} // verus!
