//! The schema parser: reads a protocol description document and builds the
//! schema model, or fails with a description-level error.
//!
//! Unknown element kinds are ignored for forward compatibility, and
//! copyright metadata is ignored by design.

use vstd::prelude::*;
use vstd::string::StringSliceAdditionalSpecFns;

use crate::document::{collect_text, spec_attr, spec_text_of_children, DocElement, DocNode};
use crate::iter_ext::{SingleIterError, SingleIterExt};
use crate::model::{
    spec_arg_type_of, Arg, ArgType, ArgView, Enum, EnumVariant, EnumVariantView, EnumView,
    Interface, InterfaceView, Procedure, ProcedureView, Protocol, ProtocolView,
};

verus! {

/// A fatal description-level failure: the schema cannot be understood.
#[derive(Debug, Eq, PartialEq)]
pub enum SchemaError {
    /// The document holds no top-level element at all.
    NoRootElement,
    /// The document holds more than one top-level element.
    MultipleRootElements,
    /// The one top-level element is not the protocol element.
    RootNotProtocol,
    /// A required attribute is absent.
    MissingAttribute {
        /// The name of the element missing the attribute.
        element: String,
        /// The name of the absent attribute.
        attribute: String,
    },
    /// An attribute's value cannot be understood: a non-numeric version or
    /// value, or an argument type outside the closed set.
    InvalidAttribute {
        /// The name of the element carrying the attribute.
        element: String,
        /// The name of the offending attribute.
        attribute: String,
    },
}

/// What a schema error holds, as mathematical values.
pub ghost enum SchemaErrorView {
    /// No top-level element.
    NoRootElement,
    /// More than one top-level element.
    MultipleRootElements,
    /// The top-level element is not the protocol element.
    RootNotProtocol,
    /// A required attribute is absent.
    MissingAttribute {
        /// The element's name.
        element: Seq<char>,
        /// The attribute's name.
        attribute: Seq<char>,
    },
    /// An attribute's value cannot be understood.
    InvalidAttribute {
        /// The element's name.
        element: Seq<char>,
        /// The attribute's name.
        attribute: Seq<char>,
    },
}

impl View for SchemaError {
    type V = SchemaErrorView;

    open spec fn view(&self) -> SchemaErrorView {
        match self {
            SchemaError::NoRootElement => SchemaErrorView::NoRootElement,
            SchemaError::MultipleRootElements => SchemaErrorView::MultipleRootElements,
            SchemaError::RootNotProtocol => SchemaErrorView::RootNotProtocol,
            SchemaError::MissingAttribute { element, attribute } => {
                SchemaErrorView::MissingAttribute { element: element@, attribute: attribute@ }
            },
            SchemaError::InvalidAttribute { element, attribute } => {
                SchemaErrorView::InvalidAttribute { element: element@, attribute: attribute@ }
            },
        }
    }
}

/// The numeric value of one ASCII digit under a radix, where letters count
/// from ten in either case.
pub open spec fn spec_digit_value(b: u8, radix: u32) -> Option<u32> {
    let v: int = if 48u8 <= b <= 57u8 {
        b - 48u8
    } else if 97u8 <= b <= 122u8 {
        b - 97u8 + 10
    } else if 65u8 <= b <= 90u8 {
        b - 65u8 + 10
    } else {
        -1
    };
    if 0 <= v < radix {
        Some(v as u32)
    } else {
        None
    }
}

/// The number a run of digits denotes under a radix, as an unbounded
/// integer; an empty run or a non-digit makes the run invalid.
pub open spec fn spec_parse_radix(s: Seq<u8>, radix: u32) -> Option<int>
    decreases s.len(),
{
    if s.len() == 0 {
        None
    } else if s.len() == 1 {
        match spec_digit_value(s[0], radix) {
            Some(d) => Some(d as int),
            None => None,
        }
    } else {
        match spec_parse_radix(s.drop_last(), radix) {
            Some(v) => match spec_digit_value(s.last(), radix) {
                Some(d) => Some(v * radix + d),
                None => None,
            },
            None => None,
        }
    }
}

/// The 32-bit number a run of digits denotes under a radix; values that do
/// not fit are invalid.
pub open spec fn spec_parse_u32_radix(s: Seq<u8>, radix: u32) -> Option<u32> {
    match spec_parse_radix(s, radix) {
        Some(v) => if v <= u32::MAX {
            Some(v as u32)
        } else {
            None
        },
        None => None,
    }
}

/// The number a literal denotes: hexadecimal after a `0x` prefix, binary
/// after a `0b` prefix, decimal otherwise.
pub open spec fn spec_parse_u32_base_prefix(s: Seq<u8>) -> Option<u32> {
    if s.len() >= 2 && s[0] == 48u8 && s[1] == 120u8 {
        spec_parse_u32_radix(s.skip(2), 16)
    } else if s.len() >= 2 && s[0] == 48u8 && s[1] == 98u8 {
        spec_parse_u32_radix(s.skip(2), 2)
    } else {
        spec_parse_u32_radix(s, 10)
    }
}

/// Once a prefix of the digits exceeds the 32-bit range, every longer run
/// does too.
proof fn lemma_radix_grows(s: Seq<u8>, radix: u32, k: int)
    requires
        2 <= radix,
        0 < k <= s.len(),
        spec_parse_radix(s.take(k), radix) matches Some(v) && v > u32::MAX,
    ensures
        spec_parse_radix(s, radix) matches Some(w) ==> w > u32::MAX,
    decreases s.len() - k,
{
    if k == s.len() {
        assert(s.take(k) =~= s);
    } else {
        let prefix = s.take(k + 1);
        assert(prefix.drop_last() =~= s.take(k));
        let v = spec_parse_radix(s.take(k), radix)->Some_0;
        match spec_digit_value(prefix.last(), radix) {
            Some(d) => {
                assert(v * radix + d > u32::MAX) by (nonlinear_arith)
                    requires
                        v > u32::MAX,
                        radix >= 2,
                        d >= 0,
                ;
                lemma_radix_grows(s, radix, k + 1);
            },
            None => {
                lemma_radix_none_sticks(s, radix, k + 1);
            },
        }
    }
}

/// Once a prefix of the digits is invalid, every longer run is too.
pub proof fn lemma_radix_none_sticks(s: Seq<u8>, radix: u32, k: int)
    requires
        0 < k <= s.len(),
        spec_parse_radix(s.take(k), radix) is None,
    ensures
        spec_parse_radix(s, radix) is None,
    decreases s.len() - k,
{
    if k == s.len() {
        assert(s.take(k) =~= s);
    } else {
        assert(s.take(k + 1).drop_last() =~= s.take(k));
        if s.take(k).len() == 1 {
            match spec_digit_value(s.take(k)[0], radix) {
                Some(_) => {
                    assert(spec_parse_radix(s.take(k), radix) is Some);
                },
                None => {
                    assert(s.take(k + 1)[0] == s.take(k)[0]);
                    assert(spec_parse_radix(s.take(k + 1), radix) is None);
                },
            }
        }
        lemma_radix_none_sticks(s, radix, k + 1);
    }
}

/// Parses a run of digits under a radix into a 32-bit number.
pub fn parse_u32_radix(digits: &[u8], radix: u32) -> (r: Option<u32>)
    requires
        2 <= radix <= 36,
    ensures
        r == spec_parse_u32_radix(digits@, radix),
{
    if digits.len() == 0 {
        return None;
    }
    let mut acc: u32 = 0;
    let mut over: bool = false;
    let mut i: usize = 0;
    while i < digits.len()
        invariant
            2 <= radix <= 36,
            0 < digits@.len(),
            0 <= i <= digits@.len(),
            i > 0 ==> ({
                let sofar = spec_parse_radix(digits@.take(i as int), radix);
                &&& sofar is Some
                &&& (!over ==> sofar == Some(acc as int))
                &&& (over ==> sofar->Some_0 > u32::MAX)
            }),
            i == 0 ==> acc == 0 && !over,
        decreases digits@.len() - i,
    {
        let b = digits[i];
        let d: u32 = if b >= 48u8 && b <= 57u8 {
            (b - 48u8) as u32
        } else if b >= 97u8 && b <= 122u8 {
            (b - 97u8) as u32 + 10
        } else if b >= 65u8 && b <= 90u8 {
            (b - 65u8) as u32 + 10
        } else {
            proof {
                if i > 0 {
                    assert(digits@.take(i + 1).drop_last() =~= digits@.take(i as int));
                    assert(digits@.take(i + 1).last() == digits@[i as int]);
                    lemma_radix_none_sticks(digits@, radix, i + 1);
                } else {
                    assert(digits@.take(1).len() == 1);
                    assert(digits@.take(1)[0] == digits@[0]);
                    lemma_radix_none_sticks(digits@, radix, 1);
                }
            }
            return None;
        };
        if d >= radix {
            proof {
                if i > 0 {
                    assert(digits@.take(i + 1).drop_last() =~= digits@.take(i as int));
                    assert(digits@.take(i + 1).last() == digits@[i as int]);
                    lemma_radix_none_sticks(digits@, radix, i + 1);
                } else {
                    assert(digits@.take(1).len() == 1);
                    assert(digits@.take(1)[0] == digits@[0]);
                    lemma_radix_none_sticks(digits@, radix, 1);
                }
            }
            return None;
        }
        proof {
            assert(digits@.take(i + 1).drop_last() =~= digits@.take(i as int));
            assert(digits@.take(i + 1).last() == digits@[i as int]);
        }
        if over {
            proof {
                let v = spec_parse_radix(digits@.take(i as int), radix)->Some_0;
                assert(v * radix + d > u32::MAX) by (nonlinear_arith)
                    requires
                        v > u32::MAX,
                        radix >= 2,
                        d >= 0,
                ;
            }
        } else {
            proof {
                assert((acc as u64) * (radix as u64) <= 0xFFFF_FFFFu64 * 36) by (nonlinear_arith)
                    requires
                        acc <= u32::MAX,
                        radix <= 36,
                ;
            }
            let wide: u64 = (acc as u64) * (radix as u64) + (d as u64);
            if wide > 0xFFFF_FFFFu64 {
                over = true;
            } else {
                acc = wide as u32;
            }
        }
        i += 1;
    }
    proof {
        assert(digits@.take(digits@.len() as int) =~= digits@);
    }
    if over {
        None
    } else {
        Some(acc)
    }
}

/// Parses a numeric literal: decimal, or hexadecimal and binary under the
/// `0x` and `0b` prefixes.
pub fn parse_u32_base_prefix(int_str: &str) -> (r: Option<u32>)
    ensures
        r == spec_parse_u32_base_prefix(int_str.spec_bytes()),
{
    let bytes = int_str.as_bytes();
    if bytes.len() >= 2 && bytes[0] == 48u8 && bytes[1] == 120u8 {
        let r = parse_u32_radix(vstd::slice::slice_subrange(bytes, 2, bytes.len()), 16);
        proof {
            assert(bytes@.subrange(2, bytes@.len() as int) =~= bytes@.skip(2));
        }
        r
    } else if bytes.len() >= 2 && bytes[0] == 48u8 && bytes[1] == 98u8 {
        let r = parse_u32_radix(vstd::slice::slice_subrange(bytes, 2, bytes.len()), 2);
        proof {
            assert(bytes@.subrange(2, bytes@.len() as int) =~= bytes@.skip(2));
        }
        r
    } else {
        parse_u32_radix(bytes, 10)
    }
}


/// Resolving one description element against an earlier summary: a new
/// summary attribute replaces it, its absence keeps it.
pub open spec fn spec_upd_short(old_short: Option<Seq<char>>, e: DocElement) -> Option<
    Seq<char>,
> {
    match spec_attr(e.attributes@, "summary"@) {
        Some(s) => Some(s),
        None => old_short,
    }
}

/// What one argument element denotes: its name and type attributes are
/// required, the type must be in the closed set, and the referenced
/// interface and summary are optional.
pub open spec fn spec_parse_arg(e: DocElement) -> Result<ArgView, SchemaErrorView> {
    match spec_attr(e.attributes@, "name"@) {
        None => Err(SchemaErrorView::MissingAttribute { element: e.name@, attribute: "name"@ }),
        Some(name) => match spec_attr(e.attributes@, "type"@) {
            None => Err(
                SchemaErrorView::MissingAttribute { element: e.name@, attribute: "type"@ },
            ),
            Some(ty) => match spec_arg_type_of(ty) {
                None => Err(
                    SchemaErrorView::InvalidAttribute { element: e.name@, attribute: "type"@ },
                ),
                Some(at) => Ok(
                    ArgView {
                        name,
                        arg_type: at,
                        interface: spec_attr(e.attributes@, "interface"@),
                        short_description: spec_attr(e.attributes@, "summary"@),
                    },
                ),
            },
        },
    }
}

/// What one enum entry element denotes: its name and value attributes are
/// required and the value must be a decimal, hexadecimal or binary literal.
pub open spec fn spec_parse_variant(e: DocElement) -> Result<EnumVariantView, SchemaErrorView> {
    match spec_attr(e.attributes@, "name"@) {
        None => Err(SchemaErrorView::MissingAttribute { element: e.name@, attribute: "name"@ }),
        Some(name) => match spec_attr(e.attributes@, "value"@) {
            None => Err(
                SchemaErrorView::MissingAttribute { element: e.name@, attribute: "value"@ },
            ),
            Some(v) => match spec_parse_u32_base_prefix(vstd::utf8::encode_utf8(v)) {
                None => Err(
                    SchemaErrorView::InvalidAttribute { element: e.name@, attribute: "value"@ },
                ),
                Some(value) => Ok(
                    EnumVariantView {
                        name,
                        value,
                        short_description: spec_attr(e.attributes@, "summary"@),
                    },
                ),
            },
        },
    }
}

/// What an enum element's children denote, processed in document order:
/// the latest description and the entries.
pub open spec fn spec_enum_children(children: Seq<DocNode>) -> Result<
    (Option<Seq<char>>, Option<Seq<char>>, Seq<EnumVariantView>),
    SchemaErrorView,
>
    decreases children.len(),
{
    if children.len() == 0 {
        Ok((None, None, Seq::empty()))
    } else {
        match spec_enum_children(children.drop_last()) {
            Err(er) => Err(er),
            Ok(acc) => match children.last() {
                DocNode::Element(e) => {
                    if e.name@ == "description"@ {
                        Ok(
                            (
                                spec_upd_short(acc.0, e),
                                Some(spec_text_of_children(e.children@)),
                                acc.2,
                            ),
                        )
                    } else if e.name@ == "entry"@ {
                        match spec_parse_variant(e) {
                            Err(er) => Err(er),
                            Ok(v) => Ok((acc.0, acc.1, acc.2.push(v))),
                        }
                    } else {
                        Ok(acc)
                    }
                },
                _ => Ok(acc),
            },
        }
    }
}

/// What one enum element denotes.
pub open spec fn spec_parse_enum(e: DocElement) -> Result<EnumView, SchemaErrorView> {
    match spec_attr(e.attributes@, "name"@) {
        None => Err(SchemaErrorView::MissingAttribute { element: e.name@, attribute: "name"@ }),
        Some(name) => match spec_enum_children(e.children@) {
            Err(er) => Err(er),
            Ok(acc) => Ok(
                EnumView {
                    name,
                    short_description: acc.0,
                    description: acc.1,
                    variants: acc.2,
                },
            ),
        },
    }
}

/// What a request or event element's children denote: the latest
/// description and the arguments in order.
pub open spec fn spec_proc_children(children: Seq<DocNode>) -> Result<
    (Option<Seq<char>>, Option<Seq<char>>, Seq<ArgView>),
    SchemaErrorView,
>
    decreases children.len(),
{
    if children.len() == 0 {
        Ok((None, None, Seq::empty()))
    } else {
        match spec_proc_children(children.drop_last()) {
            Err(er) => Err(er),
            Ok(acc) => match children.last() {
                DocNode::Element(e) => {
                    if e.name@ == "description"@ {
                        Ok(
                            (
                                spec_upd_short(acc.0, e),
                                Some(spec_text_of_children(e.children@)),
                                acc.2,
                            ),
                        )
                    } else if e.name@ == "arg"@ {
                        match spec_parse_arg(e) {
                            Err(er) => Err(er),
                            Ok(a) => Ok((acc.0, acc.1, acc.2.push(a))),
                        }
                    } else {
                        Ok(acc)
                    }
                },
                _ => Ok(acc),
            },
        }
    }
}

/// What one request or event element denotes.
pub open spec fn spec_parse_procedure(e: DocElement) -> Result<ProcedureView, SchemaErrorView> {
    match spec_attr(e.attributes@, "name"@) {
        None => Err(SchemaErrorView::MissingAttribute { element: e.name@, attribute: "name"@ }),
        Some(name) => match spec_proc_children(e.children@) {
            Err(er) => Err(er),
            Ok(acc) => Ok(
                ProcedureView {
                    name,
                    short_description: acc.0,
                    description: acc.1,
                    args: acc.2,
                },
            ),
        },
    }
}

/// The accumulated contents of an interface element.
pub ghost struct InterfaceItems {
    /// The latest summary, if any.
    pub short_description: Option<Seq<char>>,
    /// The latest description text, if any.
    pub description: Option<Seq<char>>,
    /// The requests, in declaration order.
    pub requests: Seq<ProcedureView>,
    /// The events, in declaration order.
    pub events: Seq<ProcedureView>,
    /// The enums, in declaration order.
    pub enums: Seq<EnumView>,
}

/// What an interface element's children denote, in document order.
pub open spec fn spec_iface_children(children: Seq<DocNode>) -> Result<
    InterfaceItems,
    SchemaErrorView,
>
    decreases children.len(),
{
    if children.len() == 0 {
        Ok(
            InterfaceItems {
                short_description: None,
                description: None,
                requests: Seq::empty(),
                events: Seq::empty(),
                enums: Seq::empty(),
            },
        )
    } else {
        match spec_iface_children(children.drop_last()) {
            Err(er) => Err(er),
            Ok(acc) => match children.last() {
                DocNode::Element(e) => {
                    if e.name@ == "description"@ {
                        Ok(
                            InterfaceItems {
                                short_description: spec_upd_short(acc.short_description, e),
                                description: Some(spec_text_of_children(e.children@)),
                                ..acc
                            },
                        )
                    } else if e.name@ == "request"@ {
                        match spec_parse_procedure(e) {
                            Err(er) => Err(er),
                            Ok(p) => Ok(InterfaceItems { requests: acc.requests.push(p), ..acc }),
                        }
                    } else if e.name@ == "event"@ {
                        match spec_parse_procedure(e) {
                            Err(er) => Err(er),
                            Ok(p) => Ok(InterfaceItems { events: acc.events.push(p), ..acc }),
                        }
                    } else if e.name@ == "enum"@ {
                        match spec_parse_enum(e) {
                            Err(er) => Err(er),
                            Ok(en) => Ok(InterfaceItems { enums: acc.enums.push(en), ..acc }),
                        }
                    } else {
                        Ok(acc)
                    }
                },
                _ => Ok(acc),
            },
        }
    }
}

/// What one interface element denotes: its name and numeric version are
/// required.
pub open spec fn spec_parse_interface(e: DocElement) -> Result<InterfaceView, SchemaErrorView> {
    match spec_attr(e.attributes@, "name"@) {
        None => Err(SchemaErrorView::MissingAttribute { element: e.name@, attribute: "name"@ }),
        Some(name) => match spec_attr(e.attributes@, "version"@) {
            None => Err(
                SchemaErrorView::MissingAttribute { element: e.name@, attribute: "version"@ },
            ),
            Some(v) => match spec_parse_u32_radix(vstd::utf8::encode_utf8(v), 10) {
                None => Err(
                    SchemaErrorView::InvalidAttribute { element: e.name@, attribute: "version"@ },
                ),
                Some(version) => match spec_iface_children(e.children@) {
                    Err(er) => Err(er),
                    Ok(acc) => Ok(
                        InterfaceView {
                            name,
                            version,
                            short_description: acc.short_description,
                            description: acc.description,
                            requests: acc.requests,
                            events: acc.events,
                            enums: acc.enums,
                        },
                    ),
                },
            },
        },
    }
}

/// What a protocol element's children denote: its interfaces in order,
/// copyright metadata and unknown elements ignored.
pub open spec fn spec_protocol_children(children: Seq<DocNode>) -> Result<
    Seq<InterfaceView>,
    SchemaErrorView,
>
    decreases children.len(),
{
    if children.len() == 0 {
        Ok(Seq::empty())
    } else {
        match spec_protocol_children(children.drop_last()) {
            Err(er) => Err(er),
            Ok(acc) => match children.last() {
                DocNode::Element(e) => {
                    if e.name@ == "interface"@ {
                        match spec_parse_interface(e) {
                            Err(er) => Err(er),
                            Ok(i) => Ok(acc.push(i)),
                        }
                    } else {
                        Ok(acc)
                    }
                },
                _ => Ok(acc),
            },
        }
    }
}

/// What one protocol element denotes: its name is required.
pub open spec fn spec_parse_protocol(e: DocElement) -> Result<ProtocolView, SchemaErrorView> {
    match spec_attr(e.attributes@, "name"@) {
        None => Err(SchemaErrorView::MissingAttribute { element: e.name@, attribute: "name"@ }),
        Some(name) => match spec_protocol_children(e.children@) {
            Err(er) => Err(er),
            Ok(interfaces) => Ok(ProtocolView { name, interfaces }),
        },
    }
}

/// The top-level elements of a document, in order.
pub open spec fn spec_doc_elements(children: Seq<DocNode>) -> Seq<DocElement>
    decreases children.len(),
{
    if children.len() == 0 {
        Seq::empty()
    } else {
        spec_doc_elements(children.drop_last()) + (match children.last() {
            DocNode::Element(e) => seq![e],
            _ => Seq::empty(),
        })
    }
}

/// What a whole document denotes: exactly one top-level element, which must
/// be the protocol element.
pub open spec fn spec_parse_document(children: Seq<DocNode>) -> Result<
    ProtocolView,
    SchemaErrorView,
> {
    let elems = spec_doc_elements(children);
    if elems.len() == 0 {
        Err(SchemaErrorView::NoRootElement)
    } else if elems.len() >= 2 {
        Err(SchemaErrorView::MultipleRootElements)
    } else if elems[0].name@ != "protocol"@ {
        Err(SchemaErrorView::RootNotProtocol)
    } else {
        spec_parse_protocol(elems[0])
    }
}


/// Once a prefix of an enum's children fails, the whole list fails the
/// same way.
proof fn lemma_enum_children_err(children: Seq<DocNode>, k: int)
    requires
        0 <= k <= children.len(),
        spec_enum_children(children.take(k)) is Err,
    ensures
        spec_enum_children(children) == spec_enum_children(children.take(k)),
    decreases children.len() - k,
{
    if k == children.len() {
        assert(children.take(k) =~= children);
    } else {
        assert(children.take(k + 1).drop_last() =~= children.take(k));
        lemma_enum_children_err(children, k + 1);
    }
}

/// The procedure analogue of [`lemma_enum_children_err`].
proof fn lemma_proc_children_err(children: Seq<DocNode>, k: int)
    requires
        0 <= k <= children.len(),
        spec_proc_children(children.take(k)) is Err,
    ensures
        spec_proc_children(children) == spec_proc_children(children.take(k)),
    decreases children.len() - k,
{
    if k == children.len() {
        assert(children.take(k) =~= children);
    } else {
        assert(children.take(k + 1).drop_last() =~= children.take(k));
        lemma_proc_children_err(children, k + 1);
    }
}

/// The interface analogue of [`lemma_enum_children_err`].
proof fn lemma_iface_children_err(children: Seq<DocNode>, k: int)
    requires
        0 <= k <= children.len(),
        spec_iface_children(children.take(k)) is Err,
    ensures
        spec_iface_children(children) == spec_iface_children(children.take(k)),
    decreases children.len() - k,
{
    if k == children.len() {
        assert(children.take(k) =~= children);
    } else {
        assert(children.take(k + 1).drop_last() =~= children.take(k));
        lemma_iface_children_err(children, k + 1);
    }
}

/// The protocol analogue of [`lemma_enum_children_err`].
proof fn lemma_protocol_children_err(children: Seq<DocNode>, k: int)
    requires
        0 <= k <= children.len(),
        spec_protocol_children(children.take(k)) is Err,
    ensures
        spec_protocol_children(children) == spec_protocol_children(children.take(k)),
    decreases children.len() - k,
{
    if k == children.len() {
        assert(children.take(k) =~= children);
    } else {
        assert(children.take(k + 1).drop_last() =~= children.take(k));
        lemma_protocol_children_err(children, k + 1);
    }
}

/// Builds one argument from its element.
pub fn process_arg(arg_elem: &DocElement) -> (r: Result<Arg, SchemaError>)
    ensures
        match r {
            Ok(a) => spec_parse_arg(*arg_elem) == Ok::<ArgView, SchemaErrorView>(a@),
            Err(er) => spec_parse_arg(*arg_elem) == Err::<ArgView, SchemaErrorView>(er@),
        },
{
    let name = match arg_elem.attribute_value("name") {
        Some(n) => n.clone(),
        None => {
            return Err(SchemaError::MissingAttribute {
                element: arg_elem.name.clone(),
                attribute: String::from_str("name"),
            });
        },
    };
    let ty = match arg_elem.attribute_value("type") {
        Some(t) => t,
        None => {
            return Err(SchemaError::MissingAttribute {
                element: arg_elem.name.clone(),
                attribute: String::from_str("type"),
            });
        },
    };
    let arg_type = match ArgType::try_from_str(ty.as_str()) {
        Some(at) => at,
        None => {
            return Err(SchemaError::InvalidAttribute {
                element: arg_elem.name.clone(),
                attribute: String::from_str("type"),
            });
        },
    };
    let interface = match arg_elem.attribute_value("interface") {
        Some(i) => Some(i.clone()),
        None => None,
    };
    let short_description = match arg_elem.attribute_value("summary") {
        Some(sd) => Some(sd.clone()),
        None => None,
    };
    Ok(Arg { name, arg_type, interface, short_description })
}

/// Builds one enum variant from its entry element.
pub fn process_enum_variant(variant_elem: &DocElement) -> (r: Result<EnumVariant, SchemaError>)
    ensures
        match r {
            Ok(v) => spec_parse_variant(*variant_elem) == Ok::<EnumVariantView, SchemaErrorView>(
                v@,
            ),
            Err(er) => spec_parse_variant(*variant_elem) == Err::<
                EnumVariantView,
                SchemaErrorView,
            >(er@),
        },
{
    let name = match variant_elem.attribute_value("name") {
        Some(n) => n.clone(),
        None => {
            return Err(SchemaError::MissingAttribute {
                element: variant_elem.name.clone(),
                attribute: String::from_str("name"),
            });
        },
    };
    let value_str = match variant_elem.attribute_value("value") {
        Some(v) => v,
        None => {
            return Err(SchemaError::MissingAttribute {
                element: variant_elem.name.clone(),
                attribute: String::from_str("value"),
            });
        },
    };
    let value = match parse_u32_base_prefix(value_str.as_str()) {
        Some(v) => v,
        None => {
            return Err(SchemaError::InvalidAttribute {
                element: variant_elem.name.clone(),
                attribute: String::from_str("value"),
            });
        },
    };
    let short_description = match variant_elem.attribute_value("summary") {
        Some(s) => Some(s.clone()),
        None => None,
    };
    Ok(EnumVariant { name, value, short_description })
}

/// Builds one enum from its element.
pub fn process_enum(enum_elem: &DocElement) -> (r: Result<Enum, SchemaError>)
    ensures
        match r {
            Ok(en) => spec_parse_enum(*enum_elem) == Ok::<EnumView, SchemaErrorView>(en@),
            Err(er) => spec_parse_enum(*enum_elem) == Err::<EnumView, SchemaErrorView>(er@),
        },
{
    let name = match enum_elem.attribute_value("name") {
        Some(n) => n.clone(),
        None => {
            return Err(SchemaError::MissingAttribute {
                element: enum_elem.name.clone(),
                attribute: String::from_str("name"),
            });
        },
    };
    let mut short_description: Option<String> = None;
    let mut description: Option<String> = None;
    let mut variants: Vec<EnumVariant> = Vec::new();
    proof {
        assert(enum_elem.children@.take(0) =~= Seq::<DocNode>::empty());
        assert(variants@.map_values(|v: EnumVariant| v@) =~= Seq::<EnumVariantView>::empty());
    }
    let mut i: usize = 0;
    while i < enum_elem.children.len()
        invariant
            0 <= i <= enum_elem.children@.len(),
            spec_attr(enum_elem.attributes@, "name"@) is Some,
            spec_enum_children(enum_elem.children@.take(i as int)) == Ok::<
                (Option<Seq<char>>, Option<Seq<char>>, Seq<EnumVariantView>),
                SchemaErrorView,
            >(
                (
                    crate::model::spec_opt_str(short_description),
                    crate::model::spec_opt_str(description),
                    variants@.map_values(|v: EnumVariant| v@),
                ),
            ),
        decreases enum_elem.children@.len() - i,
    {
        proof {
            assert(enum_elem.children@.take(i + 1).drop_last() =~= enum_elem.children@.take(
                i as int,
            ));
            assert(enum_elem.children@.take(i + 1).last() == enum_elem.children@[i as int]);
        }
        let node = &enum_elem.children[i];
        proof {
            assert(*node == enum_elem.children@[i as int]);
        }
        match node {
            DocNode::Element(child_elem) => {
                if child_elem.is_named("description") {
                    match child_elem.attribute_value("summary") {
                        Some(summary) => {
                            short_description = Some(summary.clone());
                        },
                        None => {},
                    }
                    description = Some(collect_text(child_elem));
                } else if child_elem.is_named("entry") {
                    match process_enum_variant(child_elem) {
                        Ok(v) => {
                            let ghost old_vs = variants@;
                            variants.push(v);
                            proof {
                                assert(variants@.map_values(|v: EnumVariant| v@)
                                    =~= old_vs.map_values(|v: EnumVariant| v@).push(
                                    variants@.last()@,
                                ));
                            }
                        },
                        Err(er) => {
                            proof {
                                lemma_enum_children_err(enum_elem.children@, i + 1);
                            }
                            return Err(er);
                        },
                    }
                }
            },
            _ => {},
        }
        i += 1;
    }
    proof {
        assert(enum_elem.children@.take(enum_elem.children@.len() as int) =~= enum_elem.children@);
    }
    Ok(Enum { name, short_description, description, variants })
}

/// Builds one request or event from its element: both share this shape.
pub fn process_procedure(proc_elem: &DocElement) -> (r: Result<Procedure, SchemaError>)
    ensures
        match r {
            Ok(p) => spec_parse_procedure(*proc_elem) == Ok::<ProcedureView, SchemaErrorView>(p@),
            Err(er) => spec_parse_procedure(*proc_elem) == Err::<ProcedureView, SchemaErrorView>(
                er@,
            ),
        },
{
    let name = match proc_elem.attribute_value("name") {
        Some(n) => n.clone(),
        None => {
            return Err(SchemaError::MissingAttribute {
                element: proc_elem.name.clone(),
                attribute: String::from_str("name"),
            });
        },
    };
    let mut short_description: Option<String> = None;
    let mut description: Option<String> = None;
    let mut args: Vec<Arg> = Vec::new();
    proof {
        assert(proc_elem.children@.take(0) =~= Seq::<DocNode>::empty());
        assert(args@.map_values(|a: Arg| a@) =~= Seq::<ArgView>::empty());
    }
    let mut i: usize = 0;
    while i < proc_elem.children.len()
        invariant
            0 <= i <= proc_elem.children@.len(),
            spec_attr(proc_elem.attributes@, "name"@) is Some,
            spec_proc_children(proc_elem.children@.take(i as int)) == Ok::<
                (Option<Seq<char>>, Option<Seq<char>>, Seq<ArgView>),
                SchemaErrorView,
            >(
                (
                    crate::model::spec_opt_str(short_description),
                    crate::model::spec_opt_str(description),
                    args@.map_values(|a: Arg| a@),
                ),
            ),
        decreases proc_elem.children@.len() - i,
    {
        proof {
            assert(proc_elem.children@.take(i + 1).drop_last() =~= proc_elem.children@.take(
                i as int,
            ));
            assert(proc_elem.children@.take(i + 1).last() == proc_elem.children@[i as int]);
        }
        let node = &proc_elem.children[i];
        proof {
            assert(*node == proc_elem.children@[i as int]);
        }
        match node {
            DocNode::Element(child_elem) => {
                if child_elem.is_named("description") {
                    match child_elem.attribute_value("summary") {
                        Some(summary) => {
                            short_description = Some(summary.clone());
                        },
                        None => {},
                    }
                    description = Some(collect_text(child_elem));
                } else if child_elem.is_named("arg") {
                    match process_arg(child_elem) {
                        Ok(a) => {
                            let ghost old_args = args@;
                            args.push(a);
                            proof {
                                assert(args@.map_values(|a: Arg| a@) =~= old_args.map_values(
                                    |a: Arg| a@,
                                ).push(args@.last()@));
                            }
                        },
                        Err(er) => {
                            proof {
                                lemma_proc_children_err(proc_elem.children@, i + 1);
                            }
                            return Err(er);
                        },
                    }
                }
            },
            _ => {},
        }
        i += 1;
    }
    proof {
        assert(proc_elem.children@.take(proc_elem.children@.len() as int) =~= proc_elem.children@);
    }
    Ok(Procedure { name, short_description, description, args })
}

/// Builds one interface from its element.
pub fn process_interface(interface_elem: &DocElement) -> (r: Result<Interface, SchemaError>)
    ensures
        match r {
            Ok(iface) => spec_parse_interface(*interface_elem) == Ok::<
                InterfaceView,
                SchemaErrorView,
            >(iface@),
            Err(er) => spec_parse_interface(*interface_elem) == Err::<
                InterfaceView,
                SchemaErrorView,
            >(er@),
        },
{
    let name = match interface_elem.attribute_value("name") {
        Some(n) => n.clone(),
        None => {
            return Err(SchemaError::MissingAttribute {
                element: interface_elem.name.clone(),
                attribute: String::from_str("name"),
            });
        },
    };
    let version_str = match interface_elem.attribute_value("version") {
        Some(v) => v,
        None => {
            return Err(SchemaError::MissingAttribute {
                element: interface_elem.name.clone(),
                attribute: String::from_str("version"),
            });
        },
    };
    let version = match parse_u32_radix(version_str.as_str().as_bytes(), 10) {
        Some(v) => v,
        None => {
            return Err(SchemaError::InvalidAttribute {
                element: interface_elem.name.clone(),
                attribute: String::from_str("version"),
            });
        },
    };
    let mut short_description: Option<String> = None;
    let mut description: Option<String> = None;
    let mut requests: Vec<Procedure> = Vec::new();
    let mut events: Vec<Procedure> = Vec::new();
    let mut enums: Vec<Enum> = Vec::new();
    proof {
        assert(interface_elem.children@.take(0) =~= Seq::<DocNode>::empty());
        assert(requests@.map_values(|p: Procedure| p@) =~= Seq::<ProcedureView>::empty());
        assert(events@.map_values(|p: Procedure| p@) =~= Seq::<ProcedureView>::empty());
        assert(enums@.map_values(|e: Enum| e@) =~= Seq::<EnumView>::empty());
    }
    let mut i: usize = 0;
    while i < interface_elem.children.len()
        invariant
            0 <= i <= interface_elem.children@.len(),
            spec_attr(interface_elem.attributes@, "name"@) is Some,
            spec_attr(interface_elem.attributes@, "version"@) matches Some(vv)
                && spec_parse_u32_radix(vstd::utf8::encode_utf8(vv), 10) is Some,
            spec_iface_children(interface_elem.children@.take(i as int)) == Ok::<
                InterfaceItems,
                SchemaErrorView,
            >(
                InterfaceItems {
                    short_description: crate::model::spec_opt_str(short_description),
                    description: crate::model::spec_opt_str(description),
                    requests: requests@.map_values(|p: Procedure| p@),
                    events: events@.map_values(|p: Procedure| p@),
                    enums: enums@.map_values(|e: Enum| e@),
                },
            ),
        decreases interface_elem.children@.len() - i,
    {
        proof {
            assert(interface_elem.children@.take(i + 1).drop_last()
                =~= interface_elem.children@.take(i as int));
            assert(interface_elem.children@.take(i + 1).last() == interface_elem.children@[
                i as int
            ]);
        }
        let node = &interface_elem.children[i];
        proof {
            assert(*node == interface_elem.children@[i as int]);
        }
        match node {
            DocNode::Element(child_elem) => {
                if child_elem.is_named("description") {
                    match child_elem.attribute_value("summary") {
                        Some(summary) => {
                            short_description = Some(summary.clone());
                        },
                        None => {},
                    }
                    description = Some(collect_text(child_elem));
                } else if child_elem.is_named("request") {
                    match process_procedure(child_elem) {
                        Ok(p) => {
                            let ghost old_ps = requests@;
                            requests.push(p);
                            proof {
                                assert(requests@.map_values(|p: Procedure| p@)
                                    =~= old_ps.map_values(|p: Procedure| p@).push(
                                    requests@.last()@,
                                ));
                            }
                        },
                        Err(er) => {
                            proof {
                                lemma_iface_children_err(interface_elem.children@, i + 1);
                            }
                            return Err(er);
                        },
                    }
                } else if child_elem.is_named("event") {
                    match process_procedure(child_elem) {
                        Ok(p) => {
                            let ghost old_ps = events@;
                            events.push(p);
                            proof {
                                assert(events@.map_values(|p: Procedure| p@) =~= old_ps.map_values(
                                    |p: Procedure| p@,
                                ).push(events@.last()@));
                            }
                        },
                        Err(er) => {
                            proof {
                                lemma_iface_children_err(interface_elem.children@, i + 1);
                            }
                            return Err(er);
                        },
                    }
                } else if child_elem.is_named("enum") {
                    match process_enum(child_elem) {
                        Ok(en) => {
                            let ghost old_es = enums@;
                            enums.push(en);
                            proof {
                                assert(enums@.map_values(|e: Enum| e@) =~= old_es.map_values(
                                    |e: Enum| e@,
                                ).push(enums@.last()@));
                            }
                        },
                        Err(er) => {
                            proof {
                                lemma_iface_children_err(interface_elem.children@, i + 1);
                            }
                            return Err(er);
                        },
                    }
                }
            },
            _ => {},
        }
        i += 1;
    }
    proof {
        assert(interface_elem.children@.take(interface_elem.children@.len() as int)
            =~= interface_elem.children@);
    }
    Ok(
        Interface {
            name,
            version,
            short_description,
            description,
            requests,
            events,
            enums,
        },
    )
}

/// Builds the protocol from its top-level element.
pub fn process_protocol(protocol_elem: &DocElement) -> (r: Result<Protocol, SchemaError>)
    ensures
        match r {
            Ok(p) => spec_parse_protocol(*protocol_elem) == Ok::<ProtocolView, SchemaErrorView>(
                p@,
            ),
            Err(er) => spec_parse_protocol(*protocol_elem) == Err::<ProtocolView, SchemaErrorView>(
                er@,
            ),
        },
{
    let name = match protocol_elem.attribute_value("name") {
        Some(n) => n.clone(),
        None => {
            return Err(SchemaError::MissingAttribute {
                element: protocol_elem.name.clone(),
                attribute: String::from_str("name"),
            });
        },
    };
    let mut interfaces: Vec<Interface> = Vec::new();
    proof {
        assert(protocol_elem.children@.take(0) =~= Seq::<DocNode>::empty());
        assert(interfaces@.map_values(|iv: Interface| iv@) =~= Seq::<InterfaceView>::empty());
    }
    let mut i: usize = 0;
    while i < protocol_elem.children.len()
        invariant
            0 <= i <= protocol_elem.children@.len(),
            spec_attr(protocol_elem.attributes@, "name"@) is Some,
            spec_protocol_children(protocol_elem.children@.take(i as int)) == Ok::<
                Seq<InterfaceView>,
                SchemaErrorView,
            >(interfaces@.map_values(|iv: Interface| iv@)),
        decreases protocol_elem.children@.len() - i,
    {
        proof {
            assert(protocol_elem.children@.take(i + 1).drop_last() =~= protocol_elem.children@.take(
                i as int,
            ));
            assert(protocol_elem.children@.take(i + 1).last() == protocol_elem.children@[
                i as int
            ]);
        }
        let node = &protocol_elem.children[i];
        proof {
            assert(*node == protocol_elem.children@[i as int]);
        }
        match node {
            DocNode::Element(child_elem) => {
                if child_elem.is_named("interface") {
                    match process_interface(child_elem) {
                        Ok(iface) => {
                            let ghost old_is = interfaces@;
                            interfaces.push(iface);
                            proof {
                                assert(interfaces@.map_values(|iv: Interface| iv@)
                                    =~= old_is.map_values(|iv: Interface| iv@).push(
                                    interfaces@.last()@,
                                ));
                            }
                        },
                        Err(er) => {
                            proof {
                                lemma_protocol_children_err(protocol_elem.children@, i + 1);
                            }
                            return Err(er);
                        },
                    }
                }
            },
            _ => {},
        }
        i += 1;
    }
    proof {
        assert(protocol_elem.children@.take(protocol_elem.children@.len() as int)
            =~= protocol_elem.children@);
    }
    Ok(Protocol { name, interfaces })
}

/// Parses a whole document: there must be exactly one top-level element,
/// and it must be the protocol element.
pub fn parse_protocol_document(children: &Vec<DocNode>) -> (r: Result<Protocol, SchemaError>)
    ensures
        match r {
            Ok(p) => spec_parse_document(children@) == Ok::<ProtocolView, SchemaErrorView>(p@),
            Err(er) => spec_parse_document(children@) == Err::<ProtocolView, SchemaErrorView>(
                er@,
            ),
        },
{
    let mut elems: Vec<&DocElement> = Vec::new();
    proof {
        assert(children@.take(0) =~= Seq::<DocNode>::empty());
        assert(elems@.map_values(|e: &DocElement| *e) =~= Seq::<DocElement>::empty());
    }
    let mut i: usize = 0;
    while i < children.len()
        invariant
            0 <= i <= children@.len(),
            elems@.map_values(|e: &DocElement| *e) =~= spec_doc_elements(children@.take(i as int)),
        decreases children@.len() - i,
    {
        proof {
            assert(children@.take(i + 1).drop_last() =~= children@.take(i as int));
            assert(children@.take(i + 1).last() == children@[i as int]);
        }
        let node = &children[i];
        proof {
            assert(*node == children@[i as int]);
        }
        match node {
            DocNode::Element(e) => {
                let ghost old_es = elems@;
                elems.push(e);
                proof {
                    assert(elems@.map_values(|e: &DocElement| *e) =~= old_es.map_values(
                        |e: &DocElement| *e,
                    ).push(*elems@.last()));
                }
            },
            _ => {},
        }
        i += 1;
    }
    proof {
        assert(children@.take(children@.len() as int) =~= children@);
    }
    let root_elem = match elems.single() {
        Ok(e) => e,
        Err(SingleIterError::NoItem) => {
            return Err(SchemaError::NoRootElement);
        },
        Err(SingleIterError::MultipleItems { .. }) => {
            return Err(SchemaError::MultipleRootElements);
        },
    };
    if !root_elem.is_named("protocol") {
        return Err(SchemaError::RootNotProtocol);
    }
    process_protocol(root_elem)
}

} // verus!
