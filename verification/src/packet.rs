//! The wire codec: the `Packet` value type together with the encode and
//! decode primitives that enforce the wire layout.
//!
//! All scalar fields are encoded as 32-bit little-endian words.  Strings and
//! arrays carry a 32-bit length prefix and are zero-padded to a multiple of
//! four bytes.  A serialized packet is an 8-byte header followed by the
//! payload: bytes 0 to 3 hold the object id, bytes 4 to 7 a packed word whose
//! upper 16 bits are the total length and whose lower 16 bits are the opcode.

use vstd::prelude::*;
use vstd::bytes::{spec_u32_to_le_bytes, spec_u32_from_le_bytes, u32_to_le_bytes, u32_from_le_bytes};
use vstd::bytes::lemma_auto_spec_u32_to_from_le_bytes;
use vstd::slice::{slice_subrange, slice_to_vec};
use vstd::string::StringSliceAdditionalSpecFns;
use vstd::utf8::{valid_utf8, decode_utf8, encode_utf8};

use crate::ObjectId;
use crate::error::Error;
use crate::fixed::Fixed;

verus! {

/// The serialized form of a packet must not exceed this many bytes: the
/// header packs the total length into 16 bits.
pub const MAX_PACKET_SIZE: usize = 65535;

/// How many zero bytes pad a span of `n` bytes to a multiple of four.
pub open spec fn spec_pad4(n: int) -> int {
    if n % 4 == 0 {
        0
    } else {
        4 - (n % 4)
    }
}

/// Clamps a mathematical length to the machine's address range.
pub open spec fn spec_saturate_usize(n: int) -> usize {
    if n <= usize::MAX {
        n as usize
    } else {
        usize::MAX
    }
}

/// A run of zero bytes.
pub open spec fn zero_bytes(n: int) -> Seq<u8> {
    Seq::new(n as nat, |i| 0u8)
}

/// The unsigned word holding the same 32 bits as a signed value.
pub open spec fn spec_u32_of_i32(v: i32) -> u32 {
    if v >= 0 {
        v as u32
    } else {
        (v + 0x1_0000_0000) as u32
    }
}

/// The signed value holding the same 32 bits as an unsigned word.
pub open spec fn spec_i32_of_u32(v: u32) -> i32 {
    if v < 0x8000_0000 {
        v as i32
    } else {
        (v - 0x1_0000_0000) as i32
    }
}

/// The two conversions between signed and unsigned words invert each other.
pub proof fn lemma_u32_i32_round_trip(v: i32)
    ensures
        spec_i32_of_u32(spec_u32_of_i32(v)) == v,
{
}

/// The encoding of an unsigned scalar argument: 4 bytes, little endian.
pub open spec fn spec_enc_uint(v: u32) -> Seq<u8> {
    spec_u32_to_le_bytes(v)
}

/// The encoding of a signed scalar argument.
pub open spec fn spec_enc_int(v: i32) -> Seq<u8> {
    spec_enc_uint(spec_u32_of_i32(v))
}

/// The encoding of a string argument whose UTF-8 bytes are `b`: a 32-bit
/// length that counts the trailing NUL, the bytes, the NUL, and zero padding
/// to a multiple of four.
pub open spec fn spec_enc_strfield(b: Seq<u8>) -> Seq<u8> {
    spec_enc_uint((b.len() + 1) as u32) + b + seq![0u8] + zero_bytes(spec_pad4(b.len() as int + 1))
}

/// The encoding of an array argument: a 32-bit byte length without a NUL,
/// the bytes, and zero padding to a multiple of four.
pub open spec fn spec_enc_array(b: Seq<u8>) -> Seq<u8> {
    spec_enc_uint(b.len() as u32) + b + zero_bytes(spec_pad4(b.len() as int))
}

/// The header word that packs the total length (upper 16 bits) over the
/// opcode (lower 16 bits).
pub open spec fn spec_packed_word(total: int, opcode: u16) -> u32
    recommends
        0 <= total <= 0xFFFF,
{
    (total * 0x10000 + opcode) as u32
}

/// What a packet carries, as mathematical values.
pub ghost struct PacketView {
    /// The target (or source) object id.
    pub object_id: u32,
    /// Which request or event the packet encodes.
    pub opcode: u16,
    /// The argument bytes.
    pub payload: Seq<u8>,
    /// The out-of-band resource handles, in declared order.
    pub fds: Seq<i32>,
}

/// The serialized form: 8-byte header, then the payload.
pub open spec fn spec_serialize(pv: PacketView) -> Seq<u8> {
    spec_enc_uint(pv.object_id) + spec_enc_uint(
        spec_packed_word(8 + pv.payload.len() as int, pv.opcode),
    ) + pv.payload
}

/// A string or array span (length field, data, terminator if any, padding)
/// always occupies a multiple of four bytes.
pub proof fn lemma_strfield_padding(b: Seq<u8>)
    ensures
        spec_enc_strfield(b).len() % 4 == 0,
        spec_enc_strfield(b).len() == 4 + b.len() + 1 + spec_pad4(b.len() as int + 1),
{
    lemma_auto_spec_u32_to_from_le_bytes();
}

/// The array analogue of [`lemma_strfield_padding`].
pub proof fn lemma_array_padding(b: Seq<u8>)
    ensures
        spec_enc_array(b).len() % 4 == 0,
        spec_enc_array(b).len() == 4 + b.len() + spec_pad4(b.len() as int),
{
    lemma_auto_spec_u32_to_from_le_bytes();
}

/// A serialized packet is exactly 8 bytes longer than its payload.
pub proof fn lemma_serialized_size(pv: PacketView)
    ensures
        spec_serialize(pv).len() == 8 + pv.payload.len(),
{
    lemma_auto_spec_u32_to_from_le_bytes();
}

/// Appends all of `src` to `dst`.
fn push_bytes(dst: &mut Vec<u8>, src: &[u8])
    ensures
        final(dst)@ == old(dst)@ + src@,
{
    let ghost orig = dst@;
    let mut i: usize = 0;
    while i < src.len()
        invariant
            0 <= i <= src@.len(),
            dst@ == orig + src@.take(i as int),
        decreases src@.len() - i,
    {
        dst.push(src[i]);
        i += 1;
        proof {
            assert(src@.take(i as int) == src@.take(i - 1).push(src@[i - 1]));
        }
    }
    proof {
        assert(src@.take(src@.len() as int) == src@);
    }
}

/// Appends `n` zero bytes to `dst`.
fn push_zero_bytes(dst: &mut Vec<u8>, n: usize)
    ensures
        final(dst)@ == old(dst)@ + zero_bytes(n as int),
{
    let ghost orig = dst@;
    let mut i: usize = 0;
    while i < n
        invariant
            0 <= i <= n,
            dst@ == orig + zero_bytes(i as int),
        decreases n - i,
    {
        dst.push(0u8);
        i += 1;
        proof {
            assert(zero_bytes(i as int) == zero_bytes(i - 1).push(0u8));
        }
    }
}

/// How many zero bytes pad a span of `n` bytes to a multiple of four.
fn pad4(n: usize) -> (r: usize)
    ensures
        r as int == spec_pad4(n as int),
{
    (4 - (n % 4)) % 4
}

/// Relies on std's `str::from_utf8`: it succeeds exactly on valid UTF-8
/// input and yields the characters that the bytes encode.
#[verifier::external_body]
pub(crate) fn bytes_to_string(b: &[u8]) -> (r: Option<String>)
    ensures
        r is Some <==> valid_utf8(b@),
        r matches Some(s) ==> s@ == decode_utf8(b@),
{
    std::str::from_utf8(b).ok().map(|s| s.to_owned())
}

/// One protocol message: a target object, an opcode, the argument bytes and
/// the ordered list of out-of-band resource handles.
#[derive(Clone, Debug, Eq, PartialEq)]
pub struct Packet {
    object_id: ObjectId,
    opcode: u16,
    payload: Vec<u8>,
    fds: Vec<i32>,
}

impl View for Packet {
    type V = PacketView;

    closed spec fn view(&self) -> PacketView {
        PacketView {
            object_id: self.object_id.0,
            opcode: self.opcode,
            payload: self.payload@,
            fds: self.fds@,
        }
    }
}

impl Packet {
    /// An empty packet addressed to `object_id` with the given opcode.
    pub fn new(object_id: ObjectId, opcode: u16) -> (r: Self)
        ensures
            r@ == (PacketView { object_id: object_id.0, opcode, payload: Seq::empty(), fds: Seq::empty() }),
    {
        Self { object_id, opcode, payload: Vec::new(), fds: Vec::new() }
    }

    /// A packet assembled from already-decoded parts.
    pub fn new_from_existing(object_id: ObjectId, opcode: u16, payload: Vec<u8>, fds: Vec<i32>) -> (r: Self)
        ensures
            r@ == (PacketView { object_id: object_id.0, opcode, payload: payload@, fds: fds@ }),
    {
        Self { object_id, opcode, payload, fds }
    }

    /// The target object id.
    pub fn object_id(&self) -> (r: ObjectId)
        ensures
            r.0 == self@.object_id,
    {
        self.object_id
    }

    /// The opcode.
    pub fn opcode(&self) -> (r: u16)
        ensures
            r == self@.opcode,
    {
        self.opcode
    }

    /// Replaces the target object id.
    pub fn set_object_id(&mut self, new_value: ObjectId)
        ensures
            final(self)@ == (PacketView { object_id: new_value.0, ..old(self)@ }),
    {
        self.object_id = new_value;
    }

    /// Replaces the opcode.
    pub fn set_opcode(&mut self, new_value: u16)
        ensures
            final(self)@ == (PacketView { opcode: new_value, ..old(self)@ }),
    {
        self.opcode = new_value;
    }

    /// Appends an unsigned scalar argument to the payload.
    pub fn push_uint(&mut self, value: u32)
        ensures
            final(self)@ == (PacketView { payload: old(self)@.payload + spec_enc_uint(value), ..old(self)@ }),
    {
        let bs = u32_to_le_bytes(value);
        push_bytes(&mut self.payload, bs.as_slice());
    }

    /// Appends a signed scalar argument to the payload.
    pub fn push_int(&mut self, value: i32)
        ensures
            final(self)@ == (PacketView { payload: old(self)@.payload + spec_enc_int(value), ..old(self)@ }),
    {
        let word: u32 = if value >= 0 {
            value as u32
        } else {
            ((value as i64) + 0x1_0000_0000) as u32
        };
        self.push_uint(word);
    }

    /// Appends a fixed-point scalar argument to the payload.
    pub fn push_fixed(&mut self, value: Fixed)
        ensures
            final(self)@ == (PacketView {
                payload: old(self)@.payload + spec_enc_int(value.spec_inner_i32()),
                ..old(self)@
            }),
    {
        self.push_int(value.inner_value());
    }

    /// Appends a string argument: length including the trailing NUL, the
    /// UTF-8 bytes, the NUL, and padding to a multiple of four.
    ///
    /// The protocol cannot carry interior NULs, and the length field must
    /// fit in 32 bits.
    pub fn push_str(&mut self, value: &str)
        requires
            forall|i: int| 0 <= i < value.spec_bytes().len() ==> value.spec_bytes()[i] != 0,
            value.spec_bytes().len() + 1 <= u32::MAX,
        ensures
            final(self)@ == (PacketView {
                payload: old(self)@.payload + spec_enc_strfield(value.spec_bytes()),
                ..old(self)@
            }),
    {
        let bytes = value.as_bytes();
        let len_with_nul = bytes.len() + 1;
        let lwn_u32: u32 = len_with_nul as u32;
        let bs = u32_to_le_bytes(lwn_u32);
        push_bytes(&mut self.payload, bs.as_slice());
        push_bytes(&mut self.payload, bytes);
        self.payload.push(0x00);
        let realign_count = pad4(len_with_nul);
        push_zero_bytes(&mut self.payload, realign_count);
        proof {
            assert(final(self)@.payload =~= old(self)@.payload + spec_enc_strfield(
                value.spec_bytes(),
            ));
        }
    }

    /// Appends an array argument: byte length, the bytes, and padding to a
    /// multiple of four.
    pub fn push_array(&mut self, array: &[u8])
        requires
            array@.len() <= u32::MAX,
        ensures
            final(self)@ == (PacketView {
                payload: old(self)@.payload + spec_enc_array(array@),
                ..old(self)@
            }),
    {
        let len = array.len();
        let len_u32: u32 = len as u32;
        let bs = u32_to_le_bytes(len_u32);
        push_bytes(&mut self.payload, bs.as_slice());
        push_bytes(&mut self.payload, array);
        let realign_count = pad4(len);
        push_zero_bytes(&mut self.payload, realign_count);
        proof {
            assert(final(self)@.payload =~= old(self)@.payload + spec_enc_array(array@));
        }
    }

    /// Appends an object reference: the id's number, or zero for null.
    pub fn push_object(&mut self, obj_id: Option<ObjectId>)
        ensures
            final(self)@ == (PacketView {
                payload: old(self)@.payload + spec_enc_uint(
                    match obj_id {
                        Some(oi) => oi.0,
                        None => 0,
                    },
                ),
                ..old(self)@
            }),
    {
        match obj_id {
            Some(oi) => self.push_uint(oi.0),
            None => self.push_uint(0),
        }
    }

    /// Appends a new-id argument whose interface the schema fixes: just the
    /// numeric id.
    pub fn push_new_id_known_interface(&mut self, new_id: crate::NewObjectId)
        ensures
            final(self)@ == (PacketView {
                payload: old(self)@.payload + spec_enc_uint(new_id.0.0),
                ..old(self)@
            }),
    {
        self.push_object(Some(new_id.0));
    }

    /// Appends a new-id argument whose interface is not known statically:
    /// the interface name as a string, the version, then the id.
    pub fn push_new_id_unknown_interface(&mut self, new_obj: &crate::NewObject)
        requires
            forall|i: int|
                0 <= i < encode_utf8(new_obj.interface@).len() ==> encode_utf8(
                    new_obj.interface@,
                )[i] != 0,
            encode_utf8(new_obj.interface@).len() + 1 <= u32::MAX,
        ensures
            final(self)@ == (PacketView {
                payload: old(self)@.payload + spec_enc_strfield(encode_utf8(new_obj.interface@))
                    + spec_enc_uint(new_obj.interface_version) + spec_enc_uint(
                    new_obj.object_id.0,
                ),
                ..old(self)@
            }),
    {
        self.push_str(new_obj.interface.as_str());
        self.push_uint(new_obj.interface_version);
        self.push_object(Some(new_obj.object_id));
        proof {
            assert(final(self)@.payload =~= old(self)@.payload + spec_enc_strfield(
                encode_utf8(new_obj.interface@),
            ) + spec_enc_uint(new_obj.interface_version) + spec_enc_uint(new_obj.object_id.0));
        }
    }

    /// Appends a resource handle to the out-of-band handle list.
    pub fn push_fd(&mut self, fd: i32)
        ensures
            final(self)@ == (PacketView { fds: old(self)@.fds.push(fd), ..old(self)@ }),
    {
        self.fds.push(fd);
    }

    /// Discards the payload and the handle list, keeping id and opcode.
    pub fn clear_payload(&mut self)
        ensures
            final(self)@ == (PacketView {
                payload: Seq::empty(),
                fds: Seq::empty(),
                ..old(self)@
            }),
    {
        self.payload.clear();
        self.fds.clear();
    }

    /// The out-of-band handle list.
    pub fn fds(&self) -> (r: &[i32])
        ensures
            r@ == self@.fds,
    {
        self.fds.as_slice()
    }

    /// Serializes the packet: the 8-byte header followed by the payload.
    ///
    /// Fails with the too-long error exactly when header plus payload would
    /// exceed the 16-bit length field.
    pub fn serialize(&self) -> (r: Result<Vec<u8>, Error>)
        ensures
            8 + self@.payload.len() <= MAX_PACKET_SIZE ==> (r matches Ok(buf) && buf@
                == spec_serialize(self@) && buf@.len() == 8 + self@.payload.len()),
            8 + self@.payload.len() > MAX_PACKET_SIZE ==> r == Err::<Vec<u8>, Error>(
                Error::PacketTooLong {
                    actual: spec_saturate_usize(8 + self@.payload.len() as int),
                    maximum: MAX_PACKET_SIZE,
                },
            ),
    {
        if self.payload.len() > MAX_PACKET_SIZE - 8 {
            return Err(Error::PacketTooLong {
                actual: self.payload.len().saturating_add(8),
                maximum: MAX_PACKET_SIZE,
            });
        }
        let total_bytes: usize = 8 + self.payload.len();
        let total_u32: u32 = total_bytes as u32;
        let packed: u32 = total_u32 * 0x10000 + (self.opcode as u32);
        let mut buf: Vec<u8> = Vec::new();
        let id_bytes = u32_to_le_bytes(self.object_id.0);
        push_bytes(&mut buf, id_bytes.as_slice());
        let packed_bytes = u32_to_le_bytes(packed);
        push_bytes(&mut buf, packed_bytes.as_slice());
        push_bytes(&mut buf, self.payload.as_slice());
        proof {
            lemma_auto_spec_u32_to_from_le_bytes();
            assert(buf@ =~= spec_serialize(self@));
        }
        Ok(buf)
    }

    /// A cursor for decoding this packet's arguments in declared order.
    pub fn read(&self) -> (r: PacketReader<'_>)
        ensures
            r.packet_view() == self@,
            r.payload_pos() == 0,
            r.fd_pos() == 0,
    {
        PacketReader { packet: self, payload_pos: 0, fd_pos: 0 }
    }
}

/// Checks `payload.len() + 8 <= MAX_PACKET_SIZE`, the serializability bound,
/// without serializing.
pub open spec fn spec_packet_fits(pv: PacketView) -> bool {
    8 + pv.payload.len() <= MAX_PACKET_SIZE
}

/// A decoded packet header.
#[derive(Clone, Copy, Debug, Eq, PartialEq, Structural)]
pub struct PacketHeader {
    /// The source (or target) object id.
    pub object_id: ObjectId,
    /// Which request or event the body encodes.
    pub opcode: u16,
    /// The declared total packet size, header included.
    pub total_size: usize,
}

/// Decodes the fixed 8-byte header.
///
/// Fails when the declared total size is below the 8 header bytes, or when
/// the object id is the reserved value zero.
pub fn parse_header(bytes: &[u8]) -> (r: Result<PacketHeader, Error>)
    requires
        bytes@.len() == 8,
    ensures
        ({
            let object_id = spec_u32_from_le_bytes(bytes@.subrange(0, 4));
            let word = spec_u32_from_le_bytes(bytes@.subrange(4, 8));
            let total = word / 0x10000;
            let opcode = word % 0x10000;
            if total < 8 {
                r == Err::<PacketHeader, Error>(Error::PacketTooShort {
                    actual: total as usize,
                    minimum: 8,
                })
            } else if object_id == 0 {
                r == Err::<PacketHeader, Error>(Error::ZeroObjectId)
            } else {
                r == Ok::<PacketHeader, Error>(PacketHeader {
                    object_id: ObjectId(object_id),
                    opcode: opcode as u16,
                    total_size: total as usize,
                })
            }
        }),
{
    let object_id = u32_from_le_bytes(slice_subrange(bytes, 0, 4));
    let word = u32_from_le_bytes(slice_subrange(bytes, 4, 8));
    let total: u32 = word / 0x10000;
    let opcode: u16 = (word % 0x10000) as u16;
    if total < 8 {
        Err(Error::PacketTooShort { actual: total as usize, minimum: 8 })
    } else if object_id == 0 {
        Err(Error::ZeroObjectId)
    } else {
        Ok(PacketHeader { object_id: ObjectId(object_id), opcode, total_size: total as usize })
    }
}

/// Decoding the serialized header recovers the object id and opcode, and the
/// recovered declared length equals the serialized buffer's actual length.
pub proof fn lemma_header_round_trip(pv: PacketView)
    requires
        spec_packet_fits(pv),
        pv.object_id != 0,
    ensures
        ({
            let ser = spec_serialize(pv);
            let object_id = spec_u32_from_le_bytes(ser.subrange(0, 4));
            let word = spec_u32_from_le_bytes(ser.subrange(4, 8));
            &&& object_id == pv.object_id
            &&& word / 0x10000 == ser.len()
            &&& word % 0x10000 == pv.opcode
            &&& ser.subrange(8, ser.len() as int) == pv.payload
        }),
{
    lemma_auto_spec_u32_to_from_le_bytes();
    let ser = spec_serialize(pv);
    let total = 8 + pv.payload.len() as int;
    let packed = spec_packed_word(total, pv.opcode);
    assert(ser.subrange(0, 4) =~= spec_u32_to_le_bytes(pv.object_id));
    assert(ser.subrange(4, 8) =~= spec_u32_to_le_bytes(packed));
    assert(packed == total * 0x10000 + pv.opcode);
    assert(packed / 0x10000 == total && packed % 0x10000 == pv.opcode) by (nonlinear_arith)
        requires
            packed == total * 0x10000 + pv.opcode,
            8 <= total <= 0xFFFF,
            0 <= pv.opcode < 0x10000,
    ;
    assert(ser.subrange(8, ser.len() as int) =~= pv.payload);
}


/// Decoding an encoded unsigned scalar recovers it.
pub proof fn lemma_uint_round_trip(v: u32)
    ensures
        spec_u32_from_le_bytes(spec_enc_uint(v)) == v,
{
    lemma_auto_spec_u32_to_from_le_bytes();
    assert(spec_u32_to_le_bytes(v).len() == 4);
}

/// Decoding an encoded signed scalar recovers it.
pub proof fn lemma_int_round_trip(v: i32)
    ensures
        spec_i32_of_u32(spec_u32_from_le_bytes(spec_enc_int(v))) == v,
{
    lemma_auto_spec_u32_to_from_le_bytes();
    assert(spec_u32_to_le_bytes(spec_u32_of_i32(v)).len() == 4);
}

/// Decoding an encoded object reference recovers it: a null reference
/// encodes as zero, a concrete id as its (non-zero) number.
pub proof fn lemma_object_round_trip(obj_id: Option<ObjectId>)
    requires
        obj_id matches Some(oi) ==> oi.0 != 0,
    ensures
        ({
            let word = spec_u32_from_le_bytes(
                spec_enc_uint(
                    match obj_id {
                        Some(oi) => oi.0,
                        None => 0,
                    },
                ),
            );
            obj_id == if word == 0 {
                None::<ObjectId>
            } else {
                Some(ObjectId(word))
            }
        }),
{
    lemma_auto_spec_u32_to_from_le_bytes();
    assert(spec_u32_to_le_bytes(
        match obj_id {
            Some(oi) => oi.0,
            None => 0,
        },
    ).len() == 4);
}

/// Reading a string field from its own encoding succeeds and recovers the
/// encoded characters: the length is declared as the byte count plus the
/// NUL, the NUL sits exactly at the declared length, and the bytes decode
/// to the original characters.
pub proof fn lemma_strfield_round_trip(payload: Seq<u8>, pos: int, s: Seq<char>)
    requires
        0 <= pos,
        pos + spec_enc_strfield(encode_utf8(s)).len() <= payload.len(),
        payload.subrange(pos, pos + spec_enc_strfield(encode_utf8(s)).len()) == spec_enc_strfield(
            encode_utf8(s),
        ),
        forall|i: int| 0 <= i < encode_utf8(s).len() ==> encode_utf8(s)[i] != 0,
        encode_utf8(s).len() + 1 <= u32::MAX,
    ensures
        ({
            let b = encode_utf8(s);
            let l = spec_u32_from_le_bytes(payload.subrange(pos, pos + 4)) as int;
            let slice = payload.subrange(pos + 4, pos + 4 + l);
            let content = payload.subrange(pos + 4, pos + 4 + l - 1);
            &&& l == b.len() + 1
            &&& pos + 4 + l + spec_pad4(l) <= payload.len()
            &&& l >= 1 && slice[l - 1] == 0 && (forall|i: int| 0 <= i < l - 1 ==> slice[i] != 0)
            &&& content == b
            &&& valid_utf8(content)
            &&& decode_utf8(content) == s
        }),
{
    lemma_auto_spec_u32_to_from_le_bytes();
    let b = encode_utf8(s);
    let enc = spec_enc_strfield(b);
    let lb = b.len() as int;
    assert(spec_u32_to_le_bytes((lb + 1) as u32).len() == 4);
    assert(payload.subrange(pos, pos + 4) =~= spec_u32_to_le_bytes((lb + 1) as u32)) by {
        assert(forall|i: int|
            0 <= i < 4 ==> payload.subrange(pos, pos + enc.len() as int)[i] == enc[i]);
    }
    let l = spec_u32_from_le_bytes(payload.subrange(pos, pos + 4)) as int;
    assert(l == lb + 1);
    assert forall|i: int| 0 <= i < l implies payload.subrange(pos + 4, pos + 4 + l)[i] == (b
        + seq![0u8])[i] by {
        assert(payload.subrange(pos, pos + enc.len() as int)[i + 4] == enc[i + 4]);
    }
    assert(payload.subrange(pos + 4, pos + 4 + l) =~= b + seq![0u8]);
    assert forall|i: int| 0 <= i < l - 1 implies payload.subrange(pos + 4, pos + 4 + l - 1)[i]
        == b[i] by {
        assert(payload.subrange(pos, pos + enc.len() as int)[i + 4] == enc[i + 4]);
    }
    assert(payload.subrange(pos + 4, pos + 4 + l - 1) =~= b);
    broadcast use vstd::utf8::encode_utf8_valid_utf8;

    vstd::utf8::encode_utf8_decode_utf8(s);
}

/// Reading an array field from its own encoding succeeds and recovers the
/// encoded bytes.
pub proof fn lemma_array_round_trip(payload: Seq<u8>, pos: int, b: Seq<u8>)
    requires
        0 <= pos,
        pos + spec_enc_array(b).len() <= payload.len(),
        payload.subrange(pos, pos + spec_enc_array(b).len()) == spec_enc_array(b),
        b.len() <= u32::MAX,
    ensures
        ({
            let l = spec_u32_from_le_bytes(payload.subrange(pos, pos + 4)) as int;
            &&& l == b.len()
            &&& pos + 4 + l + spec_pad4(l) <= payload.len()
            &&& payload.subrange(pos + 4, pos + 4 + l) == b
        }),
{
    lemma_auto_spec_u32_to_from_le_bytes();
    let enc = spec_enc_array(b);
    let lb = b.len() as int;
    assert(spec_u32_to_le_bytes(lb as u32).len() == 4);
    assert(payload.subrange(pos, pos + 4) =~= spec_u32_to_le_bytes(lb as u32)) by {
        assert(forall|i: int|
            0 <= i < 4 ==> payload.subrange(pos, pos + enc.len() as int)[i] == enc[i]);
    }
    let l = spec_u32_from_le_bytes(payload.subrange(pos, pos + 4)) as int;
    assert forall|i: int| 0 <= i < l implies payload.subrange(pos + 4, pos + 4 + l)[i] == b[i] by {
        assert(payload.subrange(pos, pos + enc.len() as int)[i + 4] == enc[i + 4]);
    }
    assert(payload.subrange(pos + 4, pos + 4 + l) =~= b);
}

/// A cursor over one packet's payload and handle list.
///
/// Every primitive read checks the remaining length before consuming
/// anything and fails with a bounds error rather than reading out of range.
pub struct PacketReader<'a> {
    packet: &'a Packet,
    payload_pos: usize,
    fd_pos: usize,
}

impl<'a> PacketReader<'a> {
    /// Positions never run past the payload or the handle list.
    #[verifier::type_invariant]
    spec fn wf(self) -> bool {
        self.payload_pos <= self.packet.payload@.len() && self.fd_pos <= self.packet.fds@.len()
    }

    /// The packet being decoded, as mathematical values.
    pub closed spec fn packet_view(&self) -> PacketView {
        (*self.packet)@
    }

    /// How many payload bytes have been consumed.
    pub closed spec fn payload_pos(&self) -> int {
        self.payload_pos as int
    }

    /// How many handles have been consumed.
    pub closed spec fn fd_pos(&self) -> int {
        self.fd_pos as int
    }

    /// Reads one little-endian 32-bit word.
    pub fn read_uint(&mut self) -> (r: Result<u32, Error>)
        ensures
            final(self).packet_view() == old(self).packet_view(),
            final(self).fd_pos() == old(self).fd_pos(),
            ({
                let payload = old(self).packet_view().payload;
                let pos = old(self).payload_pos();
                if pos + 4 <= payload.len() {
                    &&& r == Ok::<u32, Error>(spec_u32_from_le_bytes(payload.subrange(pos, pos + 4)))
                    &&& final(self).payload_pos() == pos + 4
                } else {
                    &&& r == Err::<u32, Error>(Error::FieldOutOfBounds {
                        actual: spec_saturate_usize(pos + 4),
                        maximum: payload.len() as usize,
                    })
                    &&& final(self).payload_pos() == pos
                }
            }),
    {
        proof {
            use_type_invariant(&*self);
        }
        if self.packet.payload.len() - self.payload_pos < 4 {
            Err(Error::FieldOutOfBounds {
                actual: self.payload_pos.saturating_add(4),
                maximum: self.packet.payload.len(),
            })
        } else {
            let word = u32_from_le_bytes(
                slice_subrange(self.packet.payload.as_slice(), self.payload_pos, self.payload_pos + 4),
            );
            self.payload_pos = self.payload_pos + 4;
            Ok(word)
        }
    }

    /// Reads one signed 32-bit word.
    pub fn read_int(&mut self) -> (r: Result<i32, Error>)
        ensures
            final(self).packet_view() == old(self).packet_view(),
            final(self).fd_pos() == old(self).fd_pos(),
            ({
                let payload = old(self).packet_view().payload;
                let pos = old(self).payload_pos();
                if pos + 4 <= payload.len() {
                    &&& r == Ok::<i32, Error>(spec_i32_of_u32(
                        spec_u32_from_le_bytes(payload.subrange(pos, pos + 4)),
                    ))
                    &&& final(self).payload_pos() == pos + 4
                } else {
                    &&& r == Err::<i32, Error>(Error::FieldOutOfBounds {
                        actual: spec_saturate_usize(pos + 4),
                        maximum: payload.len() as usize,
                    })
                    &&& final(self).payload_pos() == pos
                }
            }),
    {
        match self.read_uint() {
            Ok(word) => {
                let v: i32 = if word < 0x8000_0000 {
                    word as i32
                } else {
                    ((word as i64) - 0x1_0000_0000) as i32
                };
                Ok(v)
            },
            Err(e) => Err(e),
        }
    }

    /// Reads one fixed-point scalar.
    pub fn read_fixed(&mut self) -> (r: Result<Fixed, Error>)
        ensures
            final(self).packet_view() == old(self).packet_view(),
            final(self).fd_pos() == old(self).fd_pos(),
            ({
                let payload = old(self).packet_view().payload;
                let pos = old(self).payload_pos();
                if pos + 4 <= payload.len() {
                    &&& r matches Ok(f) && f.spec_inner() == spec_i32_of_u32(
                        spec_u32_from_le_bytes(payload.subrange(pos, pos + 4)),
                    ) as int
                    &&& final(self).payload_pos() == pos + 4
                } else {
                    &&& r == Err::<Fixed, Error>(Error::FieldOutOfBounds {
                        actual: spec_saturate_usize(pos + 4),
                        maximum: payload.len() as usize,
                    })
                    &&& final(self).payload_pos() == pos
                }
            }),
    {
        match self.read_int() {
            Ok(v) => Ok(Fixed::from_inner_value(v)),
            Err(e) => Err(e),
        }
    }

    /// Reads an object reference; zero decodes as null.
    pub fn read_object(&mut self) -> (r: Result<Option<ObjectId>, Error>)
        ensures
            final(self).packet_view() == old(self).packet_view(),
            final(self).fd_pos() == old(self).fd_pos(),
            ({
                let payload = old(self).packet_view().payload;
                let pos = old(self).payload_pos();
                if pos + 4 <= payload.len() {
                    let word = spec_u32_from_le_bytes(payload.subrange(pos, pos + 4));
                    &&& r == Ok::<Option<ObjectId>, Error>(
                        if word == 0 {
                            None
                        } else {
                            Some(ObjectId(word))
                        },
                    )
                    &&& final(self).payload_pos() == pos + 4
                } else {
                    &&& r == Err::<Option<ObjectId>, Error>(Error::FieldOutOfBounds {
                        actual: spec_saturate_usize(pos + 4),
                        maximum: payload.len() as usize,
                    })
                    &&& final(self).payload_pos() == pos
                }
            }),
    {
        match self.read_uint() {
            Ok(word) => {
                if word == 0 {
                    Ok(None)
                } else {
                    Ok(Some(ObjectId(word)))
                }
            },
            Err(e) => Err(e),
        }
    }


    /// Reads a string argument: a length counting the trailing NUL, the
    /// bytes, the NUL, and padding to a multiple of four.
    ///
    /// A NUL that is not exactly at the declared length fails with the
    /// malformed-string error; bytes that are not valid UTF-8 fail with the
    /// distinct encoding error.
    pub fn read_str(&mut self) -> (r: Result<String, Error>)
        ensures
            final(self).packet_view() == old(self).packet_view(),
            final(self).fd_pos() == old(self).fd_pos(),
            ({
                let payload = old(self).packet_view().payload;
                let pos = old(self).payload_pos();
                let l = spec_u32_from_le_bytes(payload.subrange(pos, pos + 4)) as int;
                let padded = l + spec_pad4(l);
                let slice = payload.subrange(pos + 4, pos + 4 + l);
                let content = payload.subrange(pos + 4, pos + 4 + l - 1);
                let nul_ok = l >= 1 && slice[l - 1] == 0 && (forall|i: int|
                    0 <= i < l - 1 ==> slice[i] != 0);
                if pos + 4 > payload.len() {
                    &&& r == Err::<String, Error>(Error::FieldOutOfBounds {
                        actual: spec_saturate_usize(pos + 4),
                        maximum: payload.len() as usize,
                    })
                    &&& final(self).payload_pos() == pos
                } else if pos + 4 + padded > payload.len() {
                    &&& r == Err::<String, Error>(Error::FieldOutOfBounds {
                        actual: spec_saturate_usize(pos + 4 + padded),
                        maximum: payload.len() as usize,
                    })
                    &&& final(self).payload_pos() == pos
                } else if !nul_ok {
                    &&& final(self).payload_pos() == pos + 4 + padded
                    &&& r matches Err(e) && (e matches Error::StringMisplacedNul {
                        actual,
                        expected,
                    } && expected == if l == 0 {
                        0usize
                    } else {
                        (l - 1) as usize
                    } && (match actual {
                        Some(j) => 0 <= j < l && slice[j as int] == 0 && (forall|i: int|
                            0 <= i < j ==> slice[i] != 0),
                        None => forall|i: int| 0 <= i < l ==> slice[i] != 0,
                    }))
                } else if !valid_utf8(content) {
                    &&& final(self).payload_pos() == pos + 4 + padded
                    &&& r matches Err(e) && e matches Error::StringInvalidUtf8 { data } && data@
                        == content
                } else {
                    &&& final(self).payload_pos() == pos + 4 + padded
                    &&& r matches Ok(s) && s@ == decode_utf8(content)
                }
            }),
    {
        proof {
            use_type_invariant(&*self);
        }
        let payload_len = self.packet.payload.len();
        if payload_len - self.payload_pos < 4 {
            return Err(Error::FieldOutOfBounds {
                actual: self.payload_pos.saturating_add(4),
                maximum: payload_len,
            });
        }
        let len_u32 = u32_from_le_bytes(
            slice_subrange(self.packet.payload.as_slice(), self.payload_pos, self.payload_pos + 4),
        );
        let l: usize = len_u32 as usize;
        let pad: usize = pad4(l);
        let remaining_after_len: usize = payload_len - self.payload_pos - 4;
        if l > remaining_after_len || pad > remaining_after_len - l {
            return Err(Error::FieldOutOfBounds {
                actual: self.payload_pos.saturating_add(4).saturating_add(l).saturating_add(pad),
                maximum: payload_len,
            });
        }
        self.payload_pos = self.payload_pos + 4;
        let string_slice = slice_subrange(
            self.packet.payload.as_slice(),
            self.payload_pos,
            self.payload_pos + l,
        );
        self.payload_pos = self.payload_pos + l + pad;

        let ghost slice_view = string_slice@;
        let mut nul_pos: Option<usize> = None;
        let mut i: usize = 0;
        while i < l && nul_pos.is_none()
            invariant
                0 <= i <= l,
                string_slice@ == slice_view,
                l == slice_view.len(),
                nul_pos matches Some(j) ==> 0 <= j < l && slice_view[j as int] == 0 && (forall|
                k: int|
                    0 <= k < j ==> slice_view[k] != 0),
                nul_pos is None ==> forall|k: int| 0 <= k < i ==> slice_view[k] != 0,
            decreases l - i, (if nul_pos is None { 1int } else { 0int }),
        {
            if string_slice[i] == 0 {
                nul_pos = Some(i);
            } else {
                i += 1;
            }
        }
        proof {
            if nul_pos is None {
                assert(forall|k: int| 0 <= k < l ==> slice_view[k] != 0);
            }
        }

        let last_ok = match nul_pos {
            Some(j) => l >= 1 && j == l - 1,
            None => false,
        };
        if !last_ok {
            return Err(Error::StringMisplacedNul {
                actual: nul_pos,
                expected: if l == 0 {
                    0
                } else {
                    l - 1
                },
            });
        }

        let no_nul_slice = slice_subrange(string_slice, 0, l - 1);
        proof {
            assert(no_nul_slice@ =~= old(self).packet_view().payload.subrange(
                old(self).payload_pos() + 4,
                old(self).payload_pos() + 4 + l - 1,
            ));
        }
        match bytes_to_string(no_nul_slice) {
            Some(s) => Ok(s),
            None => Err(Error::StringInvalidUtf8 { data: slice_to_vec(no_nul_slice) }),
        }
    }

    /// Reads an array argument: a byte length, the bytes, and padding to a
    /// multiple of four.
    pub fn read_array(&mut self) -> (r: Result<Vec<u8>, Error>)
        ensures
            final(self).packet_view() == old(self).packet_view(),
            final(self).fd_pos() == old(self).fd_pos(),
            ({
                let payload = old(self).packet_view().payload;
                let pos = old(self).payload_pos();
                let l = spec_u32_from_le_bytes(payload.subrange(pos, pos + 4)) as int;
                let padded = l + spec_pad4(l);
                if pos + 4 > payload.len() {
                    &&& r == Err::<Vec<u8>, Error>(Error::FieldOutOfBounds {
                        actual: spec_saturate_usize(pos + 4),
                        maximum: payload.len() as usize,
                    })
                    &&& final(self).payload_pos() == pos
                } else if pos + 4 + padded > payload.len() {
                    &&& r == Err::<Vec<u8>, Error>(Error::FieldOutOfBounds {
                        actual: spec_saturate_usize(pos + 4 + padded),
                        maximum: payload.len() as usize,
                    })
                    &&& final(self).payload_pos() == pos
                } else {
                    &&& final(self).payload_pos() == pos + 4 + padded
                    &&& r matches Ok(bytes) && bytes@ == payload.subrange(pos + 4, pos + 4 + l)
                }
            }),
    {
        proof {
            use_type_invariant(&*self);
        }
        let payload_len = self.packet.payload.len();
        if payload_len - self.payload_pos < 4 {
            return Err(Error::FieldOutOfBounds {
                actual: self.payload_pos.saturating_add(4),
                maximum: payload_len,
            });
        }
        let len_u32 = u32_from_le_bytes(
            slice_subrange(self.packet.payload.as_slice(), self.payload_pos, self.payload_pos + 4),
        );
        let l: usize = len_u32 as usize;
        let pad: usize = pad4(l);
        let remaining_after_len: usize = payload_len - self.payload_pos - 4;
        if l > remaining_after_len || pad > remaining_after_len - l {
            return Err(Error::FieldOutOfBounds {
                actual: self.payload_pos.saturating_add(4).saturating_add(l).saturating_add(pad),
                maximum: payload_len,
            });
        }
        self.payload_pos = self.payload_pos + 4;
        let byte_slice = slice_subrange(
            self.packet.payload.as_slice(),
            self.payload_pos,
            self.payload_pos + l,
        );
        self.payload_pos = self.payload_pos + l + pad;
        Ok(slice_to_vec(byte_slice))
    }

    /// Takes the next resource handle from the out-of-band list.
    pub fn read_fd(&mut self) -> (r: Result<i32, Error>)
        ensures
            final(self).packet_view() == old(self).packet_view(),
            final(self).payload_pos() == old(self).payload_pos(),
            ({
                let fds = old(self).packet_view().fds;
                let pos = old(self).fd_pos();
                if pos < fds.len() {
                    &&& r == Ok::<i32, Error>(fds[pos])
                    &&& final(self).fd_pos() == pos + 1
                } else {
                    &&& r == Err::<i32, Error>(Error::FdOutOfBounds { total: fds.len() as usize })
                    &&& final(self).fd_pos() == pos
                }
            }),
    {
        proof {
            use_type_invariant(&*self);
        }
        if self.fd_pos >= self.packet.fds.len() {
            Err(Error::FdOutOfBounds { total: self.packet.fds.len() })
        } else {
            let fd = self.packet.fds[self.fd_pos];
            self.fd_pos = self.fd_pos + 1;
            Ok(fd)
        }
    }

    /// Succeeds only when the payload and the handle list have been read
    /// completely; anything left over signals a schema mismatch.
    pub fn finish(&self) -> (r: Result<(), Error>)
        ensures
            ({
                let pv = self.packet_view();
                if self.payload_pos() >= pv.payload.len() && self.fd_pos() >= pv.fds.len() {
                    r == Ok::<(), Error>(())
                } else {
                    r == Err::<(), Error>(Error::IncompleteRead {
                        read_bytes: self.payload_pos() as usize,
                        total_bytes: pv.payload.len() as usize,
                        read_fds: self.fd_pos() as usize,
                        total_fds: pv.fds.len() as usize,
                    })
                }
            }),
    {
        let all_read = self.payload_pos >= self.packet.payload.len() && self.fd_pos
            >= self.packet.fds.len();
        if all_read {
            Ok(())
        } else {
            Err(Error::IncompleteRead {
                read_bytes: self.payload_pos,
                total_bytes: self.packet.payload.len(),
                read_fds: self.fd_pos,
                total_fds: self.packet.fds.len(),
            })
        }
    }
}

} // verus!
