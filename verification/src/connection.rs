//! The connection runtime's verifiable core: object-identity allocation, the
//! id-to-handler registry, the receive reassembly state machine, and the
//! socket-path derivation.
//!
//! The socket itself, the two locks and the suspension points live with the
//! caller; everything here is a pure state machine over plain values, so a
//! caller that loops "read, feed, repeat" gets the framing guarantees below
//! whatever sizes its reads happen to return.

use vstd::prelude::*;
use vstd::map::*;
use vstd::bytes::spec_u32_from_le_bytes;

use crate::ObjectId;
use crate::error::Error;
use crate::packet::{parse_header, Packet, PacketHeader};

verus! {

/// What one allocation returns and leaves behind: the minted id, then the
/// new counter value.
///
/// The counter wraps past the maximum back to 1, skipping the reserved id
/// zero, exactly as a 32-bit fetch-and-add with a skip-zero retry does.
pub open spec fn spec_alloc(next: u32) -> (u32, u32) {
    if next == u32::MAX {
        (u32::MAX, 1)
    } else {
        (next, (next + 1) as u32)
    }
}

/// What observing a peer-assigned id leaves behind: the counter is raised
/// above the observed id.  Observing the maximum id is a no-op, as the
/// 32-bit fetch-max of the wrapped increment is.
pub open spec fn spec_seen(next: u32, observed: u32) -> u32 {
    if observed == u32::MAX {
        next
    } else if observed + 1 > next {
        (observed + 1) as u32
    } else {
        next
    }
}

/// Mints connection-local object ids from a monotonically increasing
/// counter that skips zero.
pub struct ObjectIdAllocator {
    next: u32,
}

impl ObjectIdAllocator {
    /// The counter never holds the reserved value zero.
    #[verifier::type_invariant]
    spec fn wf(self) -> bool {
        self.next >= 1
    }

    /// The next id the allocator will hand out, visible to specifications.
    pub closed spec fn next_spec(self) -> u32 {
        self.next
    }

    /// A fresh allocator; the first minted id is 1.
    pub fn new() -> (r: Self)
        ensures
            r.next_spec() == 1,
    {
        Self { next: 1 }
    }

    /// Mints the next object id.  The result is never zero.
    pub fn get_next_object_id(&mut self) -> (r: ObjectId)
        ensures
            r.0 != 0,
            r.0 == spec_alloc(old(self).next_spec()).0,
            final(self).next_spec() == spec_alloc(old(self).next_spec()).1,
    {
        proof {
            use_type_invariant(&*self);
        }
        let id = self.next;
        if self.next == u32::MAX {
            self.next = 1;
        } else {
            self.next = self.next + 1;
        }
        ObjectId(id)
    }

    /// Folds an id assigned by the peer into the counter, so that locally
    /// minted ids cannot collide with ids the peer already used.
    pub fn object_id_seen(&mut self, encountered_value: ObjectId)
        ensures
            final(self).next_spec() == spec_seen(old(self).next_spec(), encountered_value.0),
    {
        proof {
            use_type_invariant(&*self);
        }
        if encountered_value.0 < u32::MAX {
            if encountered_value.0 + 1 > self.next {
                self.next = encountered_value.0 + 1;
            }
        }
    }
}

/// Counters below the wrap point mint strictly increasing nonzero ids:
/// each allocation returns the counter and leaves a larger one behind, so
/// the next allocation returns a strictly larger id.
pub proof fn lemma_allocation_strictly_increasing(next: u32)
    requires
        1 <= next < u32::MAX,
    ensures
        spec_alloc(next).0 == next,
        spec_alloc(next).1 > next,
        spec_alloc(spec_alloc(next).1).0 > spec_alloc(next).0,
        spec_alloc(next).0 != 0,
        spec_alloc(spec_alloc(next).1).0 != 0,
{
}

/// After observing id X, the very next allocation returns an id greater
/// than X.
pub proof fn lemma_seen_then_alloc_greater(next: u32, observed: u32)
    requires
        next >= 1,
        observed < u32::MAX,
    ensures
        spec_alloc(spec_seen(next, observed)).0 > observed,
{
}

/// Maps object ids to the handlers registered for them.
///
/// The registry holds exactly one handler per id; registering a handler for
/// an id that already has one silently replaces the old handler.
pub struct HandlerRegistry<H> {
    items: Vec<(u32, H)>,
}

/// The mapping an association list denotes, later entries winning.
pub open spec fn spec_assoc_map<H>(s: Seq<(u32, H)>) -> Map<u32, H>
    decreases s.len(),
{
    if s.len() == 0 {
        Map::empty()
    } else {
        spec_assoc_map(s.drop_last()).insert(s.last().0, s.last().1)
    }
}

/// Every listed key is in the denoted map; with unique keys, it maps to the
/// listed value.
proof fn lemma_assoc_map_index<H>(s: Seq<(u32, H)>, i: int)
    requires
        0 <= i < s.len(),
        forall|a: int, b: int| 0 <= a < b < s.len() ==> s[a].0 != s[b].0,
    ensures
        spec_assoc_map(s).contains_key(s[i].0),
        spec_assoc_map(s)[s[i].0] == s[i].1,
    decreases s.len(),
{
    if i == s.len() - 1 {
    } else {
        lemma_assoc_map_index(s.drop_last(), i);
        assert(s.drop_last()[i] == s[i]);
    }
}

/// A key listed nowhere is not in the denoted map.
proof fn lemma_assoc_map_absent<H>(s: Seq<(u32, H)>, k: u32)
    requires
        forall|a: int| 0 <= a < s.len() ==> s[a].0 != k,
    ensures
        !spec_assoc_map(s).contains_key(k),
    decreases s.len(),
{
    if s.len() > 0 {
        lemma_assoc_map_absent(s.drop_last(), k);
    }
}

/// Appending a fresh entry denotes insertion.
proof fn lemma_assoc_map_push<H>(s: Seq<(u32, H)>, k: u32, h: H)
    ensures
        spec_assoc_map(s.push((k, h))) == spec_assoc_map(s).insert(k, h),
{
    assert(s.push((k, h)).drop_last() =~= s);
}

impl<H> HandlerRegistry<H> {
    /// No id is listed twice.  Constructors establish this and every method
    /// preserves it.
    pub closed spec fn well_formed(self) -> bool {
        forall|a: int, b: int|
            0 <= a < b < self.items@.len() ==> self.items@[a].0 != self.items@[b].0
    }

    /// The id-to-handler mapping, visible to specifications.
    pub closed spec fn view(self) -> Map<u32, H> {
        spec_assoc_map(self.items@)
    }

    /// An empty registry.
    pub fn new() -> (r: Self)
        ensures
            r@ == Map::<u32, H>::empty(),
            r.well_formed(),
    {
        Self { items: Vec::new() }
    }

    /// Installs `handler` as the one handler for `object_id`, silently
    /// replacing any prior handler for that id.
    pub fn register_handler(&mut self, object_id: ObjectId, handler: H)
        requires
            old(self).well_formed(),
        ensures
            final(self)@ == old(self)@.insert(object_id.0, handler),
            final(self).well_formed(),
    {
        let ghost orig = self.items@;
        let mut i: usize = 0;
        while i < self.items.len()
            invariant
                0 <= i <= self.items@.len(),
                self.items@ == orig,
                orig == old(self).items@,
                forall|a: int, b: int| 0 <= a < b < orig.len() ==> orig[a].0 != orig[b].0,
                forall|a: int| 0 <= a < i ==> self.items@[a].0 != object_id.0,
            decreases self.items@.len() - i,
        {
            if self.items[i].0 == object_id.0 {
                self.items.remove(i);
                self.items.push((object_id.0, handler));
                proof {
                    let removed = orig.remove(i as int);
                    assert(forall|a: int, b: int|
                        0 <= a < b < removed.len() ==> removed[a].0 != removed[b].0);
                    lemma_assoc_map_push(removed, object_id.0, handler);
                    assert_maps_equal!(
                        spec_assoc_map(removed).insert(object_id.0, handler),
                        spec_assoc_map(orig).insert(object_id.0, handler),
                        k => {
                            if k == object_id.0 {
                            } else {
                                let present = exists|a: int|
                                    0 <= a < orig.len() && orig[a].0 == k;
                                if present {
                                    let a = choose|a: int|
                                        0 <= a < orig.len() && orig[a].0 == k;
                                    lemma_assoc_map_index(orig, a);
                                    if a < i {
                                        assert(removed[a] == orig[a]);
                                        lemma_assoc_map_index(removed, a);
                                    } else {
                                        assert(a > i);
                                        assert(removed[a - 1] == orig[a]);
                                        lemma_assoc_map_index(removed, a - 1);
                                    }
                                } else {
                                    assert(forall|a: int|
                                        0 <= a < orig.len() ==> orig[a].0 != k);
                                    lemma_assoc_map_absent(orig, k);
                                    assert(forall|a: int|
                                        0 <= a < removed.len() ==> removed[a].0 != k);
                                    lemma_assoc_map_absent(removed, k);
                                }
                            }
                        }
                    );
                }
                return ;
            }
            i += 1;
        }
        self.items.push((object_id.0, handler));
        proof {
            lemma_assoc_map_push(orig, object_id.0, handler);
        }
    }

    /// Looks up the handler for a packet's target object.
    ///
    /// A packet for an id with no registered handler surfaces the
    /// "no handler" condition to the caller; that is recoverable by policy
    /// and never fatal to the connection.
    pub fn dispatch(&self, packet: &Packet) -> (r: Result<&H, Error>)
        requires
            self.well_formed(),
        ensures
            self@.contains_key(packet@.object_id) ==> (r matches Ok(h) && *h
                == self@[packet@.object_id]),
            !self@.contains_key(packet@.object_id) ==> r == Err::<&H, Error>(
                Error::NoEventHandler { object_id: ObjectId(packet@.object_id) },
            ),
    {
        let object_id = packet.object_id();
        let mut i: usize = 0;
        while i < self.items.len()
            invariant
                0 <= i <= self.items@.len(),
                forall|a: int| 0 <= a < i ==> self.items@[a].0 != object_id.0,
                object_id.0 == packet@.object_id,
                forall|a: int, b: int|
                    0 <= a < b < self.items@.len() ==> self.items@[a].0 != self.items@[b].0,
            decreases self.items@.len() - i,
        {
            if self.items[i].0 == object_id.0 {
                proof {
                    lemma_assoc_map_index(self.items@, i as int);
                }
                return Ok(&self.items[i].1);
            }
            i += 1;
        }
        proof {
            lemma_assoc_map_absent(self.items@, object_id.0);
        }
        Err(Error::NoEventHandler { object_id })
    }
}


/// The object id named by an 8-byte-or-longer byte stream's header.
pub open spec fn spec_header_object(fed: Seq<u8>) -> u32 {
    spec_u32_from_le_bytes(fed.subrange(0, 4))
}

/// The packed length-and-opcode word of the header.
pub open spec fn spec_header_word(fed: Seq<u8>) -> u32 {
    spec_u32_from_le_bytes(fed.subrange(4, 8))
}

/// The total packet size the header declares, header bytes included.
pub open spec fn spec_header_total(fed: Seq<u8>) -> int {
    spec_header_word(fed) as int / 0x10000
}

/// The opcode the header declares.
pub open spec fn spec_header_opcode(fed: Seq<u8>) -> u16 {
    (spec_header_word(fed) % 0x10000) as u16
}

/// Whether a completed header passes the receive-side checks: the declared
/// size covers at least the header itself, and the object id is not the
/// reserved zero.
pub open spec fn spec_header_acceptable(fed: Seq<u8>) -> bool {
    spec_header_total(fed) >= 8 && spec_header_object(fed) != 0
}

/// How many more bytes the receiver needs: first the rest of the 8-byte
/// header, then exactly as many payload bytes as the header declares.
pub open spec fn spec_receiver_wanted(fed: Seq<u8>) -> int {
    if fed.len() < 8 {
        8 - fed.len()
    } else {
        spec_header_total(fed) - fed.len()
    }
}

/// Whether the receiver holds one whole packet.
pub open spec fn spec_receiver_complete(fed: Seq<u8>) -> bool {
    fed.len() >= 8 && fed.len() == spec_header_total(fed)
}

/// What the receiver has accumulated: the packet bytes fed so far, in
/// order, and the resource handles collected along the way.
pub ghost struct ReceiverView {
    /// Header and payload bytes, as they arrived.
    pub bytes: Seq<u8>,
    /// Resource handles, in arrival order.
    pub fds: Seq<i32>,
}

/// Reassembles one incoming packet from reads of arbitrary sizes.
///
/// Short reads are a normal occurrence, not an error: the caller reads at
/// most [`wanted`](Self::wanted) bytes, feeds whatever arrived, and repeats
/// until [`is_complete`](Self::is_complete).  A partial header or payload is
/// never interpreted as a complete packet.
pub struct PacketReceiver {
    header: Vec<u8>,
    parsed: Option<PacketHeader>,
    payload: Vec<u8>,
    fds: Vec<i32>,
}

impl View for PacketReceiver {
    type V = ReceiverView;

    closed spec fn view(&self) -> ReceiverView {
        ReceiverView { bytes: self.header@ + self.payload@, fds: self.fds@ }
    }
}

impl PacketReceiver {
    /// The header buffer holds the first eight bytes and is parsed the
    /// moment it is full; payload bytes only follow an accepted header.
    pub closed spec fn well_formed(self) -> bool {
        &&& self.header@.len() <= 8
        &&& (self.parsed is Some <==> self.header@.len() == 8)
        &&& (self.parsed is None ==> self.payload@.len() == 0)
        &&& (self.parsed matches Some(h) ==> {
            &&& h.object_id.0 == spec_header_object(self.header@)
            &&& h.object_id.0 != 0
            &&& h.opcode == spec_header_opcode(self.header@)
            &&& h.total_size == spec_header_total(self.header@)
            &&& h.total_size >= 8
            &&& self.payload@.len() <= h.total_size - 8
        })
    }

    /// A receiver that has seen nothing yet.
    pub fn new() -> (r: Self)
        ensures
            r.well_formed(),
            r@.bytes == Seq::<u8>::empty(),
            r@.fds == Seq::<i32>::empty(),
    {
        let r = Self { header: Vec::new(), parsed: None, payload: Vec::new(), fds: Vec::new() };
        proof {
            assert(r@.bytes =~= Seq::<u8>::empty());
        }
        r
    }

    /// How many more bytes the receiver needs.
    pub fn wanted(&self) -> (r: usize)
        requires
            self.well_formed(),
        ensures
            r as int == spec_receiver_wanted(self@.bytes),
    {
        match &self.parsed {
            None => {
                proof {
                    assert(self@.bytes =~= self.header@);
                }
                8 - self.header.len()
            },
            Some(h) => {
                proof {
                    assert(self@.bytes.subrange(0, 4) =~= self.header@.subrange(0, 4));
                    assert(self@.bytes.subrange(4, 8) =~= self.header@.subrange(4, 8));
                }
                h.total_size - 8 - self.payload.len()
            },
        }
    }

    /// Whether one whole packet has arrived.
    pub fn is_complete(&self) -> (r: bool)
        requires
            self.well_formed(),
        ensures
            r == spec_receiver_complete(self@.bytes),
    {
        match &self.parsed {
            None => {
                proof {
                    assert(self@.bytes =~= self.header@);
                    if self.header@.len() == self@.bytes.len() && self.header@.len() < 8 {
                        assert(!spec_receiver_complete(self@.bytes));
                    }
                }
                false
            },
            Some(h) => {
                proof {
                    assert(self@.bytes.subrange(4, 8) =~= self.header@.subrange(4, 8));
                }
                self.payload.len() == h.total_size - 8
            },
        }
    }

    /// Records resource handles that arrived with a read.
    pub fn push_fds(&mut self, new_fds: &[i32])
        requires
            old(self).well_formed(),
        ensures
            final(self).well_formed(),
            final(self)@.bytes == old(self)@.bytes,
            final(self)@.fds == old(self)@.fds + new_fds@,
    {
        let ghost orig = self.fds@;
        let mut i: usize = 0;
        while i < new_fds.len()
            invariant
                0 <= i <= new_fds@.len(),
                self.fds@ == orig + new_fds@.take(i as int),
                self.header@ == old(self).header@,
                self.payload@ == old(self).payload@,
                self.parsed == old(self).parsed,
                orig == old(self).fds@,
            decreases new_fds@.len() - i,
        {
            self.fds.push(new_fds[i]);
            i += 1;
            proof {
                assert(new_fds@.take(i as int) == new_fds@.take(i - 1).push(new_fds@[i - 1]));
            }
        }
        proof {
            assert(new_fds@.take(new_fds@.len() as int) == new_fds@);
        }
    }

    /// Feeds the bytes one read returned.
    ///
    /// The moment the eighth header byte arrives the header is checked: a
    /// declared size below 8 fails with the too-short error, a zero object
    /// id with the zero-id error, and the receiver is left exactly as it
    /// was, the offending bytes discarded.
    pub fn push_bytes(&mut self, chunk: &[u8]) -> (r: Result<(), Error>)
        requires
            old(self).well_formed(),
            chunk@.len() <= spec_receiver_wanted(old(self)@.bytes),
        ensures
            final(self).well_formed(),
            final(self)@.fds == old(self)@.fds,
            ({
                let fed = old(self)@.bytes + chunk@;
                if fed.len() < 8 || spec_header_acceptable(fed) {
                    &&& r == Ok::<(), Error>(())
                    &&& final(self)@.bytes == fed
                } else if spec_header_total(fed) < 8 {
                    &&& r == Err::<(), Error>(Error::PacketTooShort {
                        actual: spec_header_total(fed) as usize,
                        minimum: 8,
                    })
                    &&& final(self)@.bytes == old(self)@.bytes
                } else {
                    &&& r == Err::<(), Error>(Error::ZeroObjectId)
                    &&& final(self)@.bytes == old(self)@.bytes
                }
            }),
    {
        let ghost fed = old(self)@.bytes + chunk@;
        match &self.parsed {
            None => {
                proof {
                    assert(old(self)@.bytes =~= old(self).header@);
                }
                let old_len = self.header.len();
                push_bytes_vec(&mut self.header, chunk);
                if self.header.len() < 8 {
                    proof {
                        assert(final(self)@.bytes =~= fed);
                    }
                    Ok(())
                } else {
                    proof {
                        assert(self.header@ =~= fed);
                        assert(fed.subrange(0, 4) =~= self.header@.subrange(0, 4));
                        assert(fed.subrange(4, 8) =~= self.header@.subrange(4, 8));
                    }
                    match parse_header(self.header.as_slice()) {
                        Ok(h) => {
                            self.parsed = Some(h);
                            proof {
                                assert(final(self)@.bytes =~= fed);
                            }
                            Ok(())
                        },
                        Err(e) => {
                            self.header.truncate(old_len);
                            proof {
                                assert(self.header@ =~= old(self).header@);
                                assert(final(self)@.bytes =~= old(self)@.bytes);
                            }
                            Err(e)
                        },
                    }
                }
            },
            Some(_) => {
                proof {
                    assert(old(self)@.bytes.subrange(0, 4) =~= old(self).header@.subrange(0, 4));
                    assert(old(self)@.bytes.subrange(4, 8) =~= old(self).header@.subrange(4, 8));
                }
                push_bytes_vec(&mut self.payload, chunk);
                proof {
                    assert(final(self)@.bytes =~= fed);
                    assert(fed.subrange(0, 4) =~= old(self)@.bytes.subrange(0, 4));
                    assert(fed.subrange(4, 8) =~= old(self)@.bytes.subrange(4, 8));
                }
                Ok(())
            },
        }
    }

    /// Hands over the completed packet.
    ///
    /// The packet's object id, opcode and payload are exactly what the fed
    /// bytes encode, and its handles are the collected ones in order.
    pub fn into_packet(self) -> (r: Packet)
        requires
            self.well_formed(),
            spec_receiver_complete(self@.bytes),
        ensures
            r@.object_id == spec_header_object(self@.bytes),
            r@.opcode == spec_header_opcode(self@.bytes),
            r@.payload == self@.bytes.subrange(8, self@.bytes.len() as int),
            r@.fds == self@.fds,
            r@.object_id != 0,
    {
        proof {
            assert(self@.bytes.subrange(0, 4) =~= self.header@.subrange(0, 4));
            assert(self@.bytes.subrange(4, 8) =~= self.header@.subrange(4, 8));
            assert(self@.bytes.subrange(8, self@.bytes.len() as int) =~= self.payload@);
        }
        let Self { header: _, parsed, payload, fds } = self;
        let h = match parsed {
            Some(h) => h,
            None => {
                proof {
                    assert(false);
                }
                unreached()
            },
        };
        Packet::new_from_existing(h.object_id, h.opcode, payload, fds)
    }
}

/// Appends all of `src` to `dst`.
fn push_bytes_vec(dst: &mut Vec<u8>, src: &[u8])
    ensures
        final(dst)@ == old(dst)@ + src@,
{
    let ghost orig = dst@;
    let mut i: usize = 0;
    while i < src.len()
        invariant
            0 <= i <= src@.len(),
            dst@ == orig + src@.take(i as int),
        decreases src@.len() - i,
    {
        dst.push(src[i]);
        i += 1;
        proof {
            assert(src@.take(i as int) == src@.take(i - 1).push(src@[i - 1]));
        }
    }
    proof {
        assert(src@.take(src@.len() as int) == src@);
    }
}

/// The display-name value used when the environment does not name one.
pub open spec fn spec_default_display() -> Seq<char> {
    "wayland-0"@
}

/// The socket path the environment values select: the display name if it is
/// an absolute path, else the runtime directory, a separator, and the
/// display name (or its well-known default).
pub open spec fn spec_socket_path(runtime_dir: Seq<char>, display: Option<Seq<char>>) -> Seq<
    char,
> {
    let disp = match display {
        Some(d) => d,
        None => spec_default_display(),
    };
    if disp.len() > 0 && disp[0] == '/' {
        disp
    } else {
        runtime_dir + "/"@ + disp
    }
}

/// Resolves the peer's well-known socket location from the two environment
/// values, read once at connect time.
///
/// The runtime-directory value is required; its absence is the fatal
/// configuration error.  The display-name value is optional and defaults to
/// a fixed well-known name.
pub fn wayland_socket_path(runtime_dir: Option<&str>, display: Option<&str>) -> (r: Result<
    String,
    Error,
>)
    ensures
        runtime_dir is None ==> (r matches Err(e) && e matches Error::MissingEnvVar { name }
            && name@ == "XDG_RUNTIME_DIR"@),
        runtime_dir matches Some(rd) ==> (r matches Ok(p) && p@ == spec_socket_path(
            rd@,
            match display {
                Some(d) => Some(d@),
                None => None,
            },
        )),
{
    let rd = match runtime_dir {
        Some(rd) => rd,
        None => {
            return Err(Error::MissingEnvVar { name: String::from_str("XDG_RUNTIME_DIR") });
        },
    };
    let disp: &str = match display {
        Some(d) => d,
        None => "wayland-0",
    };
    proof {
        reveal_strlit("wayland-0");
        reveal_strlit("/");
    }
    let absolute = disp.unicode_len() > 0 && disp.get_char(0) == '/';
    if absolute {
        let mut p = String::new();
        p.append(disp);
        Ok(p)
    } else {
        let mut p = String::new();
        p.append(rd);
        p.append("/");
        p.append(disp);
        Ok(p)
    }
}

} // verus!
