//! Packet registration: which packet id a packet has under which protocol versions, the frame
//! of an outgoing packet, and the errors of dispatching an incoming one.
use vstd::hash_map::HashMapWithView;
use vstd::prelude::*;
use vstd::string::StringExecFns;

use crate::codec::{
    decimal_string, decimal_text, lemma_scan_range, read_var_int, spec_read_var_int, spec_var_int, write_var_int,
    TransportError,
};

verus! {

broadcast use vstd::std_specs::hash::group_hash_axioms;

/// The protocol version of a connection whose version is not known yet.
pub const UNKNOWN_VERSION: i32 = -2;

/// The protocol version that stands for every version.
pub const ALL_VERSIONS: i32 = -1;

/// The key under which a connection's protocol version is kept.
#[derive(Debug)]
pub struct ProtocolVersionKey;

/// Turns a packet id and an encoded body into a packet frame.
#[derive(Debug)]
pub struct MCPacketWriter;

impl MCPacketWriter {
    /// The frame of a packet: its id as a VarInt, then its encoded body.
    pub fn process(&self, packet_id: i32, body: &[u8]) -> (r: Vec<u8>)
        ensures
            r@ == spec_var_int(packet_id) + body@,
    {
        let mut out: Vec<u8> = Vec::new();
        write_var_int(&mut out, packet_id);
        crate::encoding::append_bytes(&mut out, body);
        out
    }
}

/// Why an incoming packet could not be dispatched.
#[derive(Debug)]
pub enum RegistryError {
    /// No handler for the packet id under the protocol version: the version and id, then the
    /// packet's bytes.
    NoHandlerFound((i32, i32), Vec<u8>),
    /// Reading or writing failed outside any handler.
    DraxTransportError(TransportError),
}

/// The message of a missing handler.
pub open spec fn no_handler_text(protocol_version: i32, packet_id: i32) -> Seq<char> {
    "No handler found for protocol version: "@ + decimal_text(protocol_version as int)
        + ", packet id: "@ + decimal_text(packet_id as int)
}

/// Formats the message of a missing handler.
fn no_handler_message(protocol_version: i32, packet_id: i32) -> (r: String)
    ensures
        r@ == no_handler_text(protocol_version, packet_id),
{
    let s = String::from_str("No handler found for protocol version: ");
    let s = s.concat(decimal_string(protocol_version as i128).as_str());
    s.concat(", packet id: ").concat(decimal_string(packet_id as i128).as_str())
}

impl RegistryError {
    /// What the error says: the version and packet id of a missing handler, or that a
    /// transport error was found outside any handler.
    pub fn message(&self) -> (r: String)
        ensures
            self matches RegistryError::NoHandlerFound((v, id), _) ==> r@ == no_handler_text(*v, *id),
            self matches RegistryError::DraxTransportError(e) ==> r@ == "Error found outside of handler, "@
                + e.spec_message(),
    {
        match self {
            RegistryError::NoHandlerFound((v, id), _) => no_handler_message(*v, *id),
            RegistryError::DraxTransportError(e) => String::from_str(
                "Error found outside of handler, ",
            ).concat(e.message().as_str()),
        }
    }
}

/// The packet id a packet has under an inclusive range of protocol versions.
#[derive(Debug)]
pub struct Importer {
    range: (i32, i32),
    packet_id: i32,
}

impl Importer {
    pub closed spec fn spec_range(&self) -> (i32, i32) {
        self.range
    }

    pub closed spec fn spec_packet_id(&self) -> i32 {
        self.packet_id
    }

    /// One version.
    pub fn from_single(single: i32, packet_id: i32) -> (r: Importer)
        ensures
            r.spec_range() == (single, single),
            r.spec_packet_id() == packet_id,
    {
        Importer { range: (single, single), packet_id }
    }

    /// The versions from `low` to `high`, both included.
    pub fn from_range(low: i32, high: i32, packet_id: i32) -> (r: Importer)
        ensures
            r.spec_range() == (low, high),
            r.spec_packet_id() == packet_id,
    {
        Importer { range: (low, high), packet_id }
    }

    /// Each version of the range, in order, paired with the packet id.
    pub fn consume(self) -> (r: Vec<(i32, i32)>)
        ensures
            r@.len() == if self.spec_range().0 <= self.spec_range().1 {
                self.spec_range().1 - self.spec_range().0 + 1
            } else {
                0
            },
            forall|i: int|
                0 <= i < r@.len() ==> #[trigger] r@[i] == (
                    (self.spec_range().0 + i) as i32,
                    self.spec_packet_id(),
                ),
    {
        let (low, high) = self.range;
        let mut out: Vec<(i32, i32)> = Vec::new();
        if low > high {
            return out;
        }
        let mut x: i32 = low;
        loop
            invariant
                low <= x <= high,
                self.range == (low, high),
                out@.len() == x - low,
                forall|i: int| 0 <= i < out@.len() ==> #[trigger] out@[i] == ((low + i) as i32, self.packet_id),
            decreases high - x,
        {
            out.push((x, self.packet_id));
            if x == high {
                return out;
            }
            x = x + 1;
        }
    }
}

/// The key under which the handler of a packet id under a protocol version is kept: the two
/// numbers' 32-bit patterns side by side.
pub open spec fn route_key(protocol_version: i32, packet_id: i32) -> u64 {
    (((protocol_version as u32) as u64) * 0x1_0000_0000 + ((packet_id as u32) as u64)) as u64
}

fn route_key_of(protocol_version: i32, packet_id: i32) -> (r: u64)
    ensures
        r == route_key(protocol_version, packet_id),
{
    (protocol_version as u32 as u64) * 0x1_0000_0000 + (packet_id as u32 as u64)
}

/// Whether `k` is the key of one of the (version, packet id) pairs of `keys`.
pub open spec fn among_keys(keys: Seq<(i32, i32)>, k: u64) -> bool {
    exists|i: int| 0 <= i < keys.len() && route_key(keys[i].0, keys[i].1) == k
}

/// Which handler takes a packet, by protocol version and packet id. Handlers are numbered by
/// the driver, which keeps them; the registry maps each (version, id) to a handler's number. Its
/// `staple` is the version it was made for, or one of the two that stand for any version.
pub struct MappedAsyncPacketRegistry {
    staple: i32,
    mappings: HashMapWithView<u64, usize>,
}

impl MappedAsyncPacketRegistry {
    pub closed spec fn spec_staple(&self) -> i32 {
        self.staple
    }

    /// The handlers by route key.
    pub closed spec fn spec_mappings(&self) -> Map<u64, usize> {
        self.mappings@
    }

    /// An empty registry for `protocol_version`.
    pub fn new(protocol_version: i32) -> (r: Self)
        ensures
            r.spec_staple() == protocol_version,
            r.spec_mappings() == Map::<u64, usize>::empty(),
    {
        MappedAsyncPacketRegistry { staple: protocol_version, mappings: HashMapWithView::new() }
    }

    /// An empty registry for a version not known yet.
    pub fn empty() -> (r: Self)
        ensures
            r.spec_staple() == UNKNOWN_VERSION,
            r.spec_mappings() == Map::<u64, usize>::empty(),
    {
        Self::new(UNKNOWN_VERSION)
    }

    /// Registers `handler` for a packet: a registry for any version takes every (version, id)
    /// pair the packet is registered under (`all_keys`); one for a version takes the id the
    /// packet has under that version (`scoped`, none if it has none there).
    pub fn register(&mut self, all_keys: &[(i32, i32)], scoped: Option<i32>, handler: usize)
        ensures
            final(self).spec_staple() == old(self).spec_staple(),
            old(self).spec_staple() == ALL_VERSIONS || old(self).spec_staple() == UNKNOWN_VERSION
                ==> forall|k: u64|
                #![trigger final(self).spec_mappings().contains_key(k)]
                #![trigger among_keys(all_keys@, k)]
                {
                    &&& final(self).spec_mappings().contains_key(k) <==> (old(
                        self,
                    ).spec_mappings().contains_key(k) || among_keys(all_keys@, k))
                    &&& final(self).spec_mappings().contains_key(k) ==> final(self).spec_mappings()[k]
                        == if among_keys(all_keys@, k) {
                        handler
                    } else {
                        old(self).spec_mappings()[k]
                    }
                },
            !(old(self).spec_staple() == ALL_VERSIONS || old(self).spec_staple() == UNKNOWN_VERSION)
                ==> final(self).spec_mappings() == match scoped {
                Some(id) => old(self).spec_mappings().insert(
                    route_key(old(self).spec_staple(), id),
                    handler,
                ),
                None => old(self).spec_mappings(),
            },
    {
        if self.staple == ALL_VERSIONS || self.staple == UNKNOWN_VERSION {
            let ghost start = self.mappings@;
            let mut i: usize = 0;
            while i < all_keys.len()
                invariant
                    i <= all_keys@.len(),
                    self.staple == old(self).staple,
                    start == old(self).mappings@,
                    forall|k: u64|
                        #![trigger self.mappings@.contains_key(k)]
                        {
                            let added = exists|j: int|
                                0 <= j < i && route_key(all_keys@[j].0, all_keys@[j].1) == k;
                            &&& self.mappings@.contains_key(k) <==> (start.contains_key(k) || added)
                            &&& self.mappings@.contains_key(k) ==> self.mappings@[k] == if added {
                                handler
                            } else {
                                start[k]
                            }
                        },
                decreases all_keys@.len() - i,
            {
                let (v, id) = all_keys[i];
                let key = route_key_of(v, id);
                self.mappings.insert(key, handler);
                assert(route_key(all_keys@[i as int].0, all_keys@[i as int].1) == key);
                i = i + 1;
            }
            proof {
                assert forall|k: u64| among_keys(all_keys@, k) == (exists|j: int|
                    0 <= j < all_keys@.len() && route_key(all_keys@[j].0, all_keys@[j].1) == k) by {
                }
            }
        } else {
            if let Some(id) = scoped {
                let key = route_key_of(self.staple, id);
                self.mappings.insert(key, handler);
            }
        }
    }

    /// The version a packet is looked up under: the registry's own when it names one, else the
    /// connection's (`stored`), else the unknown version.
    pub open spec fn spec_lookup_version(&self, stored: Option<i32>) -> i32 {
        if self.spec_staple() > 0 {
            self.spec_staple()
        } else {
            match stored {
                Some(v) => v,
                None => UNKNOWN_VERSION,
            }
        }
    }

    /// Finds the handler of a packet frame `data`: its packet id (a VarInt at the start) under
    /// the lookup version. Gives the handler's number and where the packet's body starts; a
    /// packet id that cannot be read is a transport error, and a packet without a handler is
    /// refused with the version, the id and the whole packet.
    pub fn execute(&self, stored: Option<i32>, data: &[u8]) -> (r: Result<(usize, usize), RegistryError>)
        ensures
            match spec_read_var_int(data@) {
                Err(e) => r matches Err(RegistryError::DraxTransportError(err)) && err.kind() == e,
                Ok((id, k)) => {
                    let key = route_key(self.spec_lookup_version(stored), id);
                    if self.spec_mappings().contains_key(key) {
                        r == Ok::<(usize, usize), RegistryError>((self.spec_mappings()[key], k as usize))
                    } else {
                        r matches Err(RegistryError::NoHandlerFound((v, pid), rest)) && v
                            == self.spec_lookup_version(stored) && pid == id && rest@ == data@
                    }
                },
            },
    {
        proof {
            lemma_scan_range(data@, 0, 5);
            assert(data@.skip(0) =~= data@);
        }
        let (packet_id, p) = match read_var_int(data, 0) {
            Ok(x) => x,
            Err(e) => {
                return Err(RegistryError::DraxTransportError(e));
            },
        };
        let protocol_version = if self.staple > 0 {
            self.staple
        } else {
            match stored {
                Some(v) => v,
                None => UNKNOWN_VERSION,
            }
        };
        let key = route_key_of(protocol_version, packet_id);
        match self.mappings.get(&key) {
            Some(handler) => Ok((*handler, p)),
            None => {
                let mut rest: Vec<u8> = Vec::new();
                let mut i: usize = 0;
                while i < data.len()
                    invariant
                        i <= data@.len(),
                        rest@ == data@.subrange(0, i as int),
                    decreases data@.len() - i,
                {
                    rest.push(data[i]);
                    i = i + 1;
                }
                assert(rest@ =~= data@);
                Err(RegistryError::NoHandlerFound((protocol_version, packet_id), rest))
            },
        }
    }
}

/// The packet id that `registrations` gives under `protocol_version`: the first pair for it.
pub open spec fn scoped_in(registrations: Seq<(i32, i32)>, protocol_version: i32) -> Option<i32>
    decreases registrations.len(),
{
    if registrations.len() == 0 {
        None
    } else if registrations[0].0 == protocol_version {
        Some(registrations[0].1)
    } else {
        scoped_in(registrations.drop_first(), protocol_version)
    }
}

/// A packet with a registration table: the (protocol version, packet id) pairs it is known
/// under.
pub trait RegistrationCandidate {
    /// The packet's (version, id) pairs.
    spec fn spec_registrations() -> Seq<(i32, i32)>;

    /// Appends every (version, id) pair of the packet to `keys`.
    fn register_all(keys: &mut Vec<(i32, i32)>)
        ensures
            final(keys)@ == old(keys)@ + Self::spec_registrations(),
    ;

    /// The packet's id under `protocol_version`, if it has one there.
    fn scoped_registration(protocol_version: i32) -> (r: Option<i32>)
        ensures
            r == scoped_in(Self::spec_registrations(), protocol_version),
    ;
}

/// A packet registered for a version is dispatched, under that version, to its handler.
pub proof fn law_register_then_execute(
    before: MappedAsyncPacketRegistry,
    after: MappedAsyncPacketRegistry,
    id: i32,
    handler: usize,
)
    requires
        before.spec_staple() > 0,
        after.spec_staple() == before.spec_staple(),
        after.spec_mappings() == before.spec_mappings().insert(
            route_key(before.spec_staple(), id),
            handler,
        ),
    ensures
        forall|stored: Option<i32>|
            after.spec_mappings().contains_key(
                route_key(#[trigger] after.spec_lookup_version(stored), id),
            ) && after.spec_mappings()[route_key(after.spec_lookup_version(stored), id)] == handler,
{
}

} // verus!
