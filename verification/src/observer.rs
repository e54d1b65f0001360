//! Resource observation (RFC 7641) on the server side: which clients
//! observe which resources, the latest state of each resource, and the
//! notifications that wait for an acknowledgement.
//!
//! The observer decides; it does not send.  Each operation returns the
//! messages to send as `ObserverAction`s, and the caller sends them, in
//! order, through the responders that the observer keeps for each
//! registration.

use vstd::prelude::*;
use crate::keyed::{keys_distinct, to_map, lemma_to_map_dom, lemma_to_map_index, lemma_to_map_remove,
    lemma_to_map_update, lemma_to_map_push};
use crate::block::{BlockValue, block_scalar, uint16_bytes, size_exponent_for, be_value, block_of_scalar};
use vstd::arithmetic::power2::pow2;

verus! {

/// How often an unacknowledged notification is sent again before the
/// observer gives up on it.
pub const DEFAULT_UNACKNOWLEDGE_MESSAGE_TRY_TIMES: usize = 10;

// ---------------------------------------------------------------------
// Unsigned integer option values and entity tags.
// ---------------------------------------------------------------------

/// The bytes of an unsigned option value: big-endian, without leading zero
/// bytes, so 0 is the empty value.
pub open spec fn coap_uint_bytes(v: nat) -> Seq<u8>
    decreases v,
{
    if v == 0 {
        Seq::empty()
    } else {
        coap_uint_bytes(v / 256).push((v % 256) as u8)
    }
}

/// The bytes of values below 2^32, case by case.
proof fn lemma_coap_uint_bytes_small(v: nat)
    requires
        v <= 0xFFFF_FFFF,
    ensures
        v == 0 ==> coap_uint_bytes(v) == Seq::<u8>::empty(),
        0 < v < 0x100 ==> coap_uint_bytes(v) == seq![v as u8],
        0x100 <= v < 0x10000 ==> coap_uint_bytes(v) == seq![(v / 0x100) as u8, (v % 0x100) as u8],
        0x10000 <= v < 0x1000000 ==> coap_uint_bytes(v) == seq![
            (v / 0x10000) as u8,
            ((v / 0x100) % 0x100) as u8,
            (v % 0x100) as u8,
        ],
        0x1000000 <= v ==> coap_uint_bytes(v) == seq![
            (v / 0x1000000) as u8,
            ((v / 0x10000) % 0x100) as u8,
            ((v / 0x100) % 0x100) as u8,
            (v % 0x100) as u8,
        ],
{
    reveal_with_fuel(coap_uint_bytes, 5);
    assert(v / 0x100 / 0x100 == v / 0x10000);
    assert(v / 0x10000 / 0x100 == v / 0x1000000);
    assert(v / 0x1000000 / 0x100 == 0);
    assert(coap_uint_bytes(0) =~= Seq::<u8>::empty());
    if 0 < v < 0x100 {
        assert(coap_uint_bytes(v) =~= seq![v as u8]);
    } else if 0x100 <= v < 0x10000 {
        assert(coap_uint_bytes(v / 0x100) =~= seq![(v / 0x100) as u8]);
    } else if 0x10000 <= v < 0x1000000 {
        assert(coap_uint_bytes(v / 0x10000) =~= seq![(v / 0x10000) as u8]);
        assert(coap_uint_bytes(v / 0x100) =~= seq![(v / 0x10000) as u8, ((v / 0x100) % 0x100) as u8]);
    } else if 0x1000000 <= v {
        assert(coap_uint_bytes(v / 0x1000000) =~= seq![(v / 0x1000000) as u8]);
        assert(coap_uint_bytes(v / 0x10000) =~= seq![
            (v / 0x1000000) as u8,
            ((v / 0x10000) % 0x100) as u8,
        ]);
        assert(coap_uint_bytes(v / 0x100) =~= seq![
            (v / 0x1000000) as u8,
            ((v / 0x10000) % 0x100) as u8,
            ((v / 0x100) % 0x100) as u8,
        ]);
    }
}

/// Encodes `value` as an unsigned option value of at most four bytes;
/// values above `u32::MAX` are written as `u32::MAX`.
pub fn encode_coap_uint(value: usize) -> (r: Vec<u8>)
    ensures
        r@ == coap_uint_bytes(if value > u32::MAX { u32::MAX as nat } else { value as nat }),
{
    let v: u64 = if value as u64 > 0xFFFF_FFFF { 0xFFFF_FFFF } else { value as u64 };
    proof {
        lemma_coap_uint_bytes_small(v as nat);
    }
    let mut out: Vec<u8> = Vec::new();
    if v >= 0x1000000 {
        out.push((v / 0x1000000) as u8);
    }
    if v >= 0x10000 {
        out.push(((v / 0x10000) % 0x100) as u8);
    }
    if v >= 0x100 {
        out.push(((v / 0x100) % 0x100) as u8);
    }
    if v > 0 {
        out.push((v % 0x100) as u8);
    }
    assert(out@ =~= coap_uint_bytes(v as nat));
    out
}

/// Reading the bytes of an unsigned option value back gives the value.
pub proof fn lemma_coap_uint_roundtrip(v: nat)
    ensures
        be_value(coap_uint_bytes(v)) == v,
    decreases v,
{
    if v > 0 {
        lemma_coap_uint_roundtrip(v / 256);
        assert(coap_uint_bytes(v).drop_last() =~= coap_uint_bytes(v / 256));
    }
}

/// The 64-bit FNV-1a hash of `s`.
pub open spec fn fnv1a(s: Seq<u8>) -> u64
    decreases s.len(),
{
    if s.len() == 0 {
        0xcbf29ce484222325
    } else {
        (fnv1a(s.drop_last()) ^ (s.last() as u64)).wrapping_mul(0x100000001b3)
    }
}

/// The entity tag of a payload: the four high bytes of its FNV-1a hash, in
/// big-endian order.  It detects changes; it is no protection against
/// anyone who forges a payload.
pub open spec fn etag_of(payload: Seq<u8>) -> Seq<u8> {
    let h = fnv1a(payload);
    seq![(h >> 56) as u8, (h >> 48) as u8, (h >> 40) as u8, (h >> 32) as u8]
}

/// Computes the entity tag of `payload` (see `etag_of`).
pub fn compute_etag(payload: &[u8]) -> (r: Vec<u8>)
    ensures
        r@ == etag_of(payload@),
{
    let mut hash: u64 = 0xcbf29ce484222325;
    let mut i: usize = 0;
    while i < payload.len()
        invariant
            i <= payload@.len(),
            hash == fnv1a(payload@.take(i as int)),
        decreases payload@.len() - i,
    {
        hash = hash ^ (payload[i] as u64);
        hash = hash.wrapping_mul(0x100000001b3);
        assert(payload@.take(i as int + 1).drop_last() =~= payload@.take(i as int));
        i = i + 1;
    }
    assert(payload@.take(payload@.len() as int) =~= payload@);
    let mut r: Vec<u8> = Vec::new();
    r.push((hash >> 56) as u8);
    r.push((hash >> 48) as u8);
    r.push((hash >> 40) as u8);
    r.push((hash >> 32) as u8);
    assert(r@ =~= etag_of(payload@));
    r
}

// ---------------------------------------------------------------------
// The observer's state.
// ---------------------------------------------------------------------

/// The key of a registration: the observer's address, `$`, and the path
/// of the observed resource.
pub open spec fn register_key(address: Seq<char>, path: Seq<char>) -> Seq<char> {
    address + seq!['$'] + path
}

/// Builds the key of a registration (see `register_key`).
pub fn format_register_resource(address: &String, path: &String) -> (r: String)
    ensures
        r@ == register_key(address@, path@),
{
    let mut k = address.clone();
    proof {
        reveal_strlit("$");
    }
    k.append("$");
    k.append(path.as_str());
    assert(k@ =~= register_key(address@, path@));
    k
}

/// A resource that clients may observe.
pub struct Resource {
    pub path: String,
    pub payload: Vec<u8>,
    /// The observe sequence number: 0 when the resource was first
    /// written, one more at each change.
    pub sequence: u32,
    pub etag: Vec<u8>,
}

/// One client observing one resource.  `R` is the handle through which
/// notifications reach the client.
pub struct Registration<R> {
    pub key: String,
    pub address: String,
    pub resource: String,
    pub responder: R,
    pub token: Vec<u8>,
    pub unacknowledge_message: Option<u16>,
    pub preferred_block_size: Option<usize>,
}

/// A confirmable notification that waits for its acknowledgement.
pub struct PendingMessage {
    pub message_id: u16,
    pub register_resource: String,
    pub try_times: usize,
}

/// The state of a resource.
pub struct ResourceView {
    pub payload: Seq<u8>,
    pub sequence: u32,
    pub etag: Seq<u8>,
}

/// The state of a registration.
pub struct RegistrationView<R> {
    pub address: Seq<char>,
    pub resource: Seq<char>,
    pub responder: R,
    pub token: Seq<u8>,
    pub unacknowledged: Option<u16>,
    pub preferred_block_size: Option<usize>,
}

/// The observer as maps: resources by path, registrations by key, and
/// pending notifications by message id (with the registration key and the
/// number of sends so far), and the last message id given out.
pub struct ObserverView<R> {
    pub resources: Map<Seq<char>, ResourceView>,
    pub registrations: Map<Seq<char>, RegistrationView<R>>,
    pub pending: Map<u16, (Seq<char>, usize)>,
    pub current_message_id: u16,
}

pub open spec fn resource_key() -> spec_fn(Resource) -> Seq<char> {
    |r: Resource| r.path@
}

pub open spec fn resource_value() -> spec_fn(Resource) -> ResourceView {
    |r: Resource| ResourceView { payload: r.payload@, sequence: r.sequence, etag: r.etag@ }
}

pub open spec fn registration_key<R>() -> spec_fn(Registration<R>) -> Seq<char> {
    |r: Registration<R>| r.key@
}

pub open spec fn registration_value<R>() -> spec_fn(Registration<R>) -> RegistrationView<R> {
    |r: Registration<R>|
        RegistrationView {
            address: r.address@,
            resource: r.resource@,
            responder: r.responder,
            token: r.token@,
            unacknowledged: r.unacknowledge_message,
            preferred_block_size: r.preferred_block_size,
        }
}

pub open spec fn pending_key() -> spec_fn(PendingMessage) -> u16 {
    |p: PendingMessage| p.message_id
}

pub open spec fn pending_value() -> spec_fn(PendingMessage) -> (Seq<char>, usize) {
    |p: PendingMessage| (p.register_resource@, p.try_times)
}

/// What holds of the observer at all times: each registration is keyed by
/// its address and path, observes a resource that exists and asks for a
/// block size from 16 to 2048 if any; a registration's pending
/// notification points back to it and the other way round; no pending
/// message id is above the last one given out.
pub open spec fn consistent<R>(v: ObserverView<R>) -> bool {
    &&& forall|k: Seq<char>| #[trigger]
        v.registrations.dom().contains(k) ==> {
            let g = v.registrations[k];
            &&& k == register_key(g.address, g.resource)
            &&& v.resources.dom().contains(g.resource)
            &&& (g.preferred_block_size matches Some(b) ==> 16 <= b <= 2048)
            &&& (g.unacknowledged matches Some(m) ==> v.pending.dom().contains(m) && v.pending[m].0 == k)
        }
    &&& forall|m: u16| #[trigger]
        v.pending.dom().contains(m) ==> {
            &&& v.registrations.dom().contains(v.pending[m].0)
            &&& v.registrations[v.pending[m].0].unacknowledged == Some(m)
            &&& m <= v.current_message_id
        }
}

/// The server-side observe state.
pub struct Observer<R> {
    resources: Vec<Resource>,
    registrations: Vec<Registration<R>>,
    pending: Vec<PendingMessage>,
    current_message_id: u16,
}

impl<R> View for Observer<R> {
    type V = ObserverView<R>;

    closed spec fn view(&self) -> ObserverView<R> {
        ObserverView {
            resources: to_map(self.resources@, resource_key(), resource_value()),
            registrations: to_map(self.registrations@, registration_key(), registration_value()),
            pending: to_map(self.pending@, pending_key(), pending_value()),
            current_message_id: self.current_message_id,
        }
    }
}

impl<R> Observer<R> {
    /// The observer is well formed: no key occurs twice in its storage and
    /// its state is `consistent`.
    pub closed spec fn wf(&self) -> bool {
        &&& keys_distinct(self.resources@, resource_key())
        &&& keys_distinct(self.registrations@, registration_key())
        &&& keys_distinct(self.pending@, pending_key())
        &&& consistent(self@)
    }

    /// A well-formed observer is consistent.
    pub proof fn lemma_wf_consistent(&self)
        requires
            self.wf(),
        ensures
            consistent(self@),
    {
    }

    /// An observer with no resources and no registrations.
    pub fn new() -> (r: Observer<R>)
        ensures
            r.wf(),
            r@.resources == Map::<Seq<char>, ResourceView>::empty(),
            r@.registrations == Map::<Seq<char>, RegistrationView<R>>::empty(),
            r@.pending == Map::<u16, (Seq<char>, usize)>::empty(),
            r@.current_message_id == 0,
    {
        let r = Observer {
            resources: Vec::new(),
            registrations: Vec::new(),
            pending: Vec::new(),
            current_message_id: 0,
        };
        assert(r@.resources =~= Map::<Seq<char>, ResourceView>::empty());
        assert(r@.registrations =~= Map::<Seq<char>, RegistrationView<R>>::empty());
        assert(r@.pending =~= Map::<u16, (Seq<char>, usize)>::empty());
        r
    }

    fn find_resource(&self, path: &String) -> (r: Option<usize>)
        requires
            self.wf(),
        ensures
            r matches Some(i) ==> i < self.resources@.len() && self.resources@[i as int].path@ == path@,
            r is None <==> !self@.resources.dom().contains(path@),
    {
        let mut i: usize = 0;
        while i < self.resources.len()
            invariant
                self.wf(),
                i <= self.resources@.len(),
                forall|j: int| 0 <= j < i ==> self.resources@[j].path@ != path@,
            decreases self.resources@.len() - i,
        {
            if self.resources[i].path == *path {
                proof {
                    lemma_to_map_index(self.resources@, resource_key(), resource_value(), i as int);
                }
                return Some(i);
            }
            i = i + 1;
        }
        proof {
            lemma_to_map_dom(self.resources@, resource_key(), resource_value(), path@);
        }
        None
    }

    fn find_registration(&self, key: &String) -> (r: Option<usize>)
        requires
            self.wf(),
        ensures
            r matches Some(i) ==> i < self.registrations@.len() && self.registrations@[i as int].key@ == key@,
            r is None <==> !self@.registrations.dom().contains(key@),
    {
        let mut i: usize = 0;
        while i < self.registrations.len()
            invariant
                self.wf(),
                i <= self.registrations@.len(),
                forall|j: int| 0 <= j < i ==> self.registrations@[j].key@ != key@,
            decreases self.registrations@.len() - i,
        {
            if self.registrations[i].key == *key {
                proof {
                    lemma_to_map_index(self.registrations@, registration_key(), registration_value(), i as int);
                }
                return Some(i);
            }
            i = i + 1;
        }
        proof {
            lemma_to_map_dom(self.registrations@, registration_key(), registration_value(), key@);
        }
        None
    }

    fn find_pending(&self, message_id: u16) -> (r: Option<usize>)
        requires
            self.wf(),
        ensures
            r matches Some(i) ==> i < self.pending@.len() && self.pending@[i as int].message_id == message_id,
            r is None <==> !self@.pending.dom().contains(message_id),
    {
        let mut i: usize = 0;
        while i < self.pending.len()
            invariant
                self.wf(),
                i <= self.pending@.len(),
                forall|j: int| 0 <= j < i ==> self.pending@[j].message_id != message_id,
            decreases self.pending@.len() - i,
        {
            if self.pending[i].message_id == message_id {
                proof {
                    lemma_to_map_index(self.pending@, pending_key(), pending_value(), i as int);
                }
                return Some(i);
            }
            i = i + 1;
        }
        proof {
            lemma_to_map_dom(self.pending@, pending_key(), pending_value(), message_id);
        }
        None
    }

    /// Whether the client at `address` observes the resource at `path`.
    pub fn is_observing(&self, address: &String, path: &String) -> (r: bool)
        requires
            self.wf(),
        ensures
            r == self@.registrations.dom().contains(register_key(address@, path@)),
    {
        let key = format_register_resource(address, path);
        self.find_registration(&key).is_some()
    }

    /// The payload and the entity tag of the resource at `path`, if there
    /// is one.
    pub fn get_resource_payload_and_etag(&self, path: &String) -> (r: Option<(Vec<u8>, Vec<u8>)>)
        requires
            self.wf(),
        ensures
            r is Some <==> self@.resources.dom().contains(path@),
            r matches Some(pe) ==> pe.0@ == self@.resources[path@].payload && pe.1@ == self@.resources[path@].etag,
    {
        match self.find_resource(path) {
            Some(i) => {
                proof {
                    lemma_to_map_index(self.resources@, resource_key(), resource_value(), i as int);
                }
                Some((self.resources[i].payload.clone(), self.resources[i].etag.clone()))
            },
            None => None,
        }
    }

    /// The last message id given out.
    pub fn current_message_id(&self) -> (r: u16)
        ensures
            r == self@.current_message_id,
    {
        self.current_message_id
    }

    /// The sequence number of the resource at `path`, if there is one.
    pub fn resource_sequence(&self, path: &String) -> (r: Option<u32>)
        requires
            self.wf(),
        ensures
            r is Some <==> self@.resources.dom().contains(path@),
            r matches Some(s) ==> s == self@.resources[path@].sequence,
    {
        match self.find_resource(path) {
            Some(i) => {
                proof {
                    lemma_to_map_index(self.resources@, resource_key(), resource_value(), i as int);
                }
                Some(self.resources[i].sequence)
            },
            None => None,
        }
    }

    /// The responder of the registration with key `key`, if there is one.
    pub fn responder(&self, key: &String) -> (r: Option<&R>)
        requires
            self.wf(),
        ensures
            r is Some <==> self@.registrations.dom().contains(key@),
            r matches Some(x) ==> *x == self@.registrations[key@].responder,
    {
        match self.find_registration(key) {
            Some(i) => {
                proof {
                    lemma_to_map_index(self.registrations@, registration_key(), registration_value(), i as int);
                }
                Some(&self.registrations[i].responder)
            },
            None => None,
        }
    }
}

// ---------------------------------------------------------------------
// Acknowledgements, resets and deregistration.
// ---------------------------------------------------------------------

/// Whether two byte vectors hold the same bytes.
fn bytes_equal(a: &Vec<u8>, b: &Vec<u8>) -> (r: bool)
    ensures
        r == (a@ == b@),
{
    if a.len() != b.len() {
        return false;
    }
    let mut i: usize = 0;
    while i < a.len()
        invariant
            a@.len() == b@.len(),
            i <= a@.len(),
            forall|j: int| 0 <= j < i ==> a@[j] == b@[j],
        decreases a@.len() - i,
    {
        if a[i] != b[i] {
            return false;
        }
        i = i + 1;
    }
    assert(a@ =~= b@);
    true
}

/// The registration `g` with its pending notification set to `m`.
pub open spec fn with_unacknowledged<R>(g: RegistrationView<R>, m: Option<u16>) -> RegistrationView<R> {
    RegistrationView {
        address: g.address,
        resource: g.resource,
        responder: g.responder,
        token: g.token,
        unacknowledged: m,
        preferred_block_size: g.preferred_block_size,
    }
}

/// An acknowledgement of message `message_id` with `token`: when the
/// message is pending and the token is that of its registration, the
/// message is no longer pending; when the message is pending under another
/// token, nothing changes.
pub open spec fn acknowledge_spec<R>(v: ObserverView<R>, message_id: u16, token: Seq<u8>) -> ObserverView<R> {
    if v.pending.dom().contains(message_id) {
        let k = v.pending[message_id].0;
        let g = v.registrations[k];
        if g.token != token {
            v
        } else {
            ObserverView {
                registrations: v.registrations.insert(k, with_unacknowledged(g, None)),
                pending: v.pending.remove(message_id),
                ..v
            }
        }
    } else {
        v
    }
}

/// Removes the registration of `address` for `path` when its token is
/// `token`, together with its pending notification; where the token
/// differs nothing changes.
pub open spec fn remove_registration_spec<R>(v: ObserverView<R>, address: Seq<char>, path: Seq<char>, token: Seq<u8>) -> ObserverView<R> {
    let k = register_key(address, path);
    if v.registrations.dom().contains(k) && v.registrations[k].token == token {
        ObserverView {
            registrations: v.registrations.remove(k),
            pending: match v.registrations[k].unacknowledged {
                Some(m) => v.pending.remove(m),
                None => v.pending,
            },
            ..v
        }
    } else {
        v
    }
}

/// A reset of message `message_id` from `source`: when the message is a
/// pending notification sent to `source`, its registration ends and the
/// message is no longer pending; otherwise nothing changes.
pub open spec fn reset_spec<R>(v: ObserverView<R>, message_id: u16, source: Option<Seq<char>>) -> ObserverView<R> {
    if v.pending.dom().contains(message_id) && v.registrations.dom().contains(v.pending[message_id].0)
        && source == Some(v.registrations[v.pending[message_id].0].address) {
        ObserverView {
            registrations: v.registrations.remove(v.pending[message_id].0),
            pending: v.pending.remove(message_id),
            ..v
        }
    } else {
        v
    }
}

impl<R> Observer<R> {
    /// Replaces the pending notification of the registration at index `i`.
    fn set_unacknowledged(&mut self, i: usize, m: Option<u16>)
        requires
            keys_distinct(old(self).registrations@, registration_key()),
            i < old(self).registrations@.len(),
        ensures
            keys_distinct(final(self).registrations@, registration_key()),
            final(self).resources == old(self).resources,
            final(self).pending == old(self).pending,
            final(self).current_message_id == old(self).current_message_id,
            final(self)@.registrations == old(self)@.registrations.insert(
                old(self).registrations@[i as int].key@,
                with_unacknowledged(old(self)@.registrations[old(self).registrations@[i as int].key@], m),
            ),
            final(self).registrations@.len() == old(self).registrations@.len(),
            forall|j: int| 0 <= j < final(self).registrations@.len() ==> #[trigger] final(self).registrations@[j].key@ == old(self).registrations@[j].key@,
    {
        let ghost old_regs = self.registrations@;
        proof {
            lemma_to_map_index(old_regs, registration_key(), registration_value(), i as int);
        }
        let mut g = self.registrations.remove(i);
        g.unacknowledge_message = m;
        self.registrations.insert(i, g);
        proof {
            assert(self.registrations@ =~= old_regs.update(i as int, g));
            lemma_to_map_update(old_regs, registration_key(), registration_value(), i as int, g);
            assert(registration_value()(g) == with_unacknowledged(registration_value()(old_regs[i as int]), m));
        }
    }

    /// Handles an acknowledgement (see `acknowledge_spec`).
    pub fn acknowledge(&mut self, message_id: u16, token: &Vec<u8>)
        requires
            old(self).wf(),
        ensures
            final(self).wf(),
            final(self)@ == acknowledge_spec(old(self)@, message_id, token@),
    {
        let ghost v = self@;
        let j = match self.find_pending(message_id) {
            Some(j) => j,
            None => {
                return;
            },
        };
        proof {
            lemma_to_map_index(self.pending@, pending_key(), pending_value(), j as int);
        }
        let key = self.pending[j].register_resource.clone();
        let i = match self.find_registration(&key) {
            Some(i) => i,
            None => {
                return;
            },
        };
        proof {
            lemma_to_map_index(self.registrations@, registration_key(), registration_value(), i as int);
        }
        if !bytes_equal(&self.registrations[i].token, token) {
            return;
        }
        self.set_unacknowledged(i, None);
        let ghost mid_pending = self.pending@;
        self.pending.remove(j);
        proof {
            lemma_to_map_remove(mid_pending, pending_key(), pending_value(), j as int);
            let w = acknowledge_spec(v, message_id, token@);
            assert(self@.registrations == w.registrations);
            assert(self@.pending == w.pending);
            assert(self@ == w);
        }
    }
}

impl<R> Observer<R> {
    /// Removes the registration of `address` for `path` (see
    /// `remove_registration_spec`).  Returns `false` when the registration
    /// exists under another token, `true` otherwise.
    pub fn remove_register_resource(&mut self, address: &String, path: &String, token: &Vec<u8>) -> (r: bool)
        requires
            old(self).wf(),
        ensures
            final(self).wf(),
            final(self)@ == remove_registration_spec(old(self)@, address@, path@, token@),
            r == !(old(self)@.registrations.dom().contains(register_key(address@, path@))
                && old(self)@.registrations[register_key(address@, path@)].token != token@),
    {
        let ghost v = self@;
        let key = format_register_resource(address, path);
        let i = match self.find_registration(&key) {
            Some(i) => i,
            None => {
                return true;
            },
        };
        proof {
            lemma_to_map_index(self.registrations@, registration_key(), registration_value(), i as int);
        }
        if !bytes_equal(&self.registrations[i].token, token) {
            return false;
        }
        if let Some(m) = self.registrations[i].unacknowledge_message {
            let j = match self.find_pending(m) {
                Some(j) => j,
                None => {
                    return true;
                },
            };
            let ghost p0 = self.pending@;
            self.pending.remove(j);
            proof {
                lemma_to_map_remove(p0, pending_key(), pending_value(), j as int);
            }
        }
        let ghost r0 = self.registrations@;
        self.registrations.remove(i);
        proof {
            lemma_to_map_remove(r0, registration_key(), registration_value(), i as int);
            let w = remove_registration_spec(v, address@, path@, token@);
            assert(self@.registrations == w.registrations);
            assert(self@.pending == w.pending);
            assert(self@ == w);
        }
        true
    }

    /// Handles a reset (see `reset_spec`).
    pub fn reset_notification(&mut self, message_id: u16, source: &Option<String>)
        requires
            old(self).wf(),
        ensures
            final(self).wf(),
            final(self)@ == reset_spec(old(self)@, message_id, match source {
                Some(s) => Some(s@),
                None => None,
            }),
    {
        let ghost v = self@;
        let ghost src = match source {
            Some(s) => Some(s@),
            None => None::<Seq<char>>,
        };
        let j = match self.find_pending(message_id) {
            Some(j) => j,
            None => {
                return;
            },
        };
        proof {
            lemma_to_map_index(self.pending@, pending_key(), pending_value(), j as int);
        }
        let key = self.pending[j].register_resource.clone();
        let i = match self.find_registration(&key) {
            Some(i) => i,
            None => {
                return;
            },
        };
        proof {
            lemma_to_map_index(self.registrations@, registration_key(), registration_value(), i as int);
        }
        let same_source = match source {
            Some(s) => *s == self.registrations[i].address,
            None => false,
        };
        if !same_source {
            return;
        }
        let ghost p0 = self.pending@;
        self.pending.remove(j);
        proof {
            lemma_to_map_remove(p0, pending_key(), pending_value(), j as int);
        }
        let ghost r0 = self.registrations@;
        self.registrations.remove(i);
        proof {
            lemma_to_map_remove(r0, registration_key(), registration_value(), i as int);
            let w = reset_spec(v, message_id, src);
            assert(self@.registrations == w.registrations);
            assert(self@.pending == w.pending);
            assert(self@ == w);
        }
    }
}

// ---------------------------------------------------------------------
// Notifications and registration.
// ---------------------------------------------------------------------

/// What a notification (or the answer to a registration) carries besides
/// its token and message id: the observe sequence number, the entity tag,
/// the total size of the resource (`Size2`), the first block option when
/// only the first block is sent (`Block2`), and the payload.
pub struct NotificationContent {
    pub observe: u32,
    pub etag: Vec<u8>,
    pub size2: Vec<u8>,
    pub block2: Option<Vec<u8>>,
    pub payload: Vec<u8>,
}

/// `NotificationContent` with its byte vectors as sequences.
pub struct ContentView {
    pub observe: u32,
    pub etag: Seq<u8>,
    pub size2: Seq<u8>,
    pub block2: Option<Seq<u8>>,
    pub payload: Seq<u8>,
}

pub open spec fn content_view(c: NotificationContent) -> ContentView {
    ContentView {
        observe: c.observe,
        etag: c.etag@,
        size2: c.size2@,
        block2: match c.block2 {
            Some(b) => Some(b@),
            None => None,
        },
        payload: c.payload@,
    }
}

/// The bytes of the block option for the first block, with more blocks to
/// come, of blocks of `block_size` bytes.
pub open spec fn first_block_bytes(block_size: nat) -> Seq<u8> {
    uint16_bytes(block_scalar(BlockValue { num: 0, more: true, size_exponent: size_exponent_for(block_size) as u8 }))
}

/// Whether a payload of `len` bytes is cut to its first block of the
/// preferred size.
pub open spec fn sends_first_block(len: nat, block_size: Option<usize>) -> bool {
    match block_size {
        Some(b) => len > b,
        None => false,
    }
}

/// The content of a notification of resource `r` to an observer that
/// prefers blocks of `block_size` bytes: where the payload is longer than
/// the block size, only the first block is sent, with a block option that
/// announces more.
pub open spec fn content_spec(r: ResourceView, block_size: Option<usize>) -> ContentView {
    let n = r.payload.len();
    let cut = sends_first_block(n, block_size);
    ContentView {
        observe: r.sequence,
        etag: r.etag,
        size2: coap_uint_bytes(if n > u32::MAX { u32::MAX as nat } else { n }),
        block2: if cut { Some(first_block_bytes(block_size->0 as nat)) } else { None },
        payload: if cut { r.payload.take(block_size->0 as int) } else { r.payload },
    }
}

/// Where a notification is cut to the observer's preferred block size `b`
/// (a resource longer than `b`), its payload is the resource's first `b`
/// bytes and its Block2 option announces block number 0 with more blocks to
/// come, of the largest power-of-two block size not above `b`; otherwise the
/// whole payload goes without a Block2 option.  The entity tag and the
/// sequence number are the resource's, and Size2 gives its whole length.
pub proof fn lemma_notification_first_block(r: ResourceView, block_size: Option<usize>)
    requires
        block_size matches Some(b) ==> 16 <= b <= 2048,
    ensures
        ({
            let c = content_spec(r, block_size);
            &&& c.observe == r.sequence
            &&& c.etag == r.etag
            &&& r.payload.len() <= u32::MAX ==> c.size2 == coap_uint_bytes(r.payload.len())
            &&& match block_size {
                Some(b) => if r.payload.len() > b {
                    &&& c.payload == r.payload.take(b as int)
                    &&& c.block2 matches Some(bytes) && bytes.len() <= 2 && {
                        let bv = block_of_scalar(be_value(bytes) as int);
                        &&& bv.num == 0
                        &&& bv.more
                        &&& pow2(bv.size_exponent as nat + 4) <= b < pow2(bv.size_exponent as nat + 5)
                    }
                } else {
                    c.payload == r.payload && c.block2 is None
                },
                None => c.payload == r.payload && c.block2 is None,
            }
        }),
{
    if let Some(b) = block_size {
        if r.payload.len() > b {
            let e = size_exponent_for(b as nat);
            crate::block::lemma_floor_log2_bounds(b as nat);
            vstd::arithmetic::power2::lemma2_to64();
            let k = crate::block::floor_log2(b as nat);
            if k < 4 {
                vstd::arithmetic::power2::lemma_pow2_strictly_increases(k + 1, 4);
            }
            if k > 11 {
                vstd::arithmetic::power2::lemma_pow2_strictly_increases(12, k);
            }
            assert(4 <= k <= 11);
            assert(e == k - 4);
            let bv = BlockValue { num: 0, more: true, size_exponent: e as u8 };
            crate::block::lemma_block_value_roundtrip(bv);
            assert(bv.size_exponent as nat + 4 == k);
        }
    }
}

/// What the caller of the observer is to send.
pub enum ObserverAction {
    /// Answer the request with its response, with the status NotFound.
    RespondNotFound,
    /// Answer the request with its response made a non-confirmable
    /// observe response with this content.
    Respond(NotificationContent),
    /// Send a confirmable notification with the code Content through the
    /// responder of registration `key`.
    Notify { key: String, token: Vec<u8>, message_id: u16, content: NotificationContent },
}

/// `ObserverAction` with its byte vectors and strings as sequences.
pub enum ActionView {
    RespondNotFound,
    Respond(ContentView),
    Notify { key: Seq<char>, token: Seq<u8>, message_id: u16, content: ContentView },
}

pub open spec fn action_view(a: ObserverAction) -> ActionView {
    match a {
        ObserverAction::RespondNotFound => ActionView::RespondNotFound,
        ObserverAction::Respond(c) => ActionView::Respond(content_view(c)),
        ObserverAction::Notify { key, token, message_id, content } => ActionView::Notify {
            key: key@,
            token: token@,
            message_id,
            content: content_view(content),
        },
    }
}

pub open spec fn actions_view(a: Seq<ObserverAction>) -> Seq<ActionView> {
    a.map_values(|x: ObserverAction| action_view(x))
}

/// The first `n` bytes of `v`.
fn prefix(v: &Vec<u8>, n: usize) -> (r: Vec<u8>)
    requires
        n <= v@.len(),
    ensures
        r@ == v@.take(n as int),
{
    let mut r: Vec<u8> = Vec::new();
    let mut i: usize = 0;
    while i < n
        invariant
            i <= n <= v@.len(),
            r@ == v@.take(i as int),
        decreases n - i,
    {
        r.push(v[i]);
        i = i + 1;
        assert(r@ =~= v@.take(i as int));
    }
    r
}

/// Builds the content of a notification of `resource` (see
/// `content_spec`).
fn content_of(resource: &Resource, block_size: Option<usize>) -> (c: NotificationContent)
    requires
        block_size matches Some(b) ==> 16 <= b <= 2048,
    ensures
        content_view(c) == content_spec(resource_value()(*resource), block_size),
{
    let total_size: usize = resource.payload.len();
    let size2 = encode_coap_uint(total_size);
    let mut block2: Option<Vec<u8>> = None;
    let mut payload: Vec<u8> = Vec::new();
    match block_size {
        Some(b) => {
            if total_size > b {
                match BlockValue::new(0, true, b) {
                    Ok(bv) => {
                        block2 = Some(bv.to_bytes());
                    },
                    Err(_) => {},
                }
                payload = prefix(&resource.payload, b);
            } else {
                payload = resource.payload.clone();
            }
        },
        None => {
            payload = resource.payload.clone();
        },
    }
    let c = NotificationContent {
        observe: resource.sequence,
        etag: resource.etag.clone(),
        size2,
        block2,
        payload,
    };
    assert(content_view(c) =~~= content_spec(resource_value()(*resource), block_size));
    c
}

/// The block size that a block option value asks for: `None` when the
/// option is absent or longer than two bytes.
pub open spec fn preferred_block_size_spec(block2: Option<Seq<u8>>) -> Option<usize> {
    match block2 {
        Some(b) => if b.len() <= 2 {
            Some(pow2(block_of_scalar(be_value(b) as int).size_exponent as nat + 4) as usize)
        } else {
            None
        },
        None => None,
    }
}

/// A registration of `address` for `path` with `token`: where the resource
/// does not exist nothing changes; an existing registration with the same
/// key drops its pending notification and takes the new responder, token
/// and block size; otherwise a new registration is added.
pub open spec fn register_spec<R>(
    v: ObserverView<R>,
    address: Seq<char>,
    path: Seq<char>,
    token: Seq<u8>,
    block_size: Option<usize>,
    responder: R,
) -> ObserverView<R> {
    let k = register_key(address, path);
    if !v.resources.dom().contains(path) {
        v
    } else if v.registrations.dom().contains(k) {
        let g = v.registrations[k];
        ObserverView {
            registrations: v.registrations.insert(
                k,
                RegistrationView {
                    address: g.address,
                    resource: g.resource,
                    responder,
                    token,
                    unacknowledged: None,
                    preferred_block_size: block_size,
                },
            ),
            pending: match g.unacknowledged {
                Some(m) => v.pending.remove(m),
                None => v.pending,
            },
            ..v
        }
    } else {
        ObserverView {
            registrations: v.registrations.insert(
                k,
                RegistrationView {
                    address,
                    resource: path,
                    responder,
                    token,
                    unacknowledged: None,
                    preferred_block_size: block_size,
                },
            ),
            ..v
        }
    }
}

/// What a registration answers: nothing without a response to fill;
/// NotFound for a resource that does not exist; else the resource's
/// content for the requested block size.
pub open spec fn register_actions<R>(v: ObserverView<R>, path: Seq<char>, block_size: Option<usize>, has_response: bool) -> Seq<ActionView> {
    if !has_response {
        Seq::empty()
    } else if !v.resources.dom().contains(path) {
        seq![ActionView::RespondNotFound]
    } else {
        seq![ActionView::Respond(content_spec(v.resources[path], block_size))]
    }
}

impl<R> Observer<R> {
    /// The block size that the block option value `block2` asks for (see
    /// `preferred_block_size_spec`).
    fn preferred_block_size(block2: &Option<Vec<u8>>) -> (r: Option<usize>)
        ensures
            r == preferred_block_size_spec(match block2 {
                Some(b) => Some(b@),
                None => None,
            }),
            r matches Some(b) ==> 16 <= b <= 2048,
    {
        match block2 {
            Some(b) => match BlockValue::try_from_bytes(b.clone()) {
                Ok(bv) => {
                    proof {
                        vstd::arithmetic::power2::lemma2_to64();
                        let e = bv.size_exponent as nat + 4;
                        assert(4 <= e <= 11);
                        assert(pow2(4) == 16 && pow2(11) == 2048);
                        if e > 4 {
                            vstd::arithmetic::power2::lemma_pow2_strictly_increases(4, e);
                        }
                        if e < 11 {
                            vstd::arithmetic::power2::lemma_pow2_strictly_increases(e, 11);
                        }
                    }
                    Some(bv.size())
                },
                Err(_) => None,
            },
            None => None,
        }
    }

    /// Records a registration (see `register_spec`; the resource exists).
    fn record_register_resource(
        &mut self,
        responder: R,
        address: &String,
        path: &String,
        token: &Vec<u8>,
        preferred_block_size: Option<usize>,
    )
        requires
            old(self).wf(),
            old(self)@.resources.dom().contains(path@),
            preferred_block_size matches Some(b) ==> 16 <= b <= 2048,
        ensures
            final(self).wf(),
            final(self)@ == register_spec(old(self)@, address@, path@, token@, preferred_block_size, responder),
    {
        let ghost v = self@;
        let key = format_register_resource(address, path);
        match self.find_registration(&key) {
            Some(i) => {
                proof {
                    lemma_to_map_index(self.registrations@, registration_key(), registration_value(), i as int);
                }
                if let Some(m) = self.registrations[i].unacknowledge_message {
                    match self.find_pending(m) {
                        Some(j) => {
                            let ghost p0 = self.pending@;
                            self.pending.remove(j);
                            proof {
                                lemma_to_map_remove(p0, pending_key(), pending_value(), j as int);
                            }
                        },
                        None => {},
                    }
                }
                let ghost r0 = self.registrations@;
                let old_g = self.registrations.remove(i);
                let g = Registration {
                    key: old_g.key,
                    address: old_g.address,
                    resource: old_g.resource,
                    responder,
                    token: token.clone(),
                    unacknowledge_message: None,
                    preferred_block_size,
                };
                self.registrations.insert(i, g);
                proof {
                    assert(self.registrations@ =~= r0.update(i as int, g));
                    lemma_to_map_update(r0, registration_key(), registration_value(), i as int, g);
                    let w = register_spec(v, address@, path@, token@, preferred_block_size, responder);
                    assert(self@.registrations == w.registrations);
                    assert(self@.pending == w.pending);
                    assert(self@ == w);
                }
            },
            None => {
                let g = Registration {
                    key,
                    address: address.clone(),
                    resource: path.clone(),
                    responder,
                    token: token.clone(),
                    unacknowledge_message: None,
                    preferred_block_size,
                };
                let ghost r0 = self.registrations@;
                self.registrations.push(g);
                proof {
                    lemma_to_map_push(r0, registration_key(), registration_value(), g);
                    let w = register_spec(v, address@, path@, token@, preferred_block_size, responder);
                    assert(self@.registrations == w.registrations);
                    assert(self@ == w);
                }
            },
        }
    }

    /// Handles an observe registration from the client at `address` for
    /// `path` with `token` and, if the request has one, the block option
    /// value `block2`.  `has_response` tells whether the request carries a
    /// response to fill.
    pub fn register(
        &mut self,
        responder: R,
        address: &String,
        path: &String,
        token: &Vec<u8>,
        block2: &Option<Vec<u8>>,
        has_response: bool,
    ) -> (actions: Vec<ObserverAction>)
        requires
            old(self).wf(),
        ensures
            final(self).wf(),
            final(self)@ == register_spec(
                old(self)@,
                address@,
                path@,
                token@,
                preferred_block_size_spec(match block2 {
                    Some(b) => Some(b@),
                    None => None,
                }),
                responder,
            ),
            actions_view(actions@) == register_actions(
                old(self)@,
                path@,
                preferred_block_size_spec(match block2 {
                    Some(b) => Some(b@),
                    None => None,
                }),
                has_response,
            ),
    {
        let ghost v = self@;
        let mut actions: Vec<ObserverAction> = Vec::new();
        let ri = match self.find_resource(path) {
            Some(ri) => ri,
            None => {
                if has_response {
                    actions.push(ObserverAction::RespondNotFound);
                }
                proof {
                    assert(actions_view(actions@) =~= register_actions(v, path@, preferred_block_size_spec(match block2 {
                        Some(b) => Some(b@),
                        None => None,
                    }), has_response));
                }
                return actions;
            },
        };
        let preferred_block_size = Self::preferred_block_size(block2);
        self.record_register_resource(responder, address, path, token, preferred_block_size);
        if has_response {
            let ri2 = match self.find_resource(path) {
                Some(ri2) => ri2,
                None => {
                    return actions;
                },
            };
            proof {
                lemma_to_map_index(self.resources@, resource_key(), resource_value(), ri2 as int);
            }
            let content = content_of(&self.resources[ri2], preferred_block_size);
            actions.push(ObserverAction::Respond(content));
        }
        proof {
            assert(actions_view(actions@) =~= register_actions(v, path@, preferred_block_size, has_response));
        }
        actions
    }
}

// ---------------------------------------------------------------------
// Resource changes: the new state is stored and every observer is
// notified with a confirmable message.
// ---------------------------------------------------------------------

/// The keys of the registrations in `s` that observe `path`, in order.
pub open spec fn keys_observing<R>(s: Seq<Registration<R>>, path: Seq<char>) -> Seq<Seq<char>>
    decreases s.len(),
{
    if s.len() == 0 {
        Seq::empty()
    } else {
        let rest = keys_observing(s.drop_last(), path);
        if s.last().resource@ == path {
            rest.push(s.last().key@)
        } else {
            rest
        }
    }
}

/// The resources after `path` was written with `payload`: a new resource
/// starts at sequence number 0, a known one counts one up; the entity tag
/// follows the payload.
pub open spec fn record_resource_spec(resources: Map<Seq<char>, ResourceView>, path: Seq<char>, payload: Seq<u8>) -> Map<Seq<char>, ResourceView> {
    let sequence: u32 = if resources.dom().contains(path) {
        (resources[path].sequence + 1) as u32
    } else {
        0
    };
    resources.insert(path, ResourceView { payload, sequence, etag: etag_of(payload) })
}

/// The observer after `path` was written with `payload`, before any
/// notification goes out.
pub open spec fn changed_spec<R>(v: ObserverView<R>, path: Seq<char>, payload: Seq<u8>) -> ObserverView<R> {
    ObserverView { resources: record_resource_spec(v.resources, path, payload), ..v }
}

/// Registration `k` now waits for the acknowledgement of message `id`; the
/// message it waited for before, if any, is no longer pending.
pub open spec fn record_unacknowledged_spec<R>(v: ObserverView<R>, k: Seq<char>, id: u16) -> ObserverView<R> {
    let g = v.registrations[k];
    ObserverView {
        registrations: v.registrations.insert(k, with_unacknowledged(g, Some(id))),
        pending: (match g.unacknowledged {
            Some(old) => v.pending.remove(old),
            None => v.pending,
        }).insert(id, (k, 1)),
        ..v
    }
}

/// One notification to registration `k`: the next message id is taken and
/// the notification waits for its acknowledgement.
pub open spec fn notify_step<R>(v: ObserverView<R>, k: Seq<char>) -> ObserverView<R> {
    let id = (v.current_message_id + 1) as u16;
    record_unacknowledged_spec(ObserverView { current_message_id: id, ..v }, k, id)
}

/// Notifications to the registrations `keys`, in order.
pub open spec fn notify_all<R>(v: ObserverView<R>, keys: Seq<Seq<char>>) -> ObserverView<R>
    decreases keys.len(),
{
    if keys.len() == 0 {
        v
    } else {
        notify_step(notify_all(v, keys.drop_last()), keys.last())
    }
}

/// The notifications of resource `path` to the registrations `keys`, in
/// order, with consecutive message ids after the last one given out.
pub open spec fn notify_actions<R>(v: ObserverView<R>, path: Seq<char>, keys: Seq<Seq<char>>) -> Seq<ActionView> {
    Seq::new(
        keys.len(),
        |i: int|
            ActionView::Notify {
                key: keys[i],
                token: v.registrations[keys[i]].token,
                message_id: (v.current_message_id + i + 1) as u16,
                content: content_spec(v.resources[path], v.registrations[keys[i]].preferred_block_size),
            },
    )
}

/// Every key that `keys_observing` lists is the key of a registration in
/// `s` that observes `path`, and the other way round; none is listed twice.
pub proof fn lemma_keys_observing<R>(s: Seq<Registration<R>>, path: Seq<char>)
    requires
        keys_distinct(s, registration_key()),
    ensures
        keys_observing(s, path).no_duplicates(),
        forall|k: Seq<char>| keys_observing(s, path).contains(k) <==> exists|i: int|
            0 <= i < s.len() && #[trigger] s[i].key@ == k && s[i].resource@ == path,
    decreases s.len(),
{
    if s.len() > 0 {
        let d = s.drop_last();
        assert(keys_distinct(d, registration_key()));
        lemma_keys_observing(d, path);
        let rest = keys_observing(d, path);
        assert forall|k: Seq<char>| keys_observing(s, path).contains(k) implies exists|i: int|
            0 <= i < s.len() && #[trigger] s[i].key@ == k && s[i].resource@ == path by {
            if rest.contains(k) {
                assert(exists|i: int| 0 <= i < d.len() && #[trigger] d[i].key@ == k && d[i].resource@ == path);
                let i = choose|i: int| 0 <= i < d.len() && #[trigger] d[i].key@ == k && d[i].resource@ == path;
                assert(s[i] == d[i]);
                assert(s[i].key@ == k && s[i].resource@ == path);
            } else {
                assert(s.last().resource@ == path);
                assert(k == s.last().key@) by {
                    let j = choose|j: int| 0 <= j < keys_observing(s, path).len() && keys_observing(s, path)[j] == k;
                    if j < rest.len() {
                        assert(rest[j] == k);
                    }
                }
                assert(s[s.len() - 1] == s.last());
                assert(s[s.len() - 1].key@ == k && s[s.len() - 1].resource@ == path);
            }
        }
        assert forall|k: Seq<char>| (exists|i: int| 0 <= i < s.len() && #[trigger] s[i].key@ == k && s[i].resource@ == path)
            implies keys_observing(s, path).contains(k) by {
            let i = choose|i: int| 0 <= i < s.len() && #[trigger] s[i].key@ == k && s[i].resource@ == path;
            if i < s.len() - 1 {
                assert(d[i] == s[i]);
                assert(d[i].key@ == k && d[i].resource@ == path);
                assert(rest.contains(k));
                let j = choose|j: int| 0 <= j < rest.len() && rest[j] == k;
                if s.last().resource@ == path {
                    assert(keys_observing(s, path)[j] == k);
                } else {
                    assert(keys_observing(s, path)[j] == k);
                }
            } else {
                assert(s[i] == s.last());
                assert(keys_observing(s, path) == rest.push(k));
                assert(keys_observing(s, path)[rest.len() as int] == k);
            }
        }
        if s.last().resource@ == path {
            assert(!rest.contains(s.last().key@)) by {
                if rest.contains(s.last().key@) {
                    let i = choose|i: int| 0 <= i < d.len() && #[trigger] d[i].key@ == s.last().key@ && d[i].resource@ == path;
                    assert(s[i] == d[i]);
                    assert(registration_key()(s[i]) == registration_key()(s[s.len() - 1]));
                }
            }
            let r = rest.push(s.last().key@);
            assert forall|a: int, b: int| 0 <= a < r.len() && 0 <= b < r.len() && a != b implies r[a] != r[b] by {
                if a < rest.len() && b < rest.len() {
                } else if a < rest.len() {
                    assert(rest.contains(r[a]));
                } else {
                    assert(rest.contains(r[b]));
                }
            }
        }
    }
}

impl<R> Observer<R> {
    /// The keys of the registrations that observe `path`, in the order in
    /// which the observer keeps them.
    pub closed spec fn observer_keys(&self, path: Seq<char>) -> Seq<Seq<char>> {
        keys_observing(self.registrations@, path)
    }

    /// `observer_keys` lists each registration that observes `path` once,
    /// and no other.
    pub proof fn lemma_observer_keys(&self, path: Seq<char>)
        requires
            self.wf(),
        ensures
            self.observer_keys(path).no_duplicates(),
            forall|k: Seq<char>| #[trigger] self.observer_keys(path).contains(k) <==> (
                self@.registrations.dom().contains(k) && self@.registrations[k].resource == path),
    {
        lemma_keys_observing(self.registrations@, path);
        assert forall|k: Seq<char>| #[trigger] self.observer_keys(path).contains(k) <==> (
            self@.registrations.dom().contains(k) && self@.registrations[k].resource == path) by {
            lemma_to_map_dom(self.registrations@, registration_key(), registration_value(), k);
            if self@.registrations.dom().contains(k) {
                let i = choose|i: int| 0 <= i < self.registrations@.len() && registration_key()(self.registrations@[i]) == k;
                lemma_to_map_index(self.registrations@, registration_key(), registration_value(), i);
                assert(self.registrations@[i].key@ == k);
            }
            if self.observer_keys(path).contains(k) {
                let i = choose|i: int| 0 <= i < self.registrations@.len() && #[trigger] self.registrations@[i].key@ == k
                    && self.registrations@[i].resource@ == path;
                lemma_to_map_index(self.registrations@, registration_key(), registration_value(), i);
            }
        }
    }

    /// The number of registrations that observe `path`.
    pub fn count_observers(&self, path: &String) -> (r: usize)
        requires
            self.wf(),
        ensures
            r == self.observer_keys(path@).len(),
    {
        let keys = self.collect_observer_keys(path);
        keys.len()
    }

    /// The keys of the registrations that observe `path`, in storage order.
    fn collect_observer_keys(&self, path: &String) -> (keys: Vec<String>)
        requires
            self.wf(),
        ensures
            keys@.len() == self.observer_keys(path@).len(),
            forall|i: int| 0 <= i < keys@.len() ==> #[trigger] keys@[i]@ == self.observer_keys(path@)[i],
    {
        let mut keys: Vec<String> = Vec::new();
        let mut i: usize = 0;
        while i < self.registrations.len()
            invariant
                i <= self.registrations@.len(),
                keys@.len() == keys_observing(self.registrations@.take(i as int), path@).len(),
                forall|j: int| 0 <= j < keys@.len() ==> #[trigger] keys@[j]@ == keys_observing(
                    self.registrations@.take(i as int),
                    path@,
                )[j],
            decreases self.registrations@.len() - i,
        {
            let ghost before = keys_observing(self.registrations@.take(i as int), path@);
            assert(self.registrations@.take(i as int + 1).drop_last() =~= self.registrations@.take(i as int));
            if self.registrations[i].resource == *path {
                keys.push(self.registrations[i].key.clone());
            }
            i = i + 1;
        }
        assert(self.registrations@.take(self.registrations@.len() as int) =~= self.registrations@);
        keys
    }

    /// Stores the new payload of `path` (see `record_resource_spec`).
    fn record_resource(&mut self, path: &String, payload: &Vec<u8>)
        requires
            old(self).wf(),
            old(self)@.resources.dom().contains(path@) ==> old(self)@.resources[path@].sequence < u32::MAX,
        ensures
            final(self).wf(),
            final(self)@ == changed_spec(old(self)@, path@, payload@),
            final(self).registrations == old(self).registrations,
    {
        let ghost v = self@;
        let etag = compute_etag(payload.as_slice());
        match self.find_resource(path) {
            Some(i) => {
                proof {
                    lemma_to_map_index(self.resources@, resource_key(), resource_value(), i as int);
                }
                let ghost r0 = self.resources@;
                let old_r = self.resources.remove(i);
                let r = Resource { path: old_r.path, payload: payload.clone(), sequence: old_r.sequence + 1, etag };
                self.resources.insert(i, r);
                proof {
                    assert(self.resources@ =~= r0.update(i as int, r));
                    lemma_to_map_update(r0, resource_key(), resource_value(), i as int, r);
                    assert(self@.resources == changed_spec(v, path@, payload@).resources);
                    assert(self@.resources.dom() =~= v.resources.dom());
                }
            },
            None => {
                let r = Resource { path: path.clone(), payload: payload.clone(), sequence: 0, etag };
                let ghost r0 = self.resources@;
                self.resources.push(r);
                proof {
                    lemma_to_map_push(r0, resource_key(), resource_value(), r);
                    assert(self@.resources == changed_spec(v, path@, payload@).resources);
                }
            },
        }
        assert(self@ == changed_spec(v, path@, payload@));
    }

    /// Registration `i` waits for message `id` (see
    /// `record_unacknowledged_spec`); `id` is not pending yet.
    fn record_unacknowledged(&mut self, i: usize, id: u16)
        requires
            old(self).wf(),
            i < old(self).registrations@.len(),
            !old(self)@.pending.dom().contains(id),
            id <= old(self).current_message_id,
        ensures
            final(self).wf(),
            final(self)@ == record_unacknowledged_spec(old(self)@, old(self).registrations@[i as int].key@, id),
            final(self).registrations@.len() == old(self).registrations@.len(),
            forall|j: int| 0 <= j < final(self).registrations@.len() ==> #[trigger] final(self).registrations@[j].key@
                == old(self).registrations@[j].key@,
    {
        let ghost v = self@;
        let ghost k = self.registrations@[i as int].key@;
        proof {
            lemma_to_map_index(self.registrations@, registration_key(), registration_value(), i as int);
        }
        if let Some(old_id) = self.registrations[i].unacknowledge_message {
            match self.find_pending(old_id) {
                Some(j) => {
                    let ghost p0 = self.pending@;
                    self.pending.remove(j);
                    proof {
                        lemma_to_map_remove(p0, pending_key(), pending_value(), j as int);
                    }
                },
                None => {},
            }
        }
        self.set_unacknowledged(i, Some(id));
        let p = PendingMessage { message_id: id, register_resource: self.registrations[i].key.clone(), try_times: 1 };
        let ghost p0 = self.pending@;
        proof {
            let mid_pending = match v.registrations[k].unacknowledged {
                Some(o) => v.pending.remove(o),
                None => v.pending,
            };
            assert(self@.pending == mid_pending);
        }
        self.pending.push(p);
        proof {
            lemma_to_map_push(p0, pending_key(), pending_value(), p);
            let w = record_unacknowledged_spec(v, k, id);
            assert(self@.registrations == w.registrations);
            assert(self@.pending == w.pending);
            assert(self@ == w);
        }
    }

    /// Handles a new state of the resource at `path`: stores it and
    /// notifies its observers in storage order, each with the next message
    /// id (see `changed_spec`, `notify_all` and `notify_actions`).  The
    /// sequence number and the message ids must not run past their range.
    pub fn resource_changed(&mut self, path: &String, payload: &Vec<u8>) -> (actions: Vec<ObserverAction>)
        requires
            old(self).wf(),
            old(self)@.resources.dom().contains(path@) ==> old(self)@.resources[path@].sequence < u32::MAX,
            old(self)@.current_message_id + old(self).observer_keys(path@).len() <= u16::MAX,
        ensures
            final(self).wf(),
            final(self)@ == notify_all(changed_spec(old(self)@, path@, payload@), old(self).observer_keys(path@)),
            actions_view(actions@) == notify_actions(
                changed_spec(old(self)@, path@, payload@),
                path@,
                old(self).observer_keys(path@),
            ),
    {
        let ghost keys_spec = self.observer_keys(path@);
        proof {
            self.lemma_observer_keys(path@);
        }
        self.record_resource(path, payload);
        let ghost v1 = self@;
        let keys = self.collect_observer_keys(path);
        let mut actions: Vec<ObserverAction> = Vec::new();
        let mut n: usize = 0;
        while n < keys.len()
            invariant
                self.wf(),
                keys@.len() == keys_spec.len(),
                forall|j: int| 0 <= j < keys@.len() ==> #[trigger] keys@[j]@ == keys_spec[j],
                forall|k: Seq<char>| keys_spec.contains(k) ==> v1.registrations.dom().contains(k),
                v1.current_message_id + keys_spec.len() <= u16::MAX,
                n <= keys@.len(),
                self@ == notify_all(v1, keys_spec.take(n as int)),
                self.current_message_id == v1.current_message_id + n,
                self@.resources == v1.resources,
                self@.registrations.dom() == v1.registrations.dom(),
                forall|k: Seq<char>| #[trigger] v1.registrations.dom().contains(k) ==> {
                    &&& self@.registrations[k].token == v1.registrations[k].token
                    &&& self@.registrations[k].preferred_block_size == v1.registrations[k].preferred_block_size
                },
                v1.resources.dom().contains(path@),
                actions@.len() == n,
                actions_view(actions@) == notify_actions(v1, path@, keys_spec.take(n as int)),
            decreases keys@.len() - n,
        {
            let ghost before = self@;
            let ghost acts0 = actions@;
            assert(keys_spec.contains(keys_spec[n as int]));
            let i = match self.find_registration(&keys[n]) {
                Some(i) => i,
                None => {
                    return actions;
                },
            };
            proof {
                lemma_to_map_index(self.registrations@, registration_key(), registration_value(), i as int);
            }
            let ri = match self.find_resource(path) {
                Some(ri) => ri,
                None => {
                    return actions;
                },
            };
            proof {
                lemma_to_map_index(self.resources@, resource_key(), resource_value(), ri as int);
                assert(!self@.pending.dom().contains((self.current_message_id + 1) as u16));
            }
            self.current_message_id = self.current_message_id + 1;
            let id = self.current_message_id;
            let content = content_of(&self.resources[ri], self.registrations[i].preferred_block_size);
            let token = self.registrations[i].token.clone();
            actions.push(ObserverAction::Notify { key: keys[n].clone(), token, message_id: id, content });
            self.record_unacknowledged(i, id);
            proof {
                let k = keys_spec[n as int];
                assert(keys_spec.take(n as int + 1).drop_last() =~= keys_spec.take(n as int));
                assert(self@ == notify_step(before, k));
                assert(self@.registrations.dom() =~= v1.registrations.dom());
                let ks = keys_spec.take(n as int + 1);
                let na = notify_actions(v1, path@, ks);
                assert(v1.registrations.dom().contains(k));
                assert(action_view(actions@[n as int]) == na[n as int]);
                assert(actions@.drop_last() =~= acts0);
                assert forall|j: int| 0 <= j < n implies action_view(actions@[j]) == na[j] by {
                    assert(actions@[j] == acts0[j]);
                    assert(actions_view(acts0)[j] == notify_actions(v1, path@, keys_spec.take(n as int))[j]);
                    assert(ks[j] == keys_spec.take(n as int)[j]);
                }
                assert(actions_view(actions@) =~= na);
            }
            n = n + 1;
        }
        proof {
            assert(keys_spec.take(keys_spec.len() as int) =~= keys_spec);
        }
        actions
    }
}

// ---------------------------------------------------------------------
// Retransmission of unacknowledged notifications.
// ---------------------------------------------------------------------

/// One timer tick for pending message `m`: after more than
/// `DEFAULT_UNACKNOWLEDGE_MESSAGE_TRY_TIMES` sends the observer gives up on
/// it; otherwise it counts one more send.
pub open spec fn retry_step<R>(v: ObserverView<R>, m: u16) -> ObserverView<R> {
    let k = v.pending[m].0;
    let t = v.pending[m].1;
    if t > DEFAULT_UNACKNOWLEDGE_MESSAGE_TRY_TIMES {
        ObserverView {
            registrations: v.registrations.insert(k, with_unacknowledged(v.registrations[k], None)),
            pending: v.pending.remove(m),
            ..v
        }
    } else {
        ObserverView { pending: v.pending.insert(m, (k, (t + 1) as usize)), ..v }
    }
}

/// Timer ticks for the pending messages `ids`, in order.
pub open spec fn retry_all<R>(v: ObserverView<R>, ids: Seq<u16>) -> ObserverView<R>
    decreases ids.len(),
{
    if ids.len() == 0 {
        v
    } else {
        retry_step(retry_all(v, ids.drop_last()), ids.last())
    }
}

/// The notifications that a timer tick sends again for the pending
/// messages `ids` of `v`, in order: one for each message that has not yet
/// used up its sends, with the last message id given out.
pub open spec fn retry_actions<R>(v: ObserverView<R>, ids: Seq<u16>) -> Seq<ActionView>
    decreases ids.len(),
{
    if ids.len() == 0 {
        Seq::empty()
    } else {
        let rest = retry_actions(v, ids.drop_last());
        let m = ids.last();
        let k = v.pending[m].0;
        let g = v.registrations[k];
        if v.pending[m].1 <= DEFAULT_UNACKNOWLEDGE_MESSAGE_TRY_TIMES {
            rest.push(
                ActionView::Notify {
                    key: k,
                    token: g.token,
                    message_id: v.current_message_id,
                    content: content_spec(v.resources[g.resource], g.preferred_block_size),
                },
            )
        } else {
            rest
        }
    }
}

impl<R> Observer<R> {
    /// The pending message ids in the order in which the observer keeps
    /// them.
    pub closed spec fn pending_ids(&self) -> Seq<u16> {
        self.pending@.map_values(|p: PendingMessage| p.message_id)
    }

    /// `pending_ids` lists each pending message once, and no other.
    pub proof fn lemma_pending_ids(&self)
        requires
            self.wf(),
        ensures
            self.pending_ids().no_duplicates(),
            forall|m: u16| #[trigger] self.pending_ids().contains(m) <==> self@.pending.dom().contains(m),
    {
        let ids = self.pending_ids();
        assert forall|a: int, b: int| 0 <= a < ids.len() && 0 <= b < ids.len() && a != b implies ids[a] != ids[b] by {
            assert(pending_key()(self.pending@[a]) != pending_key()(self.pending@[b]));
        }
        assert forall|m: u16| #[trigger] self.pending_ids().contains(m) <==> self@.pending.dom().contains(m) by {
            lemma_to_map_dom(self.pending@, pending_key(), pending_value(), m);
            if self@.pending.dom().contains(m) {
                let i = choose|i: int| 0 <= i < self.pending@.len() && pending_key()(self.pending@[i]) == m;
                assert(ids[i] == m);
            }
            if ids.contains(m) {
                let i = choose|i: int| 0 <= i < ids.len() && ids[i] == m;
                assert(pending_key()(self.pending@[i]) == m);
            }
        }
    }

    /// Handles a timer tick: every pending notification is sent again, with
    /// the last message id given out, until it has been sent more than
    /// `DEFAULT_UNACKNOWLEDGE_MESSAGE_TRY_TIMES` times; then it is dropped
    /// (see `retry_all` and `retry_actions`, over `pending_ids`).
    pub fn timer_handler(&mut self) -> (actions: Vec<ObserverAction>)
        requires
            old(self).wf(),
        ensures
            final(self).wf(),
            final(self)@ == retry_all(old(self)@, old(self).pending_ids()),
            actions_view(actions@) == retry_actions(old(self)@, old(self).pending_ids()),
    {
        let ghost v0 = self@;
        let ghost ids_spec = self.pending_ids();
        proof {
            self.lemma_pending_ids();
        }
        let mut ids: Vec<u16> = Vec::new();
        let mut c: usize = 0;
        while c < self.pending.len()
            invariant
                c <= self.pending@.len(),
                ids@ == self.pending@.take(c as int).map_values(|p: PendingMessage| p.message_id),
            decreases self.pending@.len() - c,
        {
            ids.push(self.pending[c].message_id);
            c = c + 1;
            assert(ids@ =~= self.pending@.take(c as int).map_values(|p: PendingMessage| p.message_id));
        }
        assert(self.pending@.take(self.pending@.len() as int) =~= self.pending@);
        assert(ids@ == ids_spec);
        assert forall|j: int| 0 <= j < ids_spec.len() implies self@.pending.dom().contains(#[trigger] ids_spec[j]) by {
            assert(ids_spec.contains(ids_spec[j]));
        }
        let mut actions: Vec<ObserverAction> = Vec::new();
        let mut n: usize = 0;
        while n < ids.len()
            invariant
                self.wf(),
                ids@ == ids_spec,
                ids_spec.no_duplicates(),
                forall|m: u16| #[trigger] ids_spec.contains(m) <==> v0.pending.dom().contains(m),
                consistent(v0),
                n <= ids@.len(),
                self@ == retry_all(v0, ids_spec.take(n as int)),
                actions_view(actions@) == retry_actions(v0, ids_spec.take(n as int)),
                actions@.len() == retry_actions(v0, ids_spec.take(n as int)).len(),
                self@.resources == v0.resources,
                self@.current_message_id == v0.current_message_id,
                self@.registrations.dom() == v0.registrations.dom(),
                forall|k: Seq<char>| #[trigger] v0.registrations.dom().contains(k) ==> {
                    &&& self@.registrations[k].token == v0.registrations[k].token
                    &&& self@.registrations[k].resource == v0.registrations[k].resource
                    &&& self@.registrations[k].preferred_block_size == v0.registrations[k].preferred_block_size
                },
                forall|j: int| n <= j < ids_spec.len() ==> self@.pending.dom().contains(#[trigger] ids_spec[j])
                    && self@.pending[ids_spec[j]] == v0.pending[ids_spec[j]],
            decreases ids@.len() - n,
        {
            let ghost before = self@;
            let ghost acts0 = actions@;
            let id = ids[n];
            assert(ids_spec.contains(ids_spec[n as int]));
            let j = match self.find_pending(id) {
                Some(j) => j,
                None => {
                    return actions;
                },
            };
            proof {
                lemma_to_map_index(self.pending@, pending_key(), pending_value(), j as int);
            }
            let key = self.pending[j].register_resource.clone();
            let i = match self.find_registration(&key) {
                Some(i) => i,
                None => {
                    return actions;
                },
            };
            proof {
                lemma_to_map_index(self.registrations@, registration_key(), registration_value(), i as int);
            }
            let ghost k = key@;
            let try_again: bool = self.pending[j].try_times <= DEFAULT_UNACKNOWLEDGE_MESSAGE_TRY_TIMES;
            if try_again {
                let ghost p0 = self.pending@;
                let mut p = self.pending.remove(j);
                p.try_times = p.try_times + 1;
                self.pending.insert(j, p);
                proof {
                    assert(self.pending@ =~= p0.update(j as int, p));
                    lemma_to_map_update(p0, pending_key(), pending_value(), j as int, p);
                }
                let ri = match self.find_resource(&self.registrations[i].resource) {
                    Some(ri) => ri,
                    None => {
                        return actions;
                    },
                };
                proof {
                    lemma_to_map_index(self.resources@, resource_key(), resource_value(), ri as int);
                }
                let content = content_of(&self.resources[ri], self.registrations[i].preferred_block_size);
                let token = self.registrations[i].token.clone();
                actions.push(
                    ObserverAction::Notify { key, token, message_id: self.current_message_id, content },
                );
            } else {
                self.set_unacknowledged(i, None);
                let ghost p0 = self.pending@;
                self.pending.remove(j);
                proof {
                    lemma_to_map_remove(p0, pending_key(), pending_value(), j as int);
                }
            }
            proof {
                let ts = ids_spec.take(n as int + 1);
                assert(ts.drop_last() =~= ids_spec.take(n as int));
                assert(ts.last() == id);
                assert(self@ == retry_step(before, id));
                assert(self@.registrations.dom() =~= v0.registrations.dom());
                assert forall|jj: int| n + 1 <= jj < ids_spec.len() implies self@.pending.dom().contains(#[trigger] ids_spec[jj])
                    && self@.pending[ids_spec[jj]] == v0.pending[ids_spec[jj]] by {
                    assert(ids_spec[jj] != ids_spec[n as int]);
                }
                if try_again {
                    assert(actions@.drop_last() =~= acts0);
                    assert(actions_view(actions@) =~= retry_actions(v0, ts));
                } else {
                    assert(actions@ =~= acts0);
                    assert(actions_view(actions@) =~= retry_actions(v0, ts));
                }
            }
            n = n + 1;
        }
        proof {
            assert(ids_spec.take(ids_spec.len() as int) =~= ids_spec);
        }
        actions
    }
}

// ---------------------------------------------------------------------
// Requests.
// ---------------------------------------------------------------------

/// The request methods the observer tells apart.
#[derive(Debug, Clone, Copy, PartialEq, Eq, Structural)]
pub enum ObserveMethod {
    Get,
    Put,
    Other,
}

/// The value of a request's observe option, if it has one.
#[derive(Debug, Clone, Copy, PartialEq, Eq, Structural)]
pub enum ObserveFlag {
    Register,
    Deregister,
    /// An observe option that is neither 0 nor 1.
    Invalid,
}

/// What the observer reads of a request: its type, method and observe
/// option, the path, token and message id, the source address, the
/// payload, the value of the first block option for responses (`Block2`),
/// and whether the request carries a response to fill.
pub struct ObserveRequest {
    pub message_type: crate::message::header::MessageType,
    pub method: ObserveMethod,
    pub observe: Option<ObserveFlag>,
    pub path: String,
    pub token: Vec<u8>,
    pub message_id: u16,
    pub source: Option<String>,
    pub payload: Vec<u8>,
    pub block2: Option<Vec<u8>>,
    pub has_response: bool,
}

pub open spec fn opt_string_view(s: Option<String>) -> Option<Seq<char>> {
    match s {
        Some(x) => Some(x@),
        None => None,
    }
}

pub open spec fn opt_bytes_view(b: Option<Vec<u8>>) -> Option<Seq<u8>> {
    match b {
        Some(x) => Some(x@),
        None => None,
    }
}

/// The request is neither an acknowledgement nor a reset.
pub open spec fn is_plain_request(req: ObserveRequest) -> bool {
    req.message_type != crate::message::header::MessageType::Acknowledgement
        && req.message_type != crate::message::header::MessageType::Reset
}

/// The request registers its sender as an observer.
pub open spec fn is_registration(req: ObserveRequest) -> bool {
    is_plain_request(req) && req.method == ObserveMethod::Get && req.observe == Some(ObserveFlag::Register)
}

/// The request ends its sender's observation.
pub open spec fn is_deregistration(req: ObserveRequest) -> bool {
    is_plain_request(req) && req.method == ObserveMethod::Get && req.observe == Some(ObserveFlag::Deregister)
}

/// The request writes a new state of a resource.
pub open spec fn is_change(req: ObserveRequest) -> bool {
    is_plain_request(req) && req.method == ObserveMethod::Put
}

impl<R> Observer<R> {
    /// Filters a request that the server received through `responder`,
    /// whose address is `address`.  Acknowledgements and resets are taken
    /// here; a registration is answered here; a deregistration, a change
    /// of a resource and every other request go on to the request handler
    /// as well.  Returns whether the request goes on, and what to send.
    pub fn request_handler(&mut self, request: &ObserveRequest, responder: R, address: &String) -> (r: (
        bool,
        Vec<ObserverAction>,
    ))
        requires
            old(self).wf(),
            is_deregistration(*request) ==> request.source is Some,
            is_change(*request) ==> (old(self)@.resources.dom().contains(request.path@)
                ==> old(self)@.resources[request.path@].sequence < u32::MAX),
            is_change(*request) ==> old(self)@.current_message_id + old(self).observer_keys(request.path@).len()
                <= u16::MAX,
        ensures
            final(self).wf(),
            request.message_type == crate::message::header::MessageType::Acknowledgement ==> {
                &&& final(self)@ == acknowledge_spec(old(self)@, request.message_id, request.token@)
                &&& !r.0
                &&& r.1@.len() == 0
            },
            request.message_type == crate::message::header::MessageType::Reset ==> {
                &&& final(self)@ == reset_spec(old(self)@, request.message_id, opt_string_view(request.source))
                &&& !r.0
                &&& r.1@.len() == 0
            },
            is_registration(*request) ==> {
                let b = preferred_block_size_spec(opt_bytes_view(request.block2));
                &&& final(self)@ == register_spec(old(self)@, address@, request.path@, request.token@, b, responder)
                &&& !r.0
                &&& actions_view(r.1@) == register_actions(old(self)@, request.path@, b, request.has_response)
            },
            is_deregistration(*request) ==> {
                &&& final(self)@ == remove_registration_spec(old(self)@, request.source->0@, request.path@, request.token@)
                &&& r.0
                &&& r.1@.len() == 0
            },
            is_change(*request) ==> {
                let v1 = changed_spec(old(self)@, request.path@, request.payload@);
                &&& final(self)@ == notify_all(v1, old(self).observer_keys(request.path@))
                &&& r.0
                &&& actions_view(r.1@) == notify_actions(v1, request.path@, old(self).observer_keys(request.path@))
            },
            is_plain_request(*request) && !is_registration(*request) && !is_deregistration(*request) && !is_change(*request) ==> {
                &&& final(self)@ == old(self)@
                &&& r.0
                &&& r.1@.len() == 0
            },
    {
        match request.message_type {
            crate::message::header::MessageType::Acknowledgement => {
                self.acknowledge(request.message_id, &request.token);
                return (false, Vec::new());
            },
            crate::message::header::MessageType::Reset => {
                self.reset_notification(request.message_id, &request.source);
                return (false, Vec::new());
            },
            _ => {},
        }
        match request.method {
            ObserveMethod::Get => match request.observe {
                Some(ObserveFlag::Register) => {
                    let actions = self.register(
                        responder,
                        address,
                        &request.path,
                        &request.token,
                        &request.block2,
                        request.has_response,
                    );
                    (false, actions)
                },
                Some(ObserveFlag::Deregister) => {
                    match &request.source {
                        Some(source) => {
                            self.remove_register_resource(source, &request.path, &request.token);
                        },
                        None => {},
                    }
                    (true, Vec::new())
                },
                _ => (true, Vec::new()),
            },
            ObserveMethod::Put => {
                let actions = self.resource_changed(&request.path, &request.payload);
                (true, actions)
            },
            ObserveMethod::Other => (true, Vec::new()),
        }
    }
}

// ---------------------------------------------------------------------
// Laws.
// ---------------------------------------------------------------------

/// A registration for an existing resource makes the client an observer
/// of it, with the token and responder of the request and nothing pending.
pub proof fn lemma_register_observes<R>(
    v: ObserverView<R>,
    address: Seq<char>,
    path: Seq<char>,
    token: Seq<u8>,
    block_size: Option<usize>,
    responder: R,
)
    requires
        v.resources.dom().contains(path),
    ensures
        register_spec(v, address, path, token, block_size, responder).registrations.dom().contains(
            register_key(address, path),
        ),
        register_spec(v, address, path, token, block_size, responder).registrations[register_key(address, path)].token
            == token,
        register_spec(v, address, path, token, block_size, responder).registrations[register_key(address, path)].responder
            == responder,
        register_spec(v, address, path, token, block_size, responder).registrations[register_key(
            address,
            path,
        )].unacknowledged is None,
{
}

/// A registration for a resource that does not exist changes nothing and
/// is answered NotFound.
pub proof fn lemma_register_missing_resource<R>(
    v: ObserverView<R>,
    address: Seq<char>,
    path: Seq<char>,
    token: Seq<u8>,
    block_size: Option<usize>,
    responder: R,
)
    requires
        !v.resources.dom().contains(path),
    ensures
        register_spec(v, address, path, token, block_size, responder) == v,
        register_actions(v, path, block_size, true) == seq![ActionView::RespondNotFound],
{
}

/// Deregistering with the token of the registration ends the observation,
/// and with it the notification that waits for an acknowledgement.
pub proof fn lemma_deregister_after_register<R>(
    v: ObserverView<R>,
    address: Seq<char>,
    path: Seq<char>,
    token: Seq<u8>,
    block_size: Option<usize>,
    responder: R,
)
    requires
        v.resources.dom().contains(path),
    ensures
        !remove_registration_spec(
            register_spec(v, address, path, token, block_size, responder),
            address,
            path,
            token,
        ).registrations.dom().contains(register_key(address, path)),
{
}

/// A reset of a pending notification from the address it was sent to ends
/// that observation; the message is no longer pending.
pub proof fn lemma_reset_ends_observation<R>(v: ObserverView<R>, message_id: u16)
    requires
        consistent(v),
        v.pending.dom().contains(message_id),
    ensures
        !reset_spec(v, message_id, Some(v.registrations[v.pending[message_id].0].address)).registrations.dom().contains(
            v.pending[message_id].0,
        ),
        !reset_spec(v, message_id, Some(v.registrations[v.pending[message_id].0].address)).pending.dom().contains(
            message_id,
        ),
{
}

/// An acknowledgement with the token of the registration leaves the
/// notification no longer pending; the observation goes on.
pub proof fn lemma_acknowledge_clears<R>(v: ObserverView<R>, message_id: u16)
    requires
        consistent(v),
        v.pending.dom().contains(message_id),
    ensures
        !acknowledge_spec(v, message_id, v.registrations[v.pending[message_id].0].token).pending.dom().contains(message_id),
        acknowledge_spec(v, message_id, v.registrations[v.pending[message_id].0].token).registrations.dom()
            == v.registrations.dom(),
{
    let k = v.pending[message_id].0;
    assert(acknowledge_spec(v, message_id, v.registrations[k].token).registrations.dom() =~= v.registrations.dom());
}

/// A change of a resource stores the payload and its entity tag and counts
/// the sequence number one up (0 for a new resource).
pub proof fn lemma_change_sequence<R>(v: ObserverView<R>, path: Seq<char>, payload: Seq<u8>)
    ensures
        changed_spec(v, path, payload).resources[path].payload == payload,
        changed_spec(v, path, payload).resources[path].etag == etag_of(payload),
        changed_spec(v, path, payload).resources[path].sequence == if v.resources.dom().contains(path) {
            (v.resources[path].sequence + 1) as u32
        } else {
            0u32
        },
{
}

/// After a change, each observer in `keys` (listed once each) waits for
/// the acknowledgement of its own notification: the `i`-th one for
/// message id `current + i + 1`.  Registrations not in `keys` are
/// untouched.
pub proof fn lemma_notify_all_pending<R>(v: ObserverView<R>, keys: Seq<Seq<char>>)
    requires
        consistent(v),
        keys.no_duplicates(),
        forall|k: Seq<char>| keys.contains(k) ==> v.registrations.dom().contains(k),
        v.current_message_id + keys.len() <= u16::MAX,
    ensures
        notify_all(v, keys).current_message_id == v.current_message_id + keys.len(),
        notify_all(v, keys).registrations.dom() == v.registrations.dom(),
        forall|i: int| 0 <= i < keys.len() ==> {
            &&& notify_all(v, keys).registrations[#[trigger] keys[i]].unacknowledged == Some(
                (v.current_message_id + i + 1) as u16,
            )
            &&& notify_all(v, keys).pending.dom().contains((v.current_message_id + i + 1) as u16)
            &&& notify_all(v, keys).pending[(v.current_message_id + i + 1) as u16] == (keys[i], 1usize)
        },
        forall|k: Seq<char>| #[trigger] v.registrations.dom().contains(k) && !keys.contains(k)
            ==> notify_all(v, keys).registrations[k] == v.registrations[k],
    decreases keys.len(),
{
    if keys.len() > 0 {
        let d = keys.drop_last();
        let last = keys.last();
        assert(d.no_duplicates()) by {
            assert forall|a: int, b: int| 0 <= a < d.len() && 0 <= b < d.len() && a != b implies d[a] != d[b] by {
                assert(d[a] == keys[a] && d[b] == keys[b]);
            }
        }
        assert forall|k: Seq<char>| d.contains(k) implies v.registrations.dom().contains(k) by {
            let j = choose|j: int| 0 <= j < d.len() && d[j] == k;
            assert(keys[j] == k);
            assert(keys.contains(k));
        }
        lemma_notify_all_pending(v, d);
        let w = notify_all(v, d);
        assert(keys.contains(last)) by {
            assert(keys[keys.len() - 1] == last);
        }
        assert(!d.contains(last)) by {
            if d.contains(last) {
                let j = choose|j: int| 0 <= j < d.len() && d[j] == last;
                assert(keys[j] == last && keys[keys.len() - 1] == last);
            }
        }
        assert(w.registrations[last] == v.registrations[last]);
        let id = (w.current_message_id + 1) as u16;
        let g = w.registrations[last];
        let after = notify_all(v, keys);
        assert(after == notify_step(w, last));
        assert(after.registrations.dom() =~= v.registrations.dom());
        assert forall|i: int| 0 <= i < keys.len() implies {
            &&& after.registrations[#[trigger] keys[i]].unacknowledged == Some((v.current_message_id + i + 1) as u16)
            &&& after.pending.dom().contains((v.current_message_id + i + 1) as u16)
            &&& after.pending[(v.current_message_id + i + 1) as u16] == (keys[i], 1usize)
        } by {
            if i < keys.len() - 1 {
                assert(d[i] == keys[i]);
                assert(keys[i] != last);
                let mi = (v.current_message_id + i + 1) as u16;
                assert(mi != id);
                if let Some(o) = g.unacknowledged {
                    assert(v.pending.dom().contains(o));
                    assert(o <= v.current_message_id);
                    assert(o != mi);
                }
            }
        }
        assert forall|k: Seq<char>| #[trigger] v.registrations.dom().contains(k) && !keys.contains(k) implies after.registrations[k]
            == v.registrations[k] by {
            assert(!d.contains(k)) by {
                if d.contains(k) {
                    let j = choose|j: int| 0 <= j < d.len() && d[j] == k;
                    assert(keys[j] == k);
                }
            }
            assert(k != last);
        }
    }
}

} // verus!
