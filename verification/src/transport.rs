//! The local endpoint: its identity and the table of connections to peers.
//!
//! Dialling, accepting and the streams themselves are the caller's; a
//! connection is the number that the caller chose for it. The table keeps,
//! for every peer, the connection that was registered last. Its contracts
//! speak of a map from identities to connections; it is held as a list with
//! one slot per peer, found by comparing identities byte for byte, since an
//! identity is a key of 32 bytes and no integer.

use crate::record::text_from_utf8;
use vstd::prelude::*;
use vstd::slice::slice_to_vec;
use vstd::utf8::{decode_utf8, encode_utf8, valid_utf8};

verus! {

/// Number of bytes in a peer's identity, its public key.
pub const NODE_ID_LEN: usize = 32;

/// A connection and the peer at its other end.
#[derive(Debug, Clone, Copy, PartialEq, Eq)]
pub struct Link {
    pub peer: [u8; 32],
    pub connection: u64,
}

/// Why the endpoint refused.
#[derive(Debug, Clone, Copy, PartialEq, Eq, Structural)]
pub enum TransportError {
    /// No connection to the peer is registered.
    ConnectionNotFound,
    /// The endpoint was shut down.
    NoConnection,
    /// The bytes received are not well-formed UTF-8.
    InvalidUtf8,
    /// The chat has no peer to send to.
    NoPeer,
}

/// The table that a run of registrations leaves: for each peer the
/// connection registered last.
pub open spec fn table_of(links: Seq<Link>) -> Map<Seq<u8>, u64>
    decreases links.len(),
{
    if links.len() == 0 {
        Map::empty()
    } else {
        table_of(links.drop_last()).insert(links.last().peer@, links.last().connection)
    }
}

/// The connection to `peer` in a table, if there is one.
pub open spec fn connection_to(table: Map<Seq<u8>, u64>, peer: Seq<u8>) -> Option<u64> {
    if table.contains_key(peer) {
        Some(table[peer])
    } else {
        None
    }
}

/// Overwriting the latest registration of a peer is registering the peer anew.
pub proof fn lemma_replace_latest(links: Seq<Link>, j: int, link: Link)
    requires
        0 <= j < links.len(),
        links[j].peer@ == link.peer@,
        forall|k: int| j < k < links.len() ==> (#[trigger] links[k]).peer@ != link.peer@,
    ensures
        table_of(links.update(j, link)) == table_of(links).insert(link.peer@, link.connection),
    decreases links.len(),
{
    let changed = links.update(j, link);
    if j == links.len() - 1 {
        assert(changed.drop_last() =~= links.drop_last());
        assert(table_of(changed) =~= table_of(links).insert(link.peer@, link.connection));
    } else {
        let last = links.last();
        assert(last.peer@ != link.peer@);
        lemma_replace_latest(links.drop_last(), j, link);
        assert(changed.drop_last() =~= links.drop_last().update(j, link));
        assert(table_of(changed) =~= table_of(links).insert(link.peer@, link.connection));
    }
}

/// Whether two identities are the same.
pub fn same_peer(a: &[u8; 32], b: &[u8; 32]) -> (same: bool)
    ensures
        same == (a@ == b@),
{
    let mut i: usize = 0;
    while i < NODE_ID_LEN
        invariant
            i <= NODE_ID_LEN,
            forall|j: int| 0 <= j < i ==> a@[j] == b@[j],
        decreases NODE_ID_LEN - i,
    {
        if a[i] != b[i] {
            return false;
        }
        i += 1;
    }
    assert(a@ =~= b@);
    true
}

/// The local endpoint.
pub struct Iroh {
    node_id: [u8; 32],
    links: Vec<Link>,
    open: bool,
}

impl Iroh {
    /// The identity of the local node.
    pub closed spec fn id(&self) -> Seq<u8> {
        self.node_id@
    }

    /// The connection table.
    pub closed spec fn connections(&self) -> Map<Seq<u8>, u64> {
        table_of(self.links@)
    }

    /// Whether the endpoint has not been shut down.
    pub closed spec fn is_open(&self) -> bool {
        self.open
    }

    /// An open endpoint with the identity `node_id` and no connection.
    pub fn new(node_id: [u8; 32]) -> (endpoint: Iroh)
        ensures
            endpoint.id() == node_id@,
            endpoint.connections() == Map::<Seq<u8>, u64>::empty(),
            endpoint.is_open(),
    {
        Iroh { node_id, links: Vec::new(), open: true }
    }

    /// The identity of the local node.
    pub fn local_node_id(&self) -> (node_id: [u8; 32])
        ensures
            node_id@ == self.id(),
    {
        self.node_id
    }

    /// Where the latest registration of `node_id` stands, if there is one.
    fn find(&self, node_id: &[u8; 32]) -> (found: Option<usize>)
        ensures
            match found {
                Some(j) => j < self.links@.len() && self.links@[j as int].peer@ == node_id@
                    && connection_to(self.connections(), node_id@) == Some(
                    self.links@[j as int].connection,
                ),
                None => connection_to(self.connections(), node_id@) is None,
            },
            forall|k: int|
                (match found {
                    Some(j) => j < k,
                    None => 0 <= k,
                }) && k < self.links@.len() ==> (#[trigger] self.links@[k]).peer@ != node_id@,
    {
        let mut i: usize = self.links.len();
        assert(self.links@.take(i as int) =~= self.links@);
        while i > 0
            invariant
                i <= self.links@.len(),
                connection_to(table_of(self.links@), node_id@) == connection_to(
                    table_of(self.links@.take(i as int)),
                    node_id@,
                ),
                forall|k: int|
                    i <= k < self.links@.len() ==> (#[trigger] self.links@[k]).peer@ != node_id@,
            decreases i,
        {
            let link = &self.links[i - 1];
            proof {
                let upto = self.links@.take(i as int);
                assert(upto.drop_last() =~= self.links@.take(i - 1));
                assert(upto.last() == self.links@[i - 1]);
            }
            if same_peer(&link.peer, node_id) {
                return Some(i - 1);
            }
            i -= 1;
        }
        None
    }

    /// The connection registered for `node_id`, if there is one.
    pub fn connection(&self, node_id: &[u8; 32]) -> (found: Option<u64>)
        ensures
            found == connection_to(self.connections(), node_id@),
    {
        match self.find(node_id) {
            Some(j) => Some(self.links[j].connection),
            None => None,
        }
    }

    /// Registers `connection` as the connection to `node_id`, in place of
    /// any earlier one. Refused with `NoConnection` once the endpoint was
    /// shut down.
    pub fn connect(&mut self, node_id: [u8; 32], connection: u64) -> (res: Result<
        (),
        TransportError,
    >)
        ensures
            final(self).id() == old(self).id(),
            final(self).is_open() == old(self).is_open(),
            match res {
                Ok(_) => old(self).is_open() && final(self).connections() == old(
                    self,
                ).connections().insert(node_id@, connection),
                Err(e) => !old(self).is_open() && e == TransportError::NoConnection
                    && final(self).connections() == old(self).connections(),
            },
    {
        if !self.open {
            return Err(TransportError::NoConnection);
        }
        let ghost before = self.links@;
        let link = Link { peer: node_id, connection };
        match self.find(&node_id) {
            Some(j) => {
                proof {
                    lemma_replace_latest(before, j as int, link);
                }
                self.links.set(j, link);
            },
            None => {
                self.links.push(link);
                assert(self.links@.drop_last() =~= before);
            },
        }
        Ok(())
    }

    /// What to write to reach `node_id`: the connection to open a stream on,
    /// and the message in UTF-8. Fails with `ConnectionNotFound` where no
    /// connection to the peer is registered.
    pub fn send_msg(&self, node_id: &[u8; 32], msg: &str) -> (res: Result<
        (u64, Vec<u8>),
        TransportError,
    >)
        ensures
            match res {
                Ok(out) => connection_to(self.connections(), node_id@) == Some(out.0) && out.1@
                    == encode_utf8(msg@),
                Err(e) => connection_to(self.connections(), node_id@) is None && e
                    == TransportError::ConnectionNotFound,
            },
    {
        match self.connection(node_id) {
            Some(connection) => Ok((connection, slice_to_vec(msg.as_bytes()))),
            None => Err(TransportError::ConnectionNotFound),
        }
    }

    /// Takes in a message that arrived on a new connection from `peer`:
    /// registers the connection, then reads `payload` as UTF-8. An endpoint
    /// that was shut down refuses with `NoConnection` and registers nothing;
    /// a payload that is not UTF-8 is refused with `InvalidUtf8` after the
    /// connection was registered.
    pub fn accept_msg(&mut self, peer: [u8; 32], connection: u64, payload: Vec<u8>) -> (res: Result<
        ([u8; 32], String),
        TransportError,
    >)
        ensures
            final(self).id() == old(self).id(),
            final(self).is_open() == old(self).is_open(),
            final(self).connections() == (if old(self).is_open() {
                old(self).connections().insert(peer@, connection)
            } else {
                old(self).connections()
            }),
            match res {
                Ok(out) => accept_refusal(old(self).is_open(), payload@) is None && out.0@
                    == peer@ && out.1@ == decode_utf8(payload@),
                Err(e) => accept_refusal(old(self).is_open(), payload@) == Some(e),
            },
    {
        match self.connect(peer, connection) {
            Err(e) => Err(e),
            Ok(_) => match text_from_utf8(payload) {
                Some(msg) => Ok((peer, msg)),
                None => Err(TransportError::InvalidUtf8),
            },
        }
    }

    /// Shuts the endpoint down: it forgets its connections and registers no more.
    pub fn shutdown(&mut self)
        ensures
            final(self).id() == old(self).id(),
            !final(self).is_open(),
            final(self).connections() == Map::<Seq<u8>, u64>::empty(),
    {
        self.open = false;
        self.links.clear();
    }
}

/// Why `accept_msg` refuses a message, if it does: the endpoint was shut
/// down, or else the payload is not well-formed UTF-8.
pub open spec fn accept_refusal(open: bool, payload: Seq<u8>) -> Option<TransportError> {
    if !open {
        Some(TransportError::NoConnection)
    } else if !valid_utf8(payload) {
        Some(TransportError::InvalidUtf8)
    } else {
        None
    }
}

/// A chat with one peer over the local endpoint.
pub struct Chat {
    pub iroh: Iroh,
    /// The node this chat sends to.
    pub nodeid: Option<[u8; 32]>,
}

impl Chat {
    /// A chat on `iroh`. With `joined`, the connection that was dialled to an
    /// existing chat, the chat sends to that peer; without, it is a new chat
    /// named by the local node's own identity.
    pub fn new(iroh: Iroh, joined: Option<Link>) -> (res: Result<Chat, TransportError>)
        ensures
            match res {
                Ok(chat) => chat.iroh.id() == iroh.id() && chat.iroh.is_open() == iroh.is_open()
                    && match joined {
                    Some(link) => iroh.is_open() && chat.nodeid is Some && chat.nodeid->Some_0@
                        == link.peer@ && chat.iroh.connections() == iroh.connections().insert(
                        link.peer@,
                        link.connection,
                    ),
                    None => chat.nodeid is Some && chat.nodeid->Some_0@ == iroh.id()
                        && chat.iroh.connections() == iroh.connections(),
                },
                Err(e) => joined is Some && !iroh.is_open() && e == TransportError::NoConnection,
            },
    {
        let mut iroh = iroh;
        match joined {
            Some(link) => match iroh.connect(link.peer, link.connection) {
                Ok(_) => Ok(Chat { iroh, nodeid: Some(link.peer) }),
                Err(e) => Err(e),
            },
            None => {
                let own = iroh.local_node_id();
                Ok(Chat { iroh, nodeid: Some(own) })
            },
        }
    }

    /// What to write to send `msg` to the chat's peer. Fails with `NoPeer`
    /// where the chat has none, and as `Iroh::send_msg` does otherwise.
    pub fn send(&self, msg: &str) -> (res: Result<(u64, Vec<u8>), TransportError>)
        ensures
            match res {
                Ok(out) => self.nodeid is Some && connection_to(
                    self.iroh.connections(),
                    self.nodeid->Some_0@,
                ) == Some(out.0) && out.1@ == encode_utf8(msg@),
                Err(e) => send_refusal(self.iroh.connections(), self.nodeid) == Some(e),
            },
    {
        match &self.nodeid {
            Some(id) => self.iroh.send_msg(id, msg),
            None => Err(TransportError::NoPeer),
        }
    }

    /// Takes in a message that arrived on a new connection, as
    /// `Iroh::accept_msg` does, and answers its text.
    pub fn receive(&mut self, peer: [u8; 32], connection: u64, payload: Vec<u8>) -> (res: Result<
        String,
        TransportError,
    >)
        ensures
            final(self).nodeid == old(self).nodeid,
            final(self).iroh.id() == old(self).iroh.id(),
            final(self).iroh.is_open() == old(self).iroh.is_open(),
            final(self).iroh.connections() == (if old(self).iroh.is_open() {
                old(self).iroh.connections().insert(peer@, connection)
            } else {
                old(self).iroh.connections()
            }),
            match res {
                Ok(msg) => accept_refusal(old(self).iroh.is_open(), payload@) is None && msg@
                    == decode_utf8(payload@),
                Err(e) => accept_refusal(old(self).iroh.is_open(), payload@) == Some(e),
            },
    {
        match self.iroh.accept_msg(peer, connection, payload) {
            Ok(out) => Ok(out.1),
            Err(e) => Err(e),
        }
    }
}

/// Why `Chat::send` refuses a message, if it does: the chat has no peer, or
/// else no connection to the peer is registered.
pub open spec fn send_refusal(table: Map<Seq<u8>, u64>, nodeid: Option<[u8; 32]>) -> Option<
    TransportError,
> {
    match nodeid {
        None => Some(TransportError::NoPeer),
        Some(id) => if table.contains_key(id@) {
            None
        } else {
            Some(TransportError::ConnectionNotFound)
        },
    }
}

} // verus!
