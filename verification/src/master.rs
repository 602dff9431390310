//! Asking the master server for its list of servers: the keys of the queries
//! and the pages of the answer.

use vstd::prelude::*;
use crate::fields::Endpoint;
use crate::packet::{Packet, PacketView};

verus! {

/// The source of the keys and sessions of queries: 4096 numbers from 0x1000
/// on, in turn.
pub struct IdSource {
    count: u16,
}

impl View for IdSource {
    type V = nat;

    closed spec fn view(&self) -> nat {
        self.count as nat
    }
}

impl IdSource {
    #[verifier::type_invariant]
    spec fn in_turn(self) -> bool {
        self.count < 0x1000
    }

    /// A source that starts at 0x1000.
    pub fn new() -> (source: Self)
        ensures
            source@ == 0,
    {
        IdSource { count: 0 }
    }

    /// The next number: 0x1000, 0x1001 and so on to 0x1FFF, and then again.
    pub fn next(&mut self) -> (id: u16)
        ensures
            id == 0x1000 + old(self)@,
            0x1000 <= id < 0x2000,
            final(self)@ == (old(self)@ + 1) % 0x1000,
    {
        proof {
            use_type_invariant(&*self);
        }
        let id: u16 = self.count + 0x1000;
        self.count = (self.count + 1) % 0x1000;
        id
    }
}

/// A query for the list of servers: its key and session, the servers of the
/// pages that have come in, and whether the last page has.
pub struct ServerQuery {
    key: u16,
    session: u16,
    servers: Vec<Endpoint>,
    complete: bool,
}

/// A query as its contracts see it.
pub struct ServerQueryView {
    pub key: u16,
    pub session: u16,
    pub servers: Seq<Endpoint>,
    pub complete: bool,
}

impl ServerQueryView {
    /// The query after a packet has come in. A page of the list with the
    /// query's key and session adds its servers, and the page whose index is
    /// the last of the total completes the query. Anything else, and anything
    /// after the last page, changes nothing.
    pub open spec fn absorb(self, packet: PacketView) -> ServerQueryView {
        match packet {
            PacketView::MasterServerListResponse {
                key,
                session,
                packet_index,
                packet_total,
                servers,
                ..
            } => if !self.complete && key == self.key && session == self.session {
                ServerQueryView {
                    servers: self.servers + servers,
                    complete: packet_index + 1 >= packet_total,
                    ..self
                }
            } else {
                self
            },
            _ => self,
        }
    }
}

impl View for ServerQuery {
    type V = ServerQueryView;

    closed spec fn view(&self) -> ServerQueryView {
        ServerQueryView {
            key: self.key,
            session: self.session,
            servers: self.servers@,
            complete: self.complete,
        }
    }
}

impl ServerQuery {
    /// A query with the given key and session, before any page.
    pub fn new(key: u16, session: u16) -> (query: Self)
        ensures
            query@ == (ServerQueryView { key, session, servers: Seq::empty(), complete: false }),
    {
        ServerQuery { key, session, servers: Vec::new(), complete: false }
    }

    /// The key of the query.
    pub fn key(&self) -> (key: u16)
        ensures
            key == self@.key,
    {
        self.key
    }

    /// The session of the query.
    pub fn session(&self) -> (session: u16)
        ensures
            session == self@.session,
    {
        self.session
    }

    /// Whether the last page has come in.
    pub fn is_complete(&self) -> (complete: bool)
        ensures
            complete == self@.complete,
    {
        self.complete
    }

    /// Takes in a packet, and says whether the query is complete.
    pub fn absorb(&mut self, packet: &Packet) -> (complete: bool)
        ensures
            final(self)@ == old(self)@.absorb(packet@),
            complete == final(self)@.complete,
    {
        match packet {
            Packet::MasterServerListResponse {
                flags,
                key,
                session,
                packet_index,
                packet_total,
                servers,
            } => {
                if !self.complete && *key == self.key && *session == self.session {
                    let ghost before = self.servers@;
                    let mut i: usize = 0;
                    while i < servers.len()
                        invariant
                            i <= servers.len(),
                            self.servers@ == before + servers@.take(i as int),
                            self.key == old(self).key,
                            self.session == old(self).session,
                            self.complete == old(self).complete,
                        decreases servers.len() - i,
                    {
                        self.servers.push(servers[i]);
                        i = i + 1;
                        proof {
                            assert(self.servers@ =~= before + servers@.take(i as int));
                        }
                    }
                    proof {
                        assert(servers@.take(i as int) =~= servers@);
                    }
                    self.complete = *packet_index as u16 + 1 >= *packet_total as u16;
                }
            },
            _ => {},
        }
        self.complete
    }

    /// The servers of the pages that have come in.
    pub fn into_servers(self) -> (servers: Vec<Endpoint>)
        ensures
            servers@ == self@.servers,
    {
        self.servers
    }
}

} // verus!
