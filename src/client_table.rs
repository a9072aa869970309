//! Per-client record of the last request seen and its reply.

use vstd::prelude::*;
use std::collections::HashMap;

verus! {

broadcast use vstd::std_specs::hash::group_hash_axioms;

/// The last request number seen from a client, and its reply once it has been executed.
#[derive(Debug, Clone, Copy, PartialEq, Eq, Structural)]
pub struct ClientEntry {
    pub request_number: usize,
    pub reply: Option<u64>,
}

/// What the primary does with a request, given the client table.
#[derive(Debug, Clone, Copy, PartialEq, Eq, Structural)]
pub enum Consultation {
    /// A new request: execute it.
    Accept,
    /// A retry of the last request, already executed: send this reply again.
    Resend(u64),
    /// A stale request, or a retry of one still in progress: ignore it.
    Drop,
}

/// What the client table says of request `request_number` from `client_id`.
pub open spec fn consult(
    table: Map<usize, ClientEntry>,
    client_id: usize,
    request_number: usize,
) -> Consultation {
    if !table.contains_key(client_id) || table[client_id].request_number < request_number {
        Consultation::Accept
    } else if table[client_id].request_number == request_number
        && table[client_id].reply is Some {
        Consultation::Resend(table[client_id].reply.unwrap())
    } else {
        Consultation::Drop
    }
}

/// The table after the reply to `request_number` from `client_id` is known. An entry for
/// a later request, or one that already holds a reply, is kept.
pub open spec fn record_reply(
    table: Map<usize, ClientEntry>,
    client_id: usize,
    request_number: usize,
    reply: u64,
) -> Map<usize, ClientEntry> {
    if !table.contains_key(client_id) || table[client_id].request_number < request_number || (
    table[client_id].request_number == request_number && table[client_id].reply is None) {
        table.insert(client_id, ClientEntry { request_number, reply: Some(reply) })
    } else {
        table
    }
}

/// Maps each client id to its `ClientEntry`.
pub struct ClientTable {
    entries: HashMap<usize, ClientEntry>,
}

impl View for ClientTable {
    type V = Map<usize, ClientEntry>;

    closed spec fn view(&self) -> Map<usize, ClientEntry> {
        self.entries@
    }
}

impl ClientTable {
    /// An empty table.
    pub fn new() -> (r: ClientTable)
        ensures
            r@ == Map::<usize, ClientEntry>::empty(),
    {
        ClientTable { entries: HashMap::new() }
    }

    /// The entry of `client_id`, if any.
    pub fn get(&self, client_id: usize) -> (r: Option<ClientEntry>)
        ensures
            r == (if self@.contains_key(client_id) {
                Some(self@[client_id])
            } else {
                None
            }),
    {
        match self.entries.get(&client_id) {
            Some(e) => Some(*e),
            None => None,
        }
    }

    /// What to do with request `request_number` from `client_id`.
    pub fn consult(&self, client_id: usize, request_number: usize) -> (r: Consultation)
        ensures
            r == consult(self@, client_id, request_number),
    {
        match self.get(client_id) {
            None => Consultation::Accept,
            Some(e) => {
                if e.request_number < request_number {
                    Consultation::Accept
                } else if e.request_number == request_number {
                    match e.reply {
                        Some(x) => Consultation::Resend(x),
                        None => Consultation::Drop,
                    }
                } else {
                    Consultation::Drop
                }
            },
        }
    }

    /// Records that request `request_number` from `client_id` was accepted and awaits its reply.
    pub fn insert_pending(&mut self, client_id: usize, request_number: usize)
        ensures
            final(self)@ == old(self)@.insert(client_id, ClientEntry { request_number, reply: None }),
    {
        self.entries.insert(client_id, ClientEntry { request_number, reply: None });
    }

    /// Records the reply to request `request_number` from `client_id`.
    pub fn record_reply(&mut self, client_id: usize, request_number: usize, reply: u64)
        ensures
            final(self)@ == record_reply(old(self)@, client_id, request_number, reply),
    {
        let keep = match self.get(client_id) {
            None => false,
            Some(e) => e.request_number > request_number || (e.request_number == request_number
                && e.reply.is_some()),
        };
        if !keep {
            self.entries.insert(client_id, ClientEntry { request_number, reply: Some(reply) });
        }
    }
}

} // verus!
