//! The client side: a client's identity and the requests it sends.

use vstd::prelude::*;
use crate::message::{frame_bytes, Message, MessageView};
use crate::op::Op;

verus! {

/// A client and the number of its latest request.
pub struct Client {
    pub id: usize,
    pub request_number: usize,
}

impl Client {
    /// Client `id`, which has sent no request yet.
    pub fn new(id: usize) -> (r: Client)
        ensures
            r.id == id,
            r.request_number == 0,
    {
        Client { id, request_number: 0 }
    }
}

/// A request from a client to the primary.
pub struct Request {
    pub client_id: usize,
    pub request_number: usize,
    pub op: Op,
}

impl View for Request {
    type V = MessageView;

    open spec fn view(&self) -> MessageView {
        MessageView::Request {
            client_id: self.client_id,
            request_number: self.request_number,
            op: self.op,
        }
    }
}

impl Request {
    /// Request `request_number` of client `client_id`, asking for `op`.
    pub fn new(client_id: usize, request_number: usize, op: Op) -> (r: Request)
        ensures
            r@ == (MessageView::Request { client_id, request_number, op }),
    {
        Request { client_id, request_number, op }
    }

    /// The frame of this request, as the primary reads it.
    pub fn to_bytes(self) -> (r: Vec<u8>)
        ensures
            r@ == frame_bytes(self@),
    {
        let m = Message::Request {
            client_id: self.client_id,
            request_number: self.request_number,
            op: self.op,
        };
        proof {
            crate::message::lemma_request_body_len(self.client_id, self.request_number, self.op);
        }
        m.to_bytes()
    }
}

} // verus!
