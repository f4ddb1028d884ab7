//! Method dispatch over messages: the small pieces the router uses to
//! recognize a method and to hand a payload to the one handler that
//! matches it.

use vstd::prelude::*;
use crate::msg::{Message, MessageV, msg_v};
use crate::bytes::bytes_eq;

verus! {

/// Wraps a value so that handing it to a handler moves it, whatever
/// the type.
pub struct Move<T>(pub T);

impl<T> Move<T> {
    pub fn moved(self) -> (r: T)
        ensures
            r == self.0,
    {
        self.0
    }
}

/// The method a message names: requests and notifications carry one,
/// responses none.
pub open spec fn method_of(m: MessageV) -> Option<Seq<u8>> {
    match m {
        MessageV::Request { id, method, params } => Some(method),
        MessageV::Notification { method, params } => Some(method),
        MessageV::Response { id, result, error } => None,
    }
}

/// Whether the message names exactly this method.
pub fn is_method(m: &Message, name: &Vec<u8>) -> (r: bool)
    ensures
        r == (method_of(msg_v(*m)) == Some(name@)),
{
    match m {
        Message::Request { id, method, params } => bytes_eq(method, name),
        Message::Notification { method, params } => bytes_eq(method, name),
        Message::Response { id, result, error } => false,
    }
}

} // verus!
