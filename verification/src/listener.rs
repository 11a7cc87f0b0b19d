//! The application's side of the table: a listener that hands out accepted
//! flows and the handle through which one flow is read and written.

use crate::connection::{without_front, ConnectionView};
use crate::manager::ConnectionManager;
use crate::utils::ConnectionId;
use vstd::prelude::*;

verus! {

/// A bound local endpoint.
#[derive(Clone, Copy, Debug, PartialEq, Eq, Structural)]
pub struct Listener {
    pub ip: u32,
    pub port: u16,
}

/// An accepted flow, named by its four-tuple.
#[derive(Clone, Copy, Debug, PartialEq, Eq, Structural)]
pub struct ConnectionHandle {
    pub id: ConnectionId,
}

impl Listener {
    /// The listener for the endpoint `ip:port`.
    pub fn new(ip: u32, port: u16) -> (listener: Listener)
        ensures
            listener == (Listener { ip, port }),
    {
        Listener { ip, port }
    }

    /// Looks once whether a peer has connected to this endpoint. If one has,
    /// its flow is promoted, a fresh listener with a random initial sequence
    /// number takes its place, and the flow's handle is returned. Otherwise
    /// nothing changes and the caller may look again later.
    pub fn accept(&self, manager: &mut ConnectionManager) -> (handle: Option<ConnectionHandle>)
        requires
            old(manager)@.wf(),
        ensures
            final(manager)@.wf(),
            match handle {
                Some(h) => {
                    &&& old(manager)@.ready(self.ip, self.port)
                    &&& h.id == old(manager)@.listener(self.ip, self.port).unwrap().id()
                    &&& exists|initial_seq: u32|
                        final(manager)@ == old(manager)@.accept(self.ip, self.port, initial_seq)
                    &&& final(manager)@.flow(h.id) == old(manager)@.listener(self.ip, self.port)
                },
                None => !old(manager)@.ready(self.ip, self.port) && final(manager)@ == old(
                    manager,
                )@,
            },
    {
        manager.accept(self.ip, self.port)
    }
}

impl ConnectionHandle {
    /// Queues `data` for transmission on this flow. The bytes go out with the
    /// manager's next flush.
    pub fn write_all(&self, manager: &mut ConnectionManager, data: &[u8])
        requires
            old(manager)@.wf(),
            old(manager)@.flow(self.id).is_some(),
        ensures
            final(manager)@.wf(),
            final(manager)@ == old(manager)@.with_flow(
                ConnectionView {
                    send_queue: old(manager)@.flow(self.id).unwrap().send_queue + data@,
                    ..old(manager)@.flow(self.id).unwrap()
                },
            ),
    {
        manager.write_all(&self.id, data);
    }

    /// Moves bytes received on this flow into `buf`: as many as fit, oldest
    /// first; what is left of `buf` is filled with zeros. Returns the number
    /// of bytes moved, zero when nothing was waiting.
    pub fn read(&self, manager: &mut ConnectionManager, buf: &mut [u8]) -> (len: usize)
        requires
            old(manager)@.wf(),
            old(manager)@.flow(self.id).is_some(),
        ensures
            final(manager)@.wf(),
            len == if old(buf)@.len() <= old(manager)@.flow(self.id).unwrap().recv_queue.len() {
                old(buf)@.len()
            } else {
                old(manager)@.flow(self.id).unwrap().recv_queue.len()
            },
            final(buf)@ == old(manager)@.flow(self.id).unwrap().recv_queue.subrange(0, len as int)
                + Seq::new((old(buf)@.len() - len) as nat, |i: int| 0u8),
            final(manager)@ == old(manager)@.with_flow(
                ConnectionView {
                    recv_queue: without_front(
                        old(manager)@.flow(self.id).unwrap().recv_queue,
                        len as nat,
                    ),
                    ..old(manager)@.flow(self.id).unwrap()
                },
            ),
    {
        manager.read(&self.id, buf)
    }
}

} // verus!
