//! In-memory model of the single transport connection of a chat session.
//!
//! The connection carries whole text frames in order.  This model records
//! exactly what a live connection is asked to transmit, and refuses sends
//! once the channel has been torn down, which is all the rest of the core
//! ever observes of the real network.

use vstd::prelude::*;

verus! {

/// Why an outbound enqueue failed.
pub enum SendError {
    /// The connection has been torn down; nothing was enqueued.
    ChannelClosed,
}

/// The abstract state of a connection: whether it still accepts frames,
/// and every frame enqueued so far, oldest first.
pub struct ConnectionView {
    pub connected: bool,
    pub sent: Seq<Seq<char>>,
}

/// The single live transport channel of a session.  It has one producer
/// side (`send`) and records outbound frames in order; the consumer side
/// (frames arriving from the server) is driven by whoever owns the
/// session's receive loop and does not pass through this handle.
pub struct ConnectionHandle {
    connected: bool,
    sent: Vec<String>,
}

impl View for ConnectionHandle {
    type V = ConnectionView;

    closed spec fn view(&self) -> ConnectionView {
        ConnectionView { connected: self.connected, sent: self.sent.deep_view() }
    }
}

impl ConnectionHandle {
    /// Establish the one connection of the session: open, nothing sent yet.
    pub fn connect() -> (c: ConnectionHandle)
        ensures
            c@.connected,
            c@.sent == Seq::<Seq<char>>::empty(),
    {
        ConnectionHandle { connected: true, sent: Vec::new() }
    }

    /// Enqueue one outbound frame.  On a live connection the frame is
    /// appended to the ordered outbound sequence; on a torn-down one
    /// nothing changes and `ChannelClosed` comes back.
    pub fn send(&mut self, text: &str) -> (r: Result<(), SendError>)
        ensures
            old(self)@.connected ==> r is Ok && final(self)@.connected && final(self)@.sent
                == old(self)@.sent.push(text@),
            !old(self)@.connected ==> (r matches Err(SendError::ChannelClosed)) && final(self)@
                == old(self)@,
    {
        if self.connected {
            self.sent.push(text.to_owned());
            assert(self@.sent =~= old(self)@.sent.push(text@));
            Ok(())
        } else {
            Err(SendError::ChannelClosed)
        }
    }

    /// Tear the connection down; later sends fail with `ChannelClosed`.
    pub fn close(&mut self)
        ensures
            !final(self)@.connected,
            final(self)@.sent == old(self)@.sent,
    {
        self.connected = false;
    }

    /// Whether the connection still accepts outbound frames.
    pub fn is_connected(&self) -> (r: bool)
        ensures
            r == self@.connected,
    {
        self.connected
    }

    /// How many frames have been enqueued since the connection was opened.
    pub fn sent_len(&self) -> (n: usize)
        ensures
            n == self@.sent.len(),
    {
        self.sent.len()
    }

    /// The `i`-th outbound frame, oldest first.
    pub fn sent_at(&self, i: usize) -> (t: &String)
        requires
            i < self@.sent.len(),
        ensures
            t@ == self@.sent[i as int],
    {
        &self.sent[i]
    }
}

} // verus!
