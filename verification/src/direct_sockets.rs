//! The state behind a Direct Sockets UDP socket used as QUIC transport: its
//! local address and the queue of messages waiting for the socket's writable
//! stream, with one message per datagram that QUIC hands over.
use vstd::prelude::*;
use crate::address::{ip_text, ip_to_string, SocketAddress};

verus! {

/// A datagram in the form the Direct Sockets `UDPSocket` writes it: the
/// payload, the remote IP address as text and the remote port.
pub struct UdpMessage {
    pub data: Vec<u8>,
    pub remote_address: String,
    pub remote_port: u16,
}

/// What a [`UdpMessage`] holds, as mathematical values.
pub struct MessageView {
    pub data: Seq<u8>,
    pub remote_address: Seq<char>,
    pub remote_port: u16,
}

impl View for UdpMessage {
    type V = MessageView;

    open spec fn view(&self) -> MessageView {
        MessageView {
            data: self.data@,
            remote_address: self.remote_address@,
            remote_port: self.remote_port,
        }
    }
}

/// A datagram that QUIC asks to send: where to, and its bytes.
pub struct Datagram {
    pub destination: SocketAddress,
    pub contents: Vec<u8>,
}

/// The message that carries `contents` to `destination`.
pub open spec fn message_to(destination: SocketAddress, contents: Seq<u8>) -> MessageView {
    MessageView {
        data: contents,
        remote_address: ip_text(destination.ip),
        remote_port: destination.port,
    }
}

/// The message that carries datagram `d`.
pub open spec fn message_of(d: Datagram) -> MessageView {
    message_to(d.destination, d.contents@)
}

/// The messages that carry `datagrams`, in the same order.
pub open spec fn messages_of(datagrams: Seq<Datagram>) -> Seq<MessageView> {
    datagrams.map_values(|d: Datagram| message_of(d))
}

impl UdpMessage {
    /// The message that carries datagram `d` to its destination.
    pub fn from_datagram(d: &Datagram) -> (m: UdpMessage)
        ensures
            m@ == message_of(*d),
            m.data@ == d.contents@,
            m.remote_address@ == ip_text(d.destination.ip),
            m.remote_port == d.destination.port,
    {
        let data = d.contents.clone();
        assert(data@ =~= d.contents@);
        UdpMessage {
            data,
            remote_address: ip_to_string(&d.destination.ip),
            remote_port: d.destination.port,
        }
    }
}


/// What the Direct Sockets `UDPSocket` constructor is given to bind the
/// socket: the local IP address as text and the local port.
pub struct UdpSocketOptions {
    pub local_address: String,
    pub local_port: u16,
}

/// The options that bind a Direct Sockets `UDPSocket` to `local_addr`.
pub fn udp_socket_options(local_addr: &SocketAddress) -> (options: UdpSocketOptions)
    ensures
        options.local_address@ == ip_text(local_addr.ip),
        options.local_port == local_addr.port,
{
    UdpSocketOptions { local_address: ip_to_string(&local_addr.ip), local_port: local_addr.port }
}

/// The state of a UDP socket of the Direct Sockets API used as QUIC
/// transport: the address it is bound to and the messages queued for its
/// writable stream.
pub struct DirectSocketUdp {
    local_addr: SocketAddress,
    send_queue: Vec<UdpMessage>,
}

/// What a [`DirectSocketUdp`] holds, as mathematical values.
pub struct SocketView {
    pub local_addr: SocketAddress,
    pub send_queue: Seq<MessageView>,
}

impl View for DirectSocketUdp {
    type V = SocketView;

    closed spec fn view(&self) -> SocketView {
        SocketView {
            local_addr: self.local_addr,
            send_queue: self.send_queue@.map_values(|m: UdpMessage| m@),
        }
    }
}

impl DirectSocketUdp {
    /// A socket bound to `local_addr` with nothing queued.
    pub fn new(local_addr: SocketAddress) -> (socket: Self)
        ensures
            socket@.local_addr == local_addr,
            socket@.send_queue == Seq::<MessageView>::empty(),
    {
        let socket = DirectSocketUdp { local_addr, send_queue: Vec::new() };
        assert(socket@.send_queue =~= Seq::<MessageView>::empty());
        socket
    }

    /// How many datagrams one transmit may carry: one, for the socket sends
    /// no segmented (GSO) batches.
    pub fn max_transmit_segments(&self) -> (n: usize)
        ensures
            n == 1,
    {
        1
    }

    /// How many datagrams one receive may fill: one.
    pub fn max_receive_segments(&self) -> (n: usize)
        ensures
            n == 1,
    {
        1
    }

    /// The address the socket is bound to.
    pub fn local_addr(&self) -> (addr: SocketAddress)
        ensures
            addr == self@.local_addr,
    {
        self.local_addr
    }

    /// The messages waiting to be written, oldest first.
    pub fn send_queue(&self) -> (queue: &Vec<UdpMessage>)
        ensures
            queue@.map_values(|m: UdpMessage| m@) == self@.send_queue,
    {
        &self.send_queue
    }

    /// Queues one message for each of `transmits`, in order, and reports all
    /// of them as sent.
    pub fn queue_transmits(&mut self, transmits: &[Datagram]) -> (sent: usize)
        ensures
            sent == transmits@.len(),
            final(self)@.local_addr == old(self)@.local_addr,
            final(self)@.send_queue == old(self)@.send_queue + messages_of(transmits@),
            final(self)@.send_queue.len() == old(self)@.send_queue.len() + transmits@.len(),
            forall|i: int|
                0 <= i < old(self)@.send_queue.len() ==> #[trigger] final(self)@.send_queue[i]
                    == old(self)@.send_queue[i],
            forall|i: int|
                0 <= i < transmits@.len() ==> {
                    let m = #[trigger] final(self)@.send_queue[old(self)@.send_queue.len() + i];
                    &&& m.data == transmits@[i].contents@
                    &&& m.remote_address == ip_text(transmits@[i].destination.ip)
                    &&& m.remote_port == transmits@[i].destination.port
                },
    {
        let ghost before = self@.send_queue;
        let mut i: usize = 0;
        assert(messages_of(transmits@.subrange(0, 0)) =~= Seq::<MessageView>::empty());
        assert(self@.send_queue =~= before + messages_of(transmits@.subrange(0, 0)));
        while i < transmits.len()
            invariant
                i <= transmits@.len(),
                self@.local_addr == old(self)@.local_addr,
                before == old(self)@.send_queue,
                self@.send_queue == before + messages_of(transmits@.subrange(0, i as int)),
            decreases transmits@.len() - i,
        {
            let message = UdpMessage::from_datagram(&transmits[i]);
            let ghost queued = self.send_queue@;
            let ghost view_of_message = message@;
            self.send_queue.push(message);
            assert(self.send_queue@.map_values(|m: UdpMessage| m@) =~= queued.map_values(
                |m: UdpMessage| m@,
            ).push(view_of_message));
            i = i + 1;
            assert(messages_of(transmits@.subrange(0, i as int)) =~= messages_of(
                transmits@.subrange(0, i - 1),
            ).push(message_of(transmits@[i - 1])));
            assert(self@.send_queue =~= before + messages_of(transmits@.subrange(0, i as int)));
        }
        assert(transmits@.subrange(0, transmits@.len() as int) =~= transmits@);
        proof {
            lemma_messages_of_pointwise(transmits@);
        }
        transmits.len()
    }
}

/// There is one message per datagram, in the same order, and message `i`
/// carries datagram `i`: its bytes unchanged, to the text of its destination
/// address and its destination port.
pub proof fn lemma_messages_of_pointwise(datagrams: Seq<Datagram>)
    ensures
        messages_of(datagrams).len() == datagrams.len(),
        forall|i: int|
            0 <= i < datagrams.len() ==> {
                let m = #[trigger] messages_of(datagrams)[i];
                &&& m.data == datagrams[i].contents@
                &&& m.remote_address == ip_text(datagrams[i].destination.ip)
                &&& m.remote_port == datagrams[i].destination.port
            },
{
}

/// The message for a datagram carries the payload unchanged, the text of the
/// destination's IP address and the destination port.
pub proof fn lemma_message_carries_datagram(destination: SocketAddress, contents: Seq<u8>)
    ensures
        message_to(destination, contents).data == contents,
        message_to(destination, contents).data.len() == contents.len(),
        message_to(destination, contents).remote_address == ip_text(destination.ip),
        message_to(destination, contents).remote_port == destination.port,
{
}

/// Queueing two batches of datagrams one after the other leaves the same
/// messages, in the same order, as queueing both batches as one.
pub proof fn lemma_queue_batches_compose(
    queue: Seq<MessageView>,
    first: Seq<Datagram>,
    second: Seq<Datagram>,
)
    ensures
        queue + messages_of(first) + messages_of(second) == queue + messages_of(first + second),
{
    assert(messages_of(first + second) =~= messages_of(first) + messages_of(second));
    assert(queue + messages_of(first) + messages_of(second) =~= queue + messages_of(first + second));
}

} // verus!
