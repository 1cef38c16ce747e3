//! Verified core of a QUIC transport that sends its UDP datagrams through the
//! Direct Sockets API of an Isolated Web App.
//!
//! `address` holds the socket-address model and its canonical text form;
//! `direct_sockets` holds the messages handed to the Direct Sockets `UDPSocket`
//! and the send queue of the socket.
pub mod address;
pub mod direct_sockets;
pub mod address_laws;
