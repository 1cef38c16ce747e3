use quinn_wasm::address::{ip_to_string, IpAddress, SocketAddress};
use quinn_wasm::direct_sockets::{udp_socket_options, Datagram, DirectSocketUdp, UdpMessage};

fn v4(a: u8, b: u8, c: u8, d: u8, port: u16) -> SocketAddress {
    SocketAddress { ip: IpAddress::V4([a, b, c, d]), port }
}

#[test]
fn ipv4_text_is_dotted_decimal() {
    assert_eq!(ip_to_string(&IpAddress::V4([127, 0, 0, 1])), "127.0.0.1");
    assert_eq!(ip_to_string(&IpAddress::V4([0, 0, 0, 0])), "0.0.0.0");
    assert_eq!(ip_to_string(&IpAddress::V4([255, 255, 255, 255])), "255.255.255.255");
    assert_eq!(ip_to_string(&IpAddress::V4([10, 20, 3, 199])), "10.20.3.199");
}

#[test]
fn ipv6_text_compresses_longest_zero_run() {
    assert_eq!(ip_to_string(&IpAddress::V6([0; 8])), "::");
    assert_eq!(ip_to_string(&IpAddress::V6([0, 0, 0, 0, 0, 0, 0, 1])), "::1");
    assert_eq!(ip_to_string(&IpAddress::V6([1, 0, 0, 0, 0, 0, 0, 0])), "1::");
    assert_eq!(
        ip_to_string(&IpAddress::V6([0x2001, 0xdb8, 0, 0, 0, 0, 0, 1])),
        "2001:db8::1"
    );
    // the longer of two runs
    assert_eq!(ip_to_string(&IpAddress::V6([1, 0, 0, 1, 0, 0, 0, 1])), "1:0:0:1::1");
    // the first of two equally long runs
    assert_eq!(ip_to_string(&IpAddress::V6([1, 0, 0, 1, 0, 0, 1, 1])), "1::1:0:0:1:1");
    // a single zero group is not compressed
    assert_eq!(ip_to_string(&IpAddress::V6([1, 0, 2, 3, 4, 5, 6, 7])), "1:0:2:3:4:5:6:7");
    assert_eq!(
        ip_to_string(&IpAddress::V6([0xfe80, 0, 0, 0, 0xabcd, 0xef, 0x1234, 0xffff])),
        "fe80::abcd:ef:1234:ffff"
    );
}

#[test]
fn ipv6_text_of_ipv4_mapped_address() {
    assert_eq!(
        ip_to_string(&IpAddress::V6([0, 0, 0, 0, 0, 0xffff, 0xc0a8, 0x0001])),
        "::ffff:192.168.0.1"
    );
    // an IPv4-compatible address is written in hexadecimal
    assert_eq!(
        ip_to_string(&IpAddress::V6([0, 0, 0, 0, 0, 0, 0xc0a8, 0x0001])),
        "::c0a8:1"
    );
}

#[test]
fn ip_text_more_cases() {
    let cases: Vec<([u16; 8], &str)> = vec![
        ([0, 0, 0, 0, 0, 0xffff, 0x7f00, 1], "::ffff:127.0.0.1"),
        ([0, 0, 0, 0, 0, 0xffff, 0, 0], "::ffff:0.0.0.0"),
        ([0, 0, 0, 0, 0, 0xfffe, 0, 0], "::fffe:0:0"),
        ([0, 0, 1, 0, 0, 0, 1, 0], "0:0:1::1:0"),
        ([0, 0, 1, 0, 0, 1, 0, 0], "::1:0:0:1:0:0"),
        ([0xffff; 8], "ffff:ffff:ffff:ffff:ffff:ffff:ffff:ffff"),
        ([0x10, 0x100, 0x1000, 0xa, 0, 0, 0, 0], "10:100:1000:a::"),
        ([1, 2, 3, 4, 5, 6, 7, 8], "1:2:3:4:5:6:7:8"),
        ([1, 0, 0, 2, 0, 0, 0, 3], "1:0:0:2::3"),
    ];
    for (g, text) in cases {
        assert_eq!(ip_to_string(&IpAddress::V6(g)), text);
    }
}

#[test]
fn new_socket_is_empty_and_bound() {
    let addr = v4(0, 0, 0, 0, 4433);
    let socket = DirectSocketUdp::new(addr);
    assert_eq!(socket.local_addr(), addr);
    assert!(socket.send_queue().is_empty());
    assert_eq!(socket.max_transmit_segments(), 1);
    assert_eq!(socket.max_receive_segments(), 1);
}

#[test]
fn queue_transmits_queues_one_message_per_datagram_in_order() {
    let local = v4(127, 0, 0, 1, 5000);
    let mut socket = DirectSocketUdp::new(local);
    let batch = vec![
        Datagram { destination: v4(127, 0, 0, 1, 4000), contents: vec![1, 2, 3] },
        Datagram {
            destination: SocketAddress {
                ip: IpAddress::V6([0x2001, 0xdb8, 0, 0, 0, 0, 0, 7]),
                port: 443,
            },
            contents: vec![],
        },
    ];
    assert_eq!(socket.queue_transmits(&batch), 2);
    let q = socket.send_queue();
    assert_eq!(q.len(), 2);
    assert_eq!(q[0].data, vec![1, 2, 3]);
    assert_eq!(q[0].remote_address, "127.0.0.1");
    assert_eq!(q[0].remote_port, 4000);
    assert_eq!(q[1].data, Vec::<u8>::new());
    assert_eq!(q[1].remote_address, "2001:db8::7");
    assert_eq!(q[1].remote_port, 443);
    assert_eq!(socket.local_addr(), local);
}

#[test]
fn queue_transmits_of_nothing_changes_nothing() {
    let mut socket = DirectSocketUdp::new(v4(10, 0, 0, 2, 1));
    assert_eq!(socket.queue_transmits(&[]), 0);
    assert!(socket.send_queue().is_empty());
}

#[test]
fn queue_keeps_earlier_messages_first() {
    let mut one = DirectSocketUdp::new(v4(0, 0, 0, 0, 0));
    let mut two = DirectSocketUdp::new(v4(0, 0, 0, 0, 0));
    let a = vec![Datagram { destination: v4(1, 2, 3, 4, 1), contents: vec![9] }];
    let b = vec![
        Datagram { destination: v4(5, 6, 7, 8, 2), contents: vec![8, 8] },
        Datagram { destination: v4(9, 9, 9, 9, 3), contents: vec![7] },
    ];
    one.queue_transmits(&a);
    one.queue_transmits(&b);
    let mut both = a;
    both.extend(b);
    two.queue_transmits(&both);
    let key = |m: &UdpMessage| (m.data.clone(), m.remote_address.clone(), m.remote_port);
    let q1: Vec<_> = one.send_queue().iter().map(key).collect();
    let q2: Vec<_> = two.send_queue().iter().map(key).collect();
    assert_eq!(q1, q2);
    assert_eq!(q1[0], (vec![9], "1.2.3.4".to_string(), 1));
    assert_eq!(q1[2], (vec![7], "9.9.9.9".to_string(), 3));
}

#[test]
fn message_from_datagram() {
    let d = Datagram { destination: v4(192, 0, 2, 33, 65535), contents: vec![0xde, 0xad] };
    let m = UdpMessage::from_datagram(&d);
    assert_eq!(m.data, vec![0xde, 0xad]);
    assert_eq!(m.remote_address, "192.0.2.33");
    assert_eq!(m.remote_port, 65535);
}

#[test]
fn socket_options_for_local_address() {
    let o = udp_socket_options(&v4(0, 0, 0, 0, 0));
    assert_eq!(o.local_address, "0.0.0.0");
    assert_eq!(o.local_port, 0);
    let o = udp_socket_options(&SocketAddress { ip: IpAddress::V6([0, 0, 0, 0, 0, 0, 0, 1]), port: 9000 });
    assert_eq!(o.local_address, "::1");
    assert_eq!(o.local_port, 9000);
}
