use gartop::diag::{decode_replies, ReplyEnd};
use gartop::socket::SocketProtocol;
use netlink_packet_core::{DoneMessage, ErrorMessage, NetlinkHeader, NetlinkMessage, NetlinkPayload};
use netlink_packet_sock_diag::inet::{InetResponse, InetResponseHeader, SocketId};
use netlink_packet_sock_diag::SockDiagMessage;

fn bytes_of(mut m: NetlinkMessage<SockDiagMessage>) -> Vec<u8> {
    m.finalize();
    let mut b = vec![0u8; m.buffer_len()];
    m.serialize(&mut b);
    b
}

fn inet(inode: u32, state: u8, recv_queue: u32, send_queue: u32) -> Vec<u8> {
    let resp = InetResponse {
        header: InetResponseHeader {
            family: 2,
            state,
            timer: None,
            socket_id: SocketId { source_port: 80, destination_port: 5000, ..SocketId::new_v4() },
            recv_queue,
            send_queue,
            uid: 0,
            inode,
        },
        nlas: Default::default(),
    };
    bytes_of(NetlinkMessage::from(SockDiagMessage::InetResponse(Box::new(resp))))
}

fn done() -> Vec<u8> {
    bytes_of(NetlinkMessage::new(NetlinkHeader::default(), NetlinkPayload::Done(DoneMessage::default())))
}

fn error(code: i32) -> Vec<u8> {
    let mut e = ErrorMessage::default();
    e.code = std::num::NonZeroI32::new(code);
    bytes_of(NetlinkMessage::new(NetlinkHeader::default(), NetlinkPayload::Error(e)))
}

#[test]
fn replies_until_done() {
    let mut buf = inet(4242, 1, 7, 5);
    buf.extend(inet(4343, 10, 0, 0));
    buf.extend(done());
    buf.extend(inet(9999, 1, 0, 0));
    let (records, end) = decode_replies(&buf, SocketProtocol::Tcp);
    assert_eq!(end, ReplyEnd::Done);
    assert_eq!(records.len(), 2);
    assert_eq!(records[0].inode, 4242);
    assert_eq!(records[0].state, 1);
    assert_eq!((records[0].source_port, records[0].destination_port), (80, 5000));
    assert_eq!((records[0].recv_queue, records[0].send_queue), (7, 5));
    assert_eq!(records[0].protocol, SocketProtocol::Tcp);
    assert_eq!(records[1].inode, 4343);
}

#[test]
fn replies_continue_in_next_buffer() {
    let buf = inet(1, 7, 0, 0);
    let (records, end) = decode_replies(&buf, SocketProtocol::Udp);
    assert_eq!(end, ReplyEnd::More);
    assert_eq!(records.len(), 1);
    assert_eq!(records[0].protocol, SocketProtocol::Udp);
    let (none, end) = decode_replies(&[], SocketProtocol::Udp);
    assert!(none.is_empty());
    assert_eq!(end, ReplyEnd::More);
    // A truncated message does not decode: the buffer ends there.
    let (cut, end) = decode_replies(&buf[..10], SocketProtocol::Udp);
    assert!(cut.is_empty());
    assert_eq!(end, ReplyEnd::More);
}

#[test]
fn replies_error_and_ack() {
    let mut buf = error(0);
    buf.extend(inet(5, 1, 0, 0));
    buf.extend(error(-1));
    let (records, end) = decode_replies(&buf, SocketProtocol::Tcp);
    assert_eq!(end, ReplyEnd::Failed);
    assert_eq!(records.len(), 1);
    assert_eq!(records[0].inode, 5);
}
