//! Decoding of the INET_DIAG replies that arrive over a netlink socket: the
//! socket descriptions a buffer holds, and whether the dump went on, ended
//! or failed.

use crate::socket::{InetRecord, SocketProtocol};
use netlink_packet_core::{NetlinkMessage, NetlinkPayload};
use netlink_packet_sock_diag::SockDiagMessage;
use vstd::prelude::*;
use vstd::slice::slice_subrange;

verus! {

/// What one netlink message says, as far as the socket table is concerned.
#[derive(Debug, Clone, Copy, PartialEq, Eq, Structural)]
pub enum DiagReply {
    /// The end of a dump.
    Done,
    /// An error message; `true` when it carries an error code (an
    /// acknowledgement carries none).
    Error(bool),
    /// The description of one socket.
    Inet { inode: u32, state: u8, source_port: u16, destination_port: u16, send_queue: u32, recv_queue: u32 },
    /// Any other message.
    Other,
}

/// The first netlink message of `bytes` with its length, where the bytes
/// start with one that netlink-packet-core decodes.
pub uninterp spec fn diag_message(bytes: Seq<u8>) -> Option<(u32, DiagReply)>;

/// Trusted: decodes the message at the start of `bytes` with
/// netlink-packet-core's `NetlinkMessage::<SockDiagMessage>::deserialize`
/// and tells its payload apart. What it decodes is named by `diag_message`;
/// the decoder accepts only a message whose length field covers at least the
/// 16-byte header and at most the buffer.
#[verifier::external_body]
fn decode_message(bytes: &[u8]) -> (r: Option<(u32, DiagReply)>)
    ensures
        r == diag_message(bytes@),
        r matches Some((len, _)) ==> 16 <= len <= bytes@.len(),
{
    let m = NetlinkMessage::<SockDiagMessage>::deserialize(bytes).ok()?;
    let reply = match m.payload {
        NetlinkPayload::Done(_) => DiagReply::Done,
        NetlinkPayload::Error(e) => DiagReply::Error(e.code.is_some()),
        NetlinkPayload::InnerMessage(SockDiagMessage::InetResponse(r)) => DiagReply::Inet {
            inode: r.header.inode,
            state: r.header.state,
            source_port: r.header.socket_id.source_port,
            destination_port: r.header.socket_id.destination_port,
            send_queue: r.header.send_queue,
            recv_queue: r.header.recv_queue,
        },
        _ => DiagReply::Other,
    };
    Some((m.header.length, reply))
}

/// How a buffer of replies ends: it was used up (more may follow), the dump
/// is done, or the kernel reported an error.
#[derive(Debug, Clone, Copy, PartialEq, Eq, Structural)]
pub enum ReplyEnd {
    More,
    Done,
    Failed,
}

/// The record of a socket description, for a request about `protocol`.
pub open spec fn record_of_reply(m: DiagReply, protocol: SocketProtocol) -> InetRecord {
    match m {
        DiagReply::Inet { inode, state, source_port, destination_port, send_queue, recv_queue } => InetRecord {
            inode: inode as u64,
            state,
            source_port,
            destination_port,
            send_queue,
            recv_queue,
            protocol,
        },
        _ => InetRecord {
            inode: 0,
            state: 0,
            source_port: 0,
            destination_port: 0,
            send_queue: 0,
            recv_queue: 0,
            protocol,
        },
    }
}

/// The socket descriptions of a buffer, message by message, up to its end,
/// and how it ends: at a message that does not decode, or once used up,
/// more may follow; at the end of the dump it is done; at an error message
/// with an error code it failed. Acknowledgements and other messages are
/// passed over.
pub open spec fn replies_of(bytes: Seq<u8>, protocol: SocketProtocol) -> (Seq<InetRecord>, ReplyEnd)
    decreases bytes.len(),
{
    if bytes.len() == 0 {
        (Seq::empty(), ReplyEnd::More)
    } else {
        match diag_message(bytes) {
            None => (Seq::empty(), ReplyEnd::More),
            Some((len, m)) => if len == 0 || len > bytes.len() {
                (Seq::empty(), ReplyEnd::More)
            } else {
                match m {
                    DiagReply::Done => (Seq::empty(), ReplyEnd::Done),
                    DiagReply::Error(coded) => if coded {
                        (Seq::empty(), ReplyEnd::Failed)
                    } else {
                        replies_of(bytes.skip(len as int), protocol)
                    },
                    DiagReply::Inet { .. } => {
                        let (rs, end) = replies_of(bytes.skip(len as int), protocol);
                        (seq![record_of_reply(m, protocol)] + rs, end)
                    },
                    DiagReply::Other => replies_of(bytes.skip(len as int), protocol),
                }
            },
        }
    }
}

/// Decode a buffer of INET_DIAG replies to a request about `protocol`.
pub fn decode_replies(buf: &[u8], protocol: SocketProtocol) -> (r: (Vec<InetRecord>, ReplyEnd))
    ensures
        (r.0@, r.1) == replies_of(buf@, protocol),
{
    let mut records: Vec<InetRecord> = Vec::new();
    let mut offset: usize = 0;
    proof {
        assert(buf@.skip(0) =~= buf@);
    }
    loop
        invariant
            offset <= buf@.len(),
            replies_of(buf@, protocol) == (
                records@ + replies_of(buf@.skip(offset as int), protocol).0,
                replies_of(buf@.skip(offset as int), protocol).1,
            ),
        decreases buf@.len() - offset,
    {
        let ghost here = buf@.skip(offset as int);
        if offset >= buf.len() {
            proof {
                assert(here.len() == 0);
                assert(records@ + Seq::<InetRecord>::empty() =~= records@);
            }
            return (records, ReplyEnd::More);
        }
        let rest = slice_subrange(buf, offset, buf.len());
        proof {
            assert(rest@ =~= here);
        }
        match decode_message(rest) {
            None => {
                proof {
                    assert(records@ + Seq::<InetRecord>::empty() =~= records@);
                }
                return (records, ReplyEnd::More);
            },
            Some((len, m)) => {
                let ghost next = here.skip(len as int);
                proof {
                    assert(buf@.skip(offset + len) =~= next);
                }
                match m {
                    DiagReply::Done => {
                        proof {
                            assert(records@ + Seq::<InetRecord>::empty() =~= records@);
                        }
                        return (records, ReplyEnd::Done);
                    },
                    DiagReply::Error(coded) => {
                        if coded {
                            proof {
                                assert(records@ + Seq::<InetRecord>::empty() =~= records@);
                            }
                            return (records, ReplyEnd::Failed);
                        }
                        offset = offset + len as usize;
                    },
                    DiagReply::Inet { inode, state, source_port, destination_port, send_queue, recv_queue } => {
                        let ghost before = records@;
                        records.push(
                            InetRecord {
                                inode: inode as u64,
                                state,
                                source_port,
                                destination_port,
                                send_queue,
                                recv_queue,
                                protocol,
                            },
                        );
                        proof {
                            let tail = replies_of(next, protocol).0;
                            assert(records@ + tail =~= before + (seq![record_of_reply(m, protocol)] + tail));
                        }
                        offset = offset + len as usize;
                    },
                    DiagReply::Other => {
                        offset = offset + len as usize;
                    },
                }
            },
        }
    }
}

} // verus!
