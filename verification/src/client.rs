//! The client's side of the control socket: what each call expects for an
//! answer, and how an upload is cut into commands.

use vstd::prelude::*;
use vstd::string::StringExecFns;

use crate::consent::PendingConsent;
use crate::peers::PeerMetadata;
use crate::rpc::SdkCommand;
use crate::rpc::SdkResponse;
use crate::trust::TrustedDevice;

verus! {

/// The largest chunk that an upload sends in one command.
pub const CHUNK_SIZE: usize = 65536;

/// Why a call failed.
#[derive(Debug)]
pub enum ClientError {
    /// The node answered with an error, which says this.
    Node { msg: String },
    /// The node answered with something that is no answer to the call.
    Unexpected,
    /// The node is an old one and still lists its peers as lines of text.
    LegacyPeerList,
}

/// What a failed call says of an answer that was not the expected one: an
/// error answer gives its message, and any other answer is unexpected.
pub open spec fn failure_of(response: SdkResponse) -> ClientError {
    match response {
        SdkResponse::Error { msg } => ClientError::Node { msg },
        _ => ClientError::Unexpected,
    }
}

fn fail(response: SdkResponse) -> (e: ClientError)
    ensures
        e == failure_of(response),
{
    match response {
        SdkResponse::Error { msg } => ClientError::Node { msg },
        _ => ClientError::Unexpected,
    }
}

/// The answer to `Store`, `StoreRemote`, `Set` and `StreamFinish`: the id
/// of the block.
pub fn expect_stored(response: SdkResponse) -> (r: Result<u64, ClientError>)
    ensures
        r == (match response {
            SdkResponse::Stored { id } => Ok::<u64, ClientError>(id),
            _ => Err::<u64, ClientError>(failure_of(response)),
        }),
{
    match response {
        SdkResponse::Stored { id } => Ok(id),
        other => Err(fail(other)),
    }
}

/// The answer to `Load` and `Get`: the bytes.
pub fn expect_loaded(response: SdkResponse) -> (r: Result<Vec<u8>, ClientError>)
    ensures
        r == (match response {
            SdkResponse::Loaded { data } => Ok::<Vec<u8>, ClientError>(data),
            _ => Err::<Vec<u8>, ClientError>(failure_of(response)),
        }),
{
    match response {
        SdkResponse::Loaded { data } => Ok(data),
        other => Err(fail(other)),
    }
}

/// The answer to a command that only succeeds or fails.
pub fn expect_success(response: SdkResponse) -> (r: Result<(), ClientError>)
    ensures
        r == (match response {
            SdkResponse::Success => Ok::<(), ClientError>(()),
            _ => Err::<(), ClientError>(failure_of(response)),
        }),
{
    match response {
        SdkResponse::Success => Ok(()),
        other => Err(fail(other)),
    }
}

/// The answer to `Flush`.
pub fn expect_flushed(response: SdkResponse) -> (r: Result<(), ClientError>)
    ensures
        r == (match response {
            SdkResponse::FlushSuccess => Ok::<(), ClientError>(()),
            _ => Err::<(), ClientError>(failure_of(response)),
        }),
{
    match response {
        SdkResponse::FlushSuccess => Ok(()),
        other => Err(fail(other)),
    }
}

/// The answer to `ListKeys`: the keys.
pub fn expect_list(response: SdkResponse) -> (r: Result<Vec<String>, ClientError>)
    ensures
        r == (match response {
            SdkResponse::List { items } => Ok::<Vec<String>, ClientError>(items),
            _ => Err::<Vec<String>, ClientError>(failure_of(response)),
        }),
{
    match response {
        SdkResponse::List { items } => Ok(items),
        other => Err(fail(other)),
    }
}

/// The answer to `ListPeers`: the peers. A list of lines, as old nodes
/// send it, is refused.
pub fn expect_peers(response: SdkResponse) -> (r: Result<Vec<PeerMetadata>, ClientError>)
    ensures
        r == (match response {
            SdkResponse::PeerList { peers } => Ok::<Vec<PeerMetadata>, ClientError>(peers),
            SdkResponse::List { items } => Err::<Vec<PeerMetadata>, ClientError>(
                ClientError::LegacyPeerList,
            ),
            _ => Err::<Vec<PeerMetadata>, ClientError>(failure_of(response)),
        }),
{
    match response {
        SdkResponse::PeerList { peers } => Ok(peers),
        SdkResponse::List { items } => Err(ClientError::LegacyPeerList),
        other => Err(fail(other)),
    }
}

/// The answer to `Connect` and `PollConnection`: the state of the
/// handshake, and the reason where it failed.
pub fn expect_connection(
    response: SdkResponse,
) -> (r: Result<(String, Option<String>), ClientError>)
    ensures
        match response {
            SdkResponse::ConnectionStatus { state, msg } => r is Ok && r.unwrap() == (state, msg),
            _ => r is Err && r->Err_0 == failure_of(response),
        },
{
    match response {
        SdkResponse::ConnectionStatus { state, msg } => Ok((state, msg)),
        other => Err(fail(other)),
    }
}

/// The answer to `Stat`: the numbers of blocks and of peers, and the
/// bytes in use.
pub fn expect_status(response: SdkResponse) -> (r: Result<(usize, usize, usize), ClientError>)
    ensures
        match response {
            SdkResponse::Status { blocks, peers, memory_usage } => {
                &&& r is Ok
                &&& r.unwrap() == (blocks, peers, memory_usage)
            },
            _ => r is Err && r->Err_0 == failure_of(response),
        },
{
    match response {
        SdkResponse::Status { blocks, peers, memory_usage } => Ok((blocks, peers, memory_usage)),
        other => Err(fail(other)),
    }
}

/// The answer to `StreamStart`: the id of the upload.
pub fn expect_stream(response: SdkResponse) -> (r: Result<u64, ClientError>)
    ensures
        r == (match response {
            SdkResponse::StreamStarted { stream_id } => Ok::<u64, ClientError>(stream_id),
            _ => Err::<u64, ClientError>(failure_of(response)),
        }),
{
    match response {
        SdkResponse::StreamStarted { stream_id } => Ok(stream_id),
        other => Err(fail(other)),
    }
}

/// The answer to `TrustList`: the trusted devices.
pub fn expect_trusted(response: SdkResponse) -> (r: Result<Vec<TrustedDevice>, ClientError>)
    ensures
        r == (match response {
            SdkResponse::TrustedList { items } => Ok::<Vec<TrustedDevice>, ClientError>(items),
            _ => Err::<Vec<TrustedDevice>, ClientError>(failure_of(response)),
        }),
{
    match response {
        SdkResponse::TrustedList { items } => Ok(items),
        other => Err(fail(other)),
    }
}

/// The answer to `ConsentList`: the requests that wait for the operator.
pub fn expect_consents(response: SdkResponse) -> (r: Result<Vec<PendingConsent>, ClientError>)
    ensures
        r == (match response {
            SdkResponse::ConsentList { items } => Ok::<Vec<PendingConsent>, ClientError>(items),
            _ => Err::<Vec<PendingConsent>, ClientError>(failure_of(response)),
        }),
{
    match response {
        SdkResponse::ConsentList { items } => Ok(items),
        other => Err(fail(other)),
    }
}

/// An upload in progress, as the client sees it: the id that the node
/// gave it, and the number of the next chunk.
pub struct StreamUpload {
    pub stream_id: u64,
    pub next_seq: u32,
}

impl StreamUpload {
    /// An upload that the node has opened under `stream_id`.
    pub fn new(stream_id: u64) -> (upload: StreamUpload)
        ensures
            upload.stream_id == stream_id,
            upload.next_seq == 0,
    {
        StreamUpload { stream_id, next_seq: 0 }
    }

    /// The command that sends the next chunk. Chunks are numbered from
    /// zero in the order in which they are sent; an upload of more than
    /// 2^32 chunks is refused.
    pub fn stream_data(&mut self, chunk: Vec<u8>) -> (cmd: Option<SdkCommand>)
        ensures
            final(self).stream_id == old(self).stream_id,
            old(self).next_seq == u32::MAX ==> ({
                &&& cmd.is_none()
                &&& final(self).next_seq == old(self).next_seq
            }),
            old(self).next_seq < u32::MAX ==> ({
                &&& final(self).next_seq == old(self).next_seq + 1
                &&& cmd == Some(
                    SdkCommand::StreamChunk {
                        stream_id: old(self).stream_id,
                        chunk_seq: old(self).next_seq,
                        data: chunk,
                    },
                )
            }),
    {
        if self.next_seq == u32::MAX {
            return None;
        }
        let seq = self.next_seq;
        self.next_seq = seq + 1;
        Some(SdkCommand::StreamChunk { stream_id: self.stream_id, chunk_seq: seq, data: chunk })
    }

    /// The command that closes the upload and stores what was sent.
    pub fn finish(self, target: Option<String>) -> (cmd: SdkCommand)
        ensures
            cmd == (SdkCommand::StreamFinish {
                stream_id: self.stream_id,
                target: target,
                durability: None,
            }),
    {
        SdkCommand::StreamFinish { stream_id: self.stream_id, target, durability: None }
    }
}

/// The peer that a command of the client names, as the command line gave it.
pub fn target_peer_string(peer: Option<String>) -> (target: Option<String>)
    ensures
        target == peer,
{
    peer
}

/// The text that a client error shows.
pub fn client_error_message(e: &ClientError) -> (msg: String)
    ensures
        msg@ == (match *e {
            ClientError::Node { msg } => msg@,
            ClientError::Unexpected => "Unexpected response"@,
            ClientError::LegacyPeerList => "Received legacy peer list format"@,
        }),
{
    match e {
        ClientError::Node { msg } => msg.clone(),
        ClientError::Unexpected => String::from_str("Unexpected response"),
        ClientError::LegacyPeerList => String::from_str("Received legacy peer list format"),
    }
}

} // verus!
