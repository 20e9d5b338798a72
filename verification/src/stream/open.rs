//! Streams that a client opens.

use crate::proto::data::{AnnounceRequest, AnnounceResponse, QueryRequest, QueryResponse};
use crate::stream::{FrameSendStream, MappedRecvStream, MappedSendStream};
use vstd::prelude::*;

verus! {

pub type AnnounceRecvStream = MappedRecvStream<AnnounceResponse>;

pub type AnnounceSendStream = MappedSendStream<AnnounceRequest>;

pub type QueryRecvStream = MappedRecvStream<QueryResponse>;

pub type QuerySendStream = MappedSendStream<QueryRequest>;

pub type AnnounceBiStream = (FrameSendStream, AnnounceRecvStream);

pub type QueryBiStream = (FrameSendStream, QueryRecvStream);

} // verus!
