//! Streams that a server accepts.

use crate::proto::data::{AnnounceRequest, QueryRequest};
use crate::stream::{FrameSendStream, MappedRecvStream};
use vstd::prelude::*;

verus! {

pub type AnnounceRecvStream = MappedRecvStream<AnnounceRequest>;

pub type AnnounceSendStream = FrameSendStream;

pub type QueryRecvStream = MappedRecvStream<QueryRequest>;

pub type QuerySendStream = FrameSendStream;

pub type AnnounceBiStream = (AnnounceSendStream, AnnounceRecvStream);

pub type QueryBiStream = (QuerySendStream, QueryRecvStream);

} // verus!
