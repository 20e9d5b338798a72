# waht

A peer tracker. Peers tell a tracker where they can be reached and what they provide; other peers
look that up. The library holds the logic and is verified with Verus; the program under `app/`
connects it to QUIC, TLS, files and the command line.

| Module | What it holds |
| ------ | ------------- |
| `ordmap`, `buffer`, `addr` | ordered maps, byte buffers, socket addresses |
| `util::time` | intervals, and maps whose entries expire |
| `proto::codec`, `proto::traits`, `proto::util` | the binary encoding, with proofs that decoding undoes encoding |
| `proto::crypto` | signed envelopes |
| `proto::wire`, `proto::data` | the frames of the wire protocol, and the messages that they carry |
| `stream`, `queue` | stream types and framing, and queues of frames to be sent |
| `tracker` | tracker messages, the state of a server, the state of a client |
| `io`, `io::quic` | message framing, the streams of clients and servers, control streams, keys and certificates |
| `net`, `frame` | a server that hands on signed announcements, and single connections |
| `cli` | what the commands of the command line ask for |

## On the wire

A stream starts with one byte for its type: 0x00 for control, 0x01 for queries, 0x02 for
announcements. Then come frames: four bytes for the type of the frame, four bytes for the length of
the payload, both with the highest byte first, and the payload.

| Frame | Type | Streams |
| ----- | ---- | ------- |
| `HELLO` | 0x01 | control |
| `ANNOUNCE` | 0x02 | announce (client), query (server) |
| `QUERY` | 0x04 | query (client) |
| `ACK` | 0x07 | announce (server) |
| `END` | 0x08 | all |
| `ERROR` | 0x09 | all |

A server that will not reply to a query any more sends `END` and closes its sending side. A stream
of a type that is not supported is closed. A connection on which either side has not opened its
control stream in time is aborted, and no other stream is served before. Announcements are handed on
byte for byte, so that the signature of the peer can be checked end to end.

## Transport

Nothing in the library reads from or writes to a transport. A type such as `FrameSendStream` says
what has to be written and is told what was written; the program does the writing. What the library
takes on trust of other crates stands in its own small functions, each with a comment that says what
is relied on.
