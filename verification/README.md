# rtps_receiver

The message receiver of a DDS participant, verified with Verus. It reads RTPS
packets, goes through the submessages in them, and hands data, heartbeats and
gaps to the local readers, acknowledgements to the local writers, and
announcements of participants to discovery.

- `src/message_receiver.rs` is the receiver. Its contracts speak of the model in
  `src/model.rs`: what each submessage does to a receiver.
- `src/laws.rs` states and proves what follows for whole messages and for
  several calls.
- `src/packet.rs`, `src/message.rs`, `src/codec.rs`, `src/header.rs`,
  `src/elements.rs`, `src/guid.rs` and `src/wire.rs` say what the octets of a
  packet mean, and read them.
- `src/reader.rs` is a local reader as the receiver sees it: who it is, which
  writers it is matched with, and the changes that it has been handed.
- `src/effect.rs` is what comes of all this: one list, in order, of what readers
  were handed to act on, of what the channels were handed and answered, and of
  what was dropped. `src/order.rs` is about the order in which readers are
  served.
- `src/channel.rs` holds the sending ends of the channels to the writers and to
  discovery. What has been handed to a channel is part of the model; what it
  answers is reported, and left open.
- `app/` goes through the effects in order: it passes what readers were handed
  on to whatever acts for them, and logs the rest.

Trusted without proof: `bytes::Bytes` dereferences to the octets it holds,
`BTreeMap::get_mut` gives access to the value at a key, and
`SyncSender::try_send` returns an answer.
