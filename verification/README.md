# pixelforge

The logic of a Vulkan Video H.264 decoder and of a GPU colour converter, written
and verified in [Verus](https://github.com/verus-lang/verus).

The library decides; it does not touch a device. It takes bytes, device
capabilities and events, and gives out pictures, plans and frames. The crate under
`app/` carries the decisions out with `ash`.

## What is proved

- **Parsing.** SPS, PPS and slice headers are read exactly as the bit-level grammar
  in `src/decoder/h264/syntax.rs` says, errors included.
- **Framing.** A byte stream gives the same pictures however it was cut up, and no
  byte is lost.
- **Picture order.** The order count that was encoded is recovered. Every picture
  that is pushed comes out once, and where the reorder depth suffices for a coded
  video sequence, in display order.
- **References.** Whatever pictures were decoded, each reference has a slot of its
  own, no slot leaks, and references keep their order. The sliding window makes room,
  and long-term references never slide out of it. Their indices stay distinct, unless
  a picture gives away the index that it took for itself.
- **Waiting.** A decoder that waits for a slot goes on once a slot that was pinned
  then is released, and on nothing else.
- **Sessions.** A plan keeps to what the device offers. Where marking is left to the
  sliding window, frames that a caller holds never keep the decoder from a slot.
- **Storage.** A frame keeps its image until it is dropped: no other picture is put
  there meanwhile.
- **Readback.** Every read of a plane stays inside its buffer.
- **Colour conversion.** Every plane copy lies inside the output buffer, the
  workgroups cover the picture, and a target is reachable exactly where it can be
  signalled to a decoder.

Each of these is a proof function named `law_*` beside the code it speaks of.

## Layout

| Path | What it holds |
| --- | --- |
| `src/decoder/` | configuration, bit reader, frame storage, display order, pipeline |
| `src/decoder/h264/` | NAL units, syntax, parser, order counts, DPB, sessions |
| `src/converter/` | colour specifications, formats, configuration, conversion plan |
| `src/video.rs` | formats and helpers shared by both |
| `src/error.rs` | what is refused, and how it is worded |
| `tests/` | the library on concrete streams and values |
| `app/` | the Vulkan side: objects, submissions, threads, channels |

## Decoding

A decoder is fed through `ByteFramer` (for input that may cut anywhere) or with
whole coded frames, which `ParameterSets::split_pictures` turns into pictures.
`ActiveSession` takes each picture through its decode: `begin_picture`, `find_slot`,
`plan_decode`, and `publish` once it is submitted. `DisplayQueue` then says which
frames are ready to be shown, and where their pixels are.
