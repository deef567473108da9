# webrtc_http_media

Clients for WHIP and WHEP, the HTTP protocols that send and receive WebRTC
media, with their logic verified in Verus.

`whep-client` receives a stream and writes it to stdout as MKV (raw I420 video,
PCM audio); `whip-client` reads such a stream from stdin and sends it.

- `src/` is the verified library: the EBML and Matroska encodings, the MKV
  writer and reader, I420 packing, audio chunking, pacing and accounting of
  frames, ICE servers in Link headers, resource URLs, trickle ICE, the steps of
  a connection, and the command lines. `mkv_tags.rs` states what a reader makes
  of the tags of a stream, `mkv_elements.rs` what tags the bytes of a stream
  stand for, and `mkv_header.rs`, `mkv_stream.rs` and `mkv_file.rs` that what a
  writer wrote is read back.
- `tests/` runs the library, with the real tag iterator, header maps and URLs.
- `app/` is the program around it: HTTP, stdin and stdout, tasks, and
  libwebrtc.

What is not proved is declared where it is used: `headers.rs` and
`signaling.rs` say what they believe of header maps and of resolving URLs. That
the tag iterator which the program reads with gives the tags of
`mkv_elements.rs` is tested, not proved. An element whose size has all bits set
(a frame of 123 bytes makes such a block) has an unknown size to a reader, and
is left out of what is said of reading back, as are elements over 4 GB.
