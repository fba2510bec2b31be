# ironplayer

The decisions of a player for MPEG transport streams received over multicast,
written in Verus: the functions of the library state what they return, and the
statements are proved.  Two things are left open, as other threads or the
machine decide them: what time the clocks of `av::clock` show at a moment, and
whether a token of `net::stop` has been stopped by then.  What is done with a
time or a count once it is read is stated.

- `src/net` receives: stream URLs, RTP headers and sequence numbers, forward
  error correction headers, joining and leaving of groups, arrival statistics.
- `src/av` plays: elementary stream packets, codecs, scan types, the decoder
  with its fallback from hardware to software, deinterlacing, the video queue,
  audio buffers, clocks, and how pictures are drawn.
- `src/av/hw` keeps account of the graphics device: its failures, its surfaces
  and the textures that it shares.
- `src/text.rs`, `src/octets.rs` and `src/channel.rs` hold what the rest says
  texts, byte buffers and channels with.

Times are nanoseconds on a monotonic clock, or ticks of 90 kHz where they are
presentation times.  Properties that span functions are the public proof
functions whose names begin with `law_`.

`app` does what the library decides: sockets, the FFmpeg libraries, audio
output, Direct3D and wgpu, and the statistics in floating point.  `tests` runs
the library on concrete values.
