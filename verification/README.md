# ccsds

Decoding of CCSDS telemetry: synchronizing attached sync markers in a bit stream,
removing pseudo-noise, Reed-Solomon (255,223) checking of interleaved codeblocks,
AOS transfer frames, demultiplexing space packets out of frame MPDUs, space packet
groups, packet file merging, and the statistics, filters and differences of the
command line tool. The library is written in Verus: each public function carries a
contract, and the properties that relate several functions are stated as proof
functions.

Layout:

- `src/` — the verified library
  - `bytes.rs` an in-memory byte reader
  - `framing/` synchronizer, pseudo-noise, Reed-Solomon, frames, packet demultiplexing,
    the decode pipeline and the frame decoder
  - `spacepacket/` primary headers, packets, groups, summaries and merging
  - `timecode/` the integer fields of CDS and CUC time codes
  - `spacecraft_db.rs` lookups in the `spacecrafts` database
  - `cmd/` the decisions and statistics of the command line tool
- `tests/` tests of the library
- `app/` the command line tool: argument handling, files and sockets, JSON, time
  conversions and text output around the library
