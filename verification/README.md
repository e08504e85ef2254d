# lib: verified Teeworlds network and data formats

A Verus library for the formats and protocol logic of the game Teeworlds
(and DDNet): every executable function in `src/` has a contract, and Verus
proves the code against it.

## Layout

- `src/` — the verified library.
  - `packer`, `buffer`: the variable-length integers and strings of
    messages, and bounded output buffers.
  - `huffman`: the compression of packets: building the tree from byte
    frequencies, compressing, decompressing.
  - `protocol`, `protocol7`: the 0.6 and 0.7 packet and chunk headers and
    packet reading; `connection`, `net`: the connection state machine and
    the peer table, as steps from state and event to state and actions.
  - `gamenet`: the 0.7 enumerations, snapshot objects and game messages,
    with a round-trip law per object and message, and for the enums as a
    whole.
  - `serverbrowse*`, `info_request`, `register*`, `stats_browser`: the
    server browser's requests and answers, the parsing of server infos, and
    the decisions of server registration.
  - `datafile_raw`, `map_format`, `map_reader`, `map_file`, `map_structs`,
    `render`: the datafile container, the map items read from it, and the
    game layers.
  - `server`: the per-peer decisions of a small 0.6 game server.
  - `hexdump`, `time`, `oncecell`, `leaky_vec`, `map_inplace`, `bitmagic`:
    small helpers.
- `tests/` — tests of the library on concrete values.
- `app/` — the program around it: sockets, printing, and carrying out the
  server's actions.

## Notes

- The library depends on no crate but Verus's own. Small containers and
  helpers that other Rust code would take from crates (a vector-backed
  peer table, bounded byte buffers as plain vectors, the formatting of hex
  dumps) are written here and verified with the rest.
- Where an input would make the computation overflow or panic, the function
  leaves it out by its `requires`, and a public checking function next to it
  (`DatafileReader::read_checked`, `InfoRequest::on_packet_checked`) tells
  callers whether an input is such a one.
