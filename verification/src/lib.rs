//! Teeworlds/DDNet network and data formats: the variable-length integer
//! packer, the homebrew Huffman compression, the 0.6 and 0.7 packet and chunk
//! headers, and the high-level message and snapshot object encodings.

pub mod buffer;
pub mod packer;
pub mod huffman;
pub mod protocol;
pub mod protocol7;
pub mod gamenet;
pub mod serverbrowse;
pub mod connection;
pub mod oncecell;
pub mod map_inplace;
pub mod hexdump;
pub mod datafile_raw;
pub mod register;
pub mod map_format;
pub mod map_reader;
pub mod time;
pub mod stats_browser;
pub mod leaky_vec;
pub mod bitmagic;
pub mod render;
pub mod serverbrowse_info;
pub mod serverbrowse_response;
pub mod info_request;
pub mod map_structs;
pub mod register_task;
pub mod net;
pub mod map_file;
pub mod server;
