//! Clients for WHIP and WHEP, the HTTP protocols that send and receive WebRTC
//! media: the MKV streams that they read and write, the signaling, and the
//! pacing and accounting of frames.

pub mod audio;
pub mod cli;
pub mod connection;
pub mod ebml;
pub mod ebml_ids;
pub mod headers;
pub mod i420;
pub mod link_header;
pub mod lists;
pub mod mkv_elements;
pub mod mkv_file;
pub mod mkv_header;
pub mod mkv_reader;
pub mod mkv_stream;
pub mod mkv_tags;
pub mod mkv_writer;
pub mod num;
pub mod signaling;
pub mod sink;
pub mod states;
pub mod text;
pub mod trickle;
pub mod video_scaler;
pub mod whep;
pub mod whip;
