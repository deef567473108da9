//! EBML element IDs.

use vstd::prelude::*;

verus! {

// EBML header
pub const EBML: [u8; 4] = [0x1A, 0x45, 0xDF, 0xA3];
pub const EBML_VERSION: [u8; 2] = [0x42, 0x86];
pub const EBML_READ_VERSION: [u8; 2] = [0x42, 0xF7];
pub const EBML_MAX_ID_LENGTH: [u8; 2] = [0x42, 0xF2];
pub const EBML_MAX_SIZE_LENGTH: [u8; 2] = [0x42, 0xF3];
pub const DOC_TYPE: [u8; 2] = [0x42, 0x82];
pub const DOC_TYPE_VERSION: [u8; 2] = [0x42, 0x87];
pub const DOC_TYPE_READ_VERSION: [u8; 2] = [0x42, 0x85];

// Segment
pub const SEGMENT: [u8; 4] = [0x18, 0x53, 0x80, 0x67];

// Info
pub const INFO: [u8; 4] = [0x15, 0x49, 0xA9, 0x66];
pub const TIMESTAMP_SCALE: [u8; 3] = [0x2A, 0xD7, 0xB1];
pub const MUXING_APP: [u8; 2] = [0x4D, 0x80];
pub const WRITING_APP: [u8; 2] = [0x57, 0x41];

// Tracks
pub const TRACKS: [u8; 4] = [0x16, 0x54, 0xAE, 0x6B];
pub const TRACK_ENTRY: [u8; 1] = [0xAE];
pub const TRACK_NUMBER: [u8; 1] = [0xD7];
pub const TRACK_UID: [u8; 2] = [0x73, 0xC5];
pub const TRACK_TYPE: [u8; 1] = [0x83];
pub const CODEC_ID: [u8; 1] = [0x86];
pub const CODEC_PRIVATE: [u8; 2] = [0x63, 0xA2];

// Video track
pub const VIDEO: [u8; 1] = [0xE0];
pub const PIXEL_WIDTH: [u8; 1] = [0xB0];
pub const PIXEL_HEIGHT: [u8; 1] = [0xBA];
pub const COLOUR_SPACE: [u8; 3] = [0x2E, 0xB5, 0x24];

// Audio track
pub const AUDIO: [u8; 1] = [0xE1];
pub const SAMPLING_FREQUENCY: [u8; 1] = [0xB5];
pub const CHANNELS: [u8; 1] = [0x9F];
pub const BIT_DEPTH: [u8; 2] = [0x62, 0x64];

// Cluster
pub const CLUSTER: [u8; 4] = [0x1F, 0x43, 0xB6, 0x75];
pub const TIMESTAMP: [u8; 1] = [0xE7];
pub const SIMPLE_BLOCK: [u8; 1] = [0xA3];

/// The size of an element whose length is not known when it is opened.
pub const UNKNOWN_SIZE: [u8; 8] = [0x01, 0xFF, 0xFF, 0xFF, 0xFF, 0xFF, 0xFF, 0xFF];

/// "matroska"
pub const DOC_TYPE_MATROSKA: [u8; 8] = [0x6D, 0x61, 0x74, 0x72, 0x6F, 0x73, 0x6B, 0x61];

/// "whep-client"
pub const APP_NAME: [u8; 11] = [
    0x77, 0x68, 0x65, 0x70, 0x2D, 0x63, 0x6C, 0x69, 0x65, 0x6E, 0x74,
];

/// "V_UNCOMPRESSED"
pub const CODEC_UNCOMPRESSED: [u8; 14] = [
    0x56, 0x5F, 0x55, 0x4E, 0x43, 0x4F, 0x4D, 0x50, 0x52, 0x45, 0x53, 0x53, 0x45, 0x44,
];

/// "A_PCM/INT/LIT"
pub const CODEC_PCM: [u8; 13] = [
    0x41, 0x5F, 0x50, 0x43, 0x4D, 0x2F, 0x49, 0x4E, 0x54, 0x2F, 0x4C, 0x49, 0x54,
];

/// "I420"
pub const FOURCC_I420: [u8; 4] = [0x49, 0x34, 0x32, 0x30];

} // verus!
