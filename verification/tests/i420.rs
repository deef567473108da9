use webrtc_http_media::ebml::{encode_be, encode_uint};
use webrtc_http_media::i420::{
    are_planes_countable, pack_i420, packed_len_of, unpack_i420,
};
use webrtc_http_media::link_header::{parse_ice_server_entry, split_link_header_value};
use webrtc_http_media::text::{find_char, has_prefix, same_text, trimmed};

#[test]
fn packed_planes_are_found_again() {
    let y: Vec<u8> = (0..15).collect(); // 5x3
    let u: Vec<u8> = (100..106).collect(); // 3x2
    let v: Vec<u8> = (200..206).collect();
    let packed = pack_i420(5, 3, 5, 3, 3, &y, &u, &v);
    assert_eq!(packed.len(), 27);
    assert_eq!(packed_len_of(5, 3), Some(27));
    let (mut y2, mut u2, mut v2) = ([0u8; 15], [0u8; 6], [0u8; 6]);
    unpack_i420(&packed, 5, 3, &mut y2, &mut u2, &mut v2);
    assert_eq!((&y2[..], &u2[..], &v2[..]), (&y[..], &u[..], &v[..]));
    assert_eq!(pack_i420(5, 3, 5, 3, 3, &y2, &u2, &v2), packed);
}

#[test]
fn padding_is_left_out() {
    let y = [1, 2, 9, 3, 4, 9];
    let u = [5, 9, 9];
    let v = [6];
    assert_eq!(pack_i420(2, 2, 3, 3, 1, &y, &u, &v), vec![1, 2, 3, 4, 5, 6]);
    // Other bytes between the rows, other strides: the same picture.
    let y = [1, 2, 7, 7, 3, 4];
    assert_eq!(pack_i420(2, 2, 4, 1, 2, &y, &[5], &[6, 8]), vec![1, 2, 3, 4, 5, 6]);
}

#[test]
fn frames_without_pixels() {
    assert_eq!(pack_i420(0, 0, 0, 0, 0, &[], &[], &[]), Vec::<u8>::new());
    assert_eq!(packed_len_of(0, 7), Some(0));
    assert_eq!(packed_len_of(1920, 1080), Some(3_110_400));
    assert_eq!(packed_len_of(1, 1), Some(3));
}

#[test]
fn frames_that_are_too_large_to_count() {
    let m = u32::MAX;
    assert!(are_planes_countable(1920, 1080, 1920, 960, 960));
    assert!(!are_planes_countable(m, m, 0, 0, 0));
    assert_eq!(packed_len_of(m, m), None);
}

#[test]
fn numbers_are_read_back_from_their_bytes() {
    for v in [0u64, 1, 255, 256, 65_535, 65_536, 1_000_000, u64::MAX] {
        let bytes = encode_uint(v);
        assert_eq!(bytes.iter().fold(0u64, |n, b| n.wrapping_mul(256) + *b as u64), v);
        assert!(bytes[0] != 0 || v == 0);
    }
    assert_eq!(encode_be(0x0102_0304, 3), vec![2, 3, 4]);
    assert_eq!(encode_be(5, 4), vec![0, 0, 0, 5]);
}

#[test]
fn white_space_around_text_goes_once() {
    let text = "\u{2028} a b \t";
    assert_eq!(trimmed(text), "a b");
    assert_eq!(trimmed(&trimmed(text)), "a b");
    for entry in split_link_header_value(" <a> ; x , y ") {
        assert_eq!(trimmed(&entry), entry);
    }
    let plain = parse_ice_server_entry("<stun:s>; rel=ice-server").unwrap();
    let spaced = parse_ice_server_entry(" \n<stun:s>; rel=ice-server\t").unwrap();
    assert_eq!(plain.urls, spaced.urls);
    assert_eq!(plain.urls.len(), 1);
}

#[test]
fn looking_into_text() {
    assert!(has_prefix("https://x", "https://"));
    assert!(!has_prefix("http:/", "http://"));
    assert!(has_prefix("é", ""));
    assert!(same_text("ü", "ü"));
    assert!(!same_text("ü", "u"));
    assert_eq!(find_char(&['a', '=', 'b', '='], '=', 0), Some(1));
    assert_eq!(find_char(&['a', '=', 'b', '='], '=', 2), Some(3));
    assert_eq!(find_char(&['a'], '=', 5), None);
}
