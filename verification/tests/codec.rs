//! Tests for hex color parsing and flat input-buffer decoding.

use fastgraph::buffers::{decode_edge_buffer, decode_node_buffer};
use fastgraph::hexcolor::{parse_hex_color, Rgba};

fn rgba(red: u8, green: u8, blue: u8, alpha: u8) -> Rgba {
    Rgba { red, green, blue, alpha }
}

#[test]
fn parses_six_digit_colors() {
    assert_eq!(parse_hex_color(b"#ff0000"), Some(rgba(255, 0, 0, 255)));
    assert_eq!(parse_hex_color(b"00ff00"), Some(rgba(0, 255, 0, 255)));
    assert_eq!(parse_hex_color(b"#1a2B3c"), Some(rgba(0x1a, 0x2b, 0x3c, 255)));
}

#[test]
fn parses_eight_digit_colors() {
    assert_eq!(parse_hex_color(b"#ff000080"), Some(rgba(255, 0, 0, 128)));
    assert_eq!(parse_hex_color(b"DEADBEEF"), Some(rgba(0xde, 0xad, 0xbe, 0xef)));
}

#[test]
fn parses_short_colors_by_widening() {
    assert_eq!(parse_hex_color(b"#abc"), Some(rgba(170, 187, 204, 255)));
    assert_eq!(parse_hex_color(b"f00"), Some(rgba(255, 0, 0, 255)));
}

#[test]
fn strips_repeated_hash_marks() {
    assert_eq!(parse_hex_color(b"##ff0000"), Some(rgba(255, 0, 0, 255)));
    assert_eq!(parse_hex_color(b"###fff"), Some(rgba(255, 255, 255, 255)));
}

#[test]
fn rejects_malformed_colors() {
    assert_eq!(parse_hex_color(b""), None);
    assert_eq!(parse_hex_color(b"#"), None);
    assert_eq!(parse_hex_color(b"#ff00"), None);
    assert_eq!(parse_hex_color(b"#ggg"), None);
    assert_eq!(parse_hex_color(b"#ff00zz"), None);
    assert_eq!(parse_hex_color(b"#ff0000ff00"), None);
}

#[test]
fn decodes_node_records_by_stride() {
    let buf: Vec<i64> = vec![
        1, 2, 3, 4, 5, 6, 7, // first record
        8, 9, 10, 11, 12, 13, 14, // second record
        15, 16, // trailing partial record, ignored
    ];
    let nodes = decode_node_buffer(&buf);
    assert_eq!(nodes.len(), 2);
    assert_eq!((nodes[0].x, nodes[0].y, nodes[0].size), (1, 2, 7));
    assert_eq!((nodes[1].x, nodes[1].y, nodes[1].size), (8, 9, 14));
    assert_eq!(
        (nodes[1].red, nodes[1].green, nodes[1].blue, nodes[1].alpha),
        (10, 11, 12, 13)
    );
}

#[test]
fn decodes_edge_records_by_stride() {
    let buf: Vec<i64> = vec![
        1, 2, 3, 4, 5, 6, 7, 8, 9, // first record
        10, 11, 12, 13, 14, 15, 16, 17, 18, // second record
    ];
    let edges = decode_edge_buffer(&buf);
    assert_eq!(edges.len(), 2);
    assert_eq!((edges[0].x1, edges[0].y1, edges[0].x2, edges[0].y2), (1, 2, 3, 4));
    assert_eq!((edges[0].red, edges[0].green, edges[0].blue, edges[0].alpha), (5, 6, 7, 8));
    assert_eq!(edges[0].width, 9);
    assert_eq!((edges[1].x1, edges[1].width), (10, 18));
}

#[test]
fn empty_buffers_decode_to_nothing() {
    assert_eq!(decode_node_buffer(&Vec::new()).len(), 0);
    assert_eq!(decode_edge_buffer(&Vec::new()).len(), 0);
    assert_eq!(decode_node_buffer(&vec![1, 2, 3]).len(), 0);
}
