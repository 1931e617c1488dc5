use memview::bytes_to_request;
use memview::render::render;

#[test]
fn empty_window_renders_nothing() {
    assert_eq!(render(0x1000, &vec![]), "");
}

#[test]
fn single_partial_row() {
    assert_eq!(render(0, &vec![0x00, 0xff]), "0000000000000000: 00 ff");
}

#[test]
fn exact_full_row() {
    let bytes: Vec<u8> = (0u8..16).collect();
    assert_eq!(
        render(0x1000, &bytes),
        "0000000000001000: 00 01 02 03 04 05 06 07 08 09 0a 0b 0c 0d 0e 0f"
    );
}

#[test]
fn rendering_is_deterministic() {
    let bytes: Vec<u8> = (0u8..40).collect();
    assert_eq!(render(0x1000, &bytes), render(0x1000, &bytes));
}

#[test]
fn five_rows_request_sixty_four_bytes() {
    assert_eq!(bytes_to_request(5), 64);
}

#[test]
fn no_rows_request_nothing() {
    assert_eq!(bytes_to_request(0), 0);
    assert_eq!(bytes_to_request(1), 0);
}

#[test]
fn partial_read_renders_partial_final_row() {
    // a 64-byte request that obtained only 40 bytes: two full rows and
    // one eight-byte partial row, each prefixed by base + 16 * row
    let bytes: Vec<u8> = (0u8..40).collect();
    let text = render(0x1000, &bytes);
    let lines: Vec<&str> = text.split('\n').collect();
    assert_eq!(lines.len(), 3);
    assert!(lines[0].starts_with("0000000000001000:"));
    assert!(lines[1].starts_with("0000000000001010:"));
    assert!(lines[2].starts_with("0000000000001020:"));
    assert_eq!(lines[0].len(), 17 + 3 * 16);
    assert_eq!(lines[1].len(), 17 + 3 * 16);
    assert_eq!(lines[2].len(), 17 + 3 * 8);
}

fn read_back(text: &str) -> Vec<u8> {
    let mut out = Vec::new();
    if text.is_empty() {
        return out;
    }
    for line in text.split('\n') {
        let cells = &line[17..];
        for cell in cells.split(' ').filter(|c| !c.is_empty()) {
            out.push(u8::from_str_radix(cell, 16).unwrap());
        }
    }
    out
}

#[test]
fn round_trip_recovers_bytes() {
    for len in [0usize, 1, 8, 15, 16, 17, 32, 40, 64, 100] {
        let bytes: Vec<u8> = (0..len).map(|i| (i * 7 % 256) as u8).collect();
        let text = render(0xdead0000, &bytes);
        assert_eq!(read_back(&text), bytes, "window of {} bytes", len);
    }
}
