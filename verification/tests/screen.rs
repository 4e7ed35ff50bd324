use flip::screen::{
    clear_packets, data_packets, frame_packets, init_command, pack_pixels, range_command,
    CLEAR_TRANSFERS,
};

#[test]
fn init_command_bytes() {
    assert_eq!(
        init_command(),
        vec![
            0x00, 0xFD, 0x12, 0xAE, 0xA1, 0, 0xA2, 0, 0xA0, 0b01010001, 0xA8, 127, 0xAB, 0x00,
            0xB1, 0x51, 0xB3, 0x01, 0xBC, 0x08, 0xBE, 0x07, 0xB6, 0x01, 0xD5, 0x62, 0xB9, 0x81,
            0x7f, 0xA4, 0x2E, 0xAF,
        ]
    );
}

#[test]
fn range_command_bytes() {
    assert_eq!(range_command(0, 0, 128, 128), vec![0x00, 0x15, 0, 63, 0x75, 0, 127]);
    assert_eq!(range_command(0, 0, 96, 96), vec![0x00, 0x15, 0, 47, 0x75, 0, 95]);
    assert_eq!(range_command(5, 3, 2, 1), vec![0x00, 0x15, 2, 0, 0x75, 3, 0]);
}

#[test]
fn data_packets_split_into_sixteen_bytes() {
    let data: Vec<u8> = (0..32).collect();
    let packets = data_packets(&data);
    assert_eq!(packets.len(), 2);
    assert_eq!(packets[0][0], 0x40);
    assert_eq!(packets[0][1..].to_vec(), (0..16).collect::<Vec<u8>>());
    assert_eq!(packets[1][1..].to_vec(), (16..32).collect::<Vec<u8>>());
    let joined: Vec<u8> = packets.iter().flat_map(|p| p[1..].to_vec()).collect();
    assert_eq!(joined, data);
}

#[test]
fn data_packets_of_nothing() {
    assert!(data_packets(&[]).is_empty());
}

#[test]
fn pack_pixels_puts_left_pixel_high() {
    assert_eq!(pack_pixels(0xA, 0x5), 0xA5);
    assert_eq!(pack_pixels(0, 15), 0x0F);
    // bits shifted out of the byte are lost
    assert_eq!(pack_pixels(0x1F, 0x3), 0xF3);
    let b = pack_pixels(9, 6);
    assert_eq!((b >> 4, b & 15), (9, 6));
}

#[test]
fn clear_packets_are_black() {
    let packets = clear_packets();
    assert_eq!(CLEAR_TRANSFERS, 384);
    assert_eq!(packets.len(), 384);
    let mut black = vec![0x40u8];
    black.extend(vec![0u8; 16]);
    assert!(packets.iter().all(|p| *p == black));
}

#[test]
fn frame_packets_one_band_per_row() {
    // 32 columns, 2 rows: cell (x, y) at x * 2 + y
    let mut gray = vec![0u8; 64];
    for x in 0..32 {
        gray[x * 2] = (x % 16) as u8;
        gray[x * 2 + 1] = 15 - (x % 16) as u8;
    }
    let packets = frame_packets(&gray, 32, 2);
    assert_eq!(packets.len(), 2);
    let mut row0 = vec![0x40u8];
    let mut row1 = vec![0x40u8];
    for m in 0..16usize {
        let (l, r) = ((2 * m) % 16, (2 * m + 1) % 16);
        row0.push(((l << 4) | r) as u8);
        row1.push((((15 - l) << 4) | (15 - r)) as u8);
    }
    assert_eq!(packets[0], row0);
    assert_eq!(packets[1], row1);
}

#[test]
fn frame_packets_narrow_grid_sends_nothing() {
    let gray = vec![1u8; 8];
    assert!(frame_packets(&gray, 4, 2).is_empty());
    assert!(frame_packets(&vec![3u8; 3], 1, 3).is_empty());
}

#[test]
fn frame_packets_two_bands() {
    let gray: Vec<u8> = (0..64).map(|x| (x / 32) as u8).collect();
    let packets = frame_packets(&gray, 64, 1);
    assert_eq!(packets.len(), 2);
    assert_eq!(packets[0][1..].to_vec(), vec![0u8; 16]);
    assert_eq!(packets[1][1..].to_vec(), vec![0x11u8; 16]);
}
