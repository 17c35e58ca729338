use superview::pgm::write_maps;
use superview::remap::{generate_remap, stretch_row};

fn images(row: &[u16], height: u32) -> (Vec<u8>, Vec<u8>) {
    let mut x = Vec::new();
    let mut y = Vec::new();
    let mut part = 0;
    while let Some(p) = write_maps(row, height, part) {
        x.extend(p.x);
        y.extend(p.y);
        part += 1;
    }
    assert_eq!(part, height as u64 + 1);
    (x, y)
}

#[test]
fn a_small_table_byte_for_byte() {
    let (x, y) = images(&[0, 258, 65535], 2);
    let mut expected = b"P5\n3 2\n65535\n".to_vec();
    expected.extend([0, 0, 1, 2, 255, 255, 0, 0, 1, 2, 255, 255]);
    assert_eq!(x, expected);
    let mut expected = b"P5\n3 2\n65535\n".to_vec();
    expected.extend([0, 0, 0, 0, 0, 0, 0, 1, 0, 1, 0, 1]);
    assert_eq!(y, expected);
}

#[test]
fn every_pixel_is_read_back() {
    let table = generate_remap(64, 48, false, 2);
    let (x, y) = images(&table.row, table.map_height);
    let header = format!("P5\n{} {}\n65535\n", table.row.len(), table.map_height);
    let width = table.row.len();
    assert_eq!(x.len(), header.len() + 2 * width * table.map_height as usize);
    assert_eq!(y.len(), x.len());
    assert!(x.starts_with(header.as_bytes()) && y.starts_with(header.as_bytes()));
    for row in 0..table.map_height as usize {
        for column in 0..width {
            let at = header.len() + 2 * (row * width + column);
            assert_eq!(u16::from_be_bytes([x[at], x[at + 1]]), table.row[column]);
            assert_eq!(u16::from_be_bytes([y[at], y[at + 1]]) as usize, row);
        }
    }
}

#[test]
fn rows_beyond_sixteen_bits_begin_again() {
    let row = stretch_row(1, 1);
    let p = write_maps(&row, 70_000, 65_537).unwrap();
    assert_eq!(p.y, vec![0, 0]);
    let p = write_maps(&row, 70_000, 65_536).unwrap();
    assert_eq!(p.y, vec![255, 255]);
    assert!(write_maps(&row, 70_000, 70_000).is_some());
    assert!(write_maps(&row, 70_000, 70_001).is_none());
    assert_eq!(write_maps(&row, 0, 0).unwrap().x, b"P5\n1 0\n65535\n");
}
