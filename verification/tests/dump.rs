use hexdump::dump_to;

fn dump(data: &[u8]) -> Vec<String> {
    let mut lines: Vec<String> = Vec::new();
    dump_to(data, &mut lines);
    lines
}

fn ascii_part(line: &str) -> &str {
    let open = line.find('|').unwrap();
    assert!(line.ends_with('|'));
    &line[open + 1..line.len() - 1]
}

#[test]
fn test_dump() {
    let lines = dump(b"This is a test message.");
    assert_eq!(
        lines,
        vec![
            "000000 54 68 69 73 20 69 73 20  61 20 74 65 73 74 20 6d |This is a test m|"
                .to_string(),
            "000010 65 73 73 61 67 65 2e                             |essage.|".to_string(),
        ]
    );
}

#[test]
fn single_byte_gives_one_padded_line() {
    let lines = dump(&[0x41]);
    assert_eq!(lines.len(), 1);
    let line = &lines[0];
    assert_eq!(&line[..6], "000000");
    assert_eq!(&line[6..9], " 41");
    assert_eq!(&line[9..55], " ".repeat(46));
    assert_eq!(&line[55..], " |A|");
    assert_eq!(
        line,
        "000000 41                                               |A|"
    );
}

#[test]
fn sixteen_zero_bytes_give_one_full_line() {
    let lines = dump(&[0u8; 16]);
    assert_eq!(
        lines,
        vec![
            "000000 00 00 00 00 00 00 00 00  00 00 00 00 00 00 00 00 |................|"
                .to_string()
        ]
    );
}

#[test]
fn empty_input_gives_no_line() {
    assert_eq!(dump(&[]), Vec::<String>::new());
}

#[test]
fn line_count_is_rounded_up() {
    for n in 0..=100usize {
        let data = vec![0x61u8; n];
        assert_eq!(dump(&data).len(), (n + 15) / 16, "length {}", n);
    }
    assert_eq!(dump(&[1u8; 15]).len(), 1);
    assert_eq!(dump(&[1u8; 16]).len(), 1);
    assert_eq!(dump(&[1u8; 17]).len(), 2);
    assert_eq!(dump(&[1u8; 32]).len(), 2);
    assert_eq!(dump(&[1u8; 33]).len(), 3);
}

#[test]
fn ascii_column_is_full_but_on_the_last_line() {
    for n in 1..=70usize {
        let data = vec![0x7au8; n];
        let lines = dump(&data);
        let last = lines.len() - 1;
        for (k, line) in lines.iter().enumerate() {
            let expected = if k < last || n % 16 == 0 { 16 } else { n % 16 };
            assert_eq!(ascii_part(line).len(), expected, "length {} line {}", n, k);
            assert_eq!(ascii_part(line), "z".repeat(expected));
        }
    }
}

#[test]
fn ascii_bar_stands_in_one_column() {
    let data: Vec<u8> = (0..37u8).collect();
    for line in dump(&data) {
        assert_eq!(line.find('|'), Some(56));
        assert_eq!(&line[55..57], " |");
    }
}

#[test]
fn offsets_count_sixteen_per_line() {
    let data = vec![0u8; 16 * 300 + 5];
    let lines = dump(&data);
    assert_eq!(lines.len(), 301);
    for (k, line) in lines.iter().enumerate() {
        assert_eq!(&line[..6], format!("{:06x}", 16 * k));
        assert_eq!(&line[6..7], " ");
    }
    assert_eq!(&lines[0][..6], "000000");
    assert_eq!(&lines[1][..6], "000010");
    assert_eq!(&lines[16][..6], "000100");
    assert_eq!(&lines[255][..6], "000ff0");
    assert_eq!(&lines[256][..6], "001000");
    assert_eq!(&lines[300][..6], "0012c0");
}

#[test]
fn every_byte_is_shown_in_lowercase_hex() {
    let data: Vec<u8> = (0..=255u8).collect();
    let lines = dump(&data);
    assert_eq!(lines.len(), 16);
    for (k, line) in lines.iter().enumerate() {
        let mut hex = String::new();
        for i in 0..16 {
            if i == 8 {
                hex.push(' ');
            }
            hex.push_str(&format!(" {:02x}", 16 * k + i));
        }
        assert_eq!(&line[6..55], hex);
    }
    assert_eq!(
        lines[10],
        "0000a0 a0 a1 a2 a3 a4 a5 a6 a7  a8 a9 aa ab ac ad ae af |................|"
    );
    assert_eq!(
        lines[4],
        "000040 40 41 42 43 44 45 46 47  48 49 4a 4b 4c 4d 4e 4f |@ABCDEFGHIJKLMNO|"
    );
    assert_eq!(
        lines[7],
        "000070 70 71 72 73 74 75 76 77  78 79 7a 7b 7c 7d 7e 7f |pqrstuvwxyz{|}~.|"
    );
    assert_eq!(
        lines[1],
        "000010 10 11 12 13 14 15 16 17  18 19 1a 1b 1c 1d 1e 1f |................|"
    );
    assert_eq!(
        lines[2],
        "000020 20 21 22 23 24 25 26 27  28 29 2a 2b 2c 2d 2e 2f | !\"#$%&'()*+,-./|"
    );
}

#[test]
fn ninth_byte_follows_a_wider_gap() {
    for n in 1..=16usize {
        let data = vec![0xabu8; n];
        let line = dump(&data).remove(0);
        for i in 0..n {
            let at = 6 + 3 * i + 1 + if i >= 8 { 1 } else { 0 };
            assert_eq!(&line[at..at + 2], "ab");
            assert_eq!(&line[at - 1..at], " ");
            if i == 8 {
                assert_eq!(&line[at - 2..at], "  ");
            } else if i > 0 {
                assert_eq!(&line[at - 3..at - 1], "ab");
            }
        }
    }
    let line = dump(&[1, 2, 3, 4, 5, 6, 7, 8, 9, 10]).remove(0);
    assert_eq!(&line[6..37], " 01 02 03 04 05 06 07 08  09 0a");
}

#[test]
fn short_lines_are_padded_to_the_full_width() {
    for n in 1..=16usize {
        let data = vec![0x30u8; n];
        let line = dump(&data).remove(0);
        assert_eq!(line.len(), 6 + 49 + 2 + n + 1);
        let used = 3 * n + if n > 8 { 1 } else { 0 };
        assert_eq!(&line[6 + used..55], " ".repeat(49 - used));
        assert_eq!(&line[55..], format!(" |{}|", "0".repeat(n)));
    }
}

#[test]
fn lines_agree_with_the_formatting_of_std() {
    let mut data: Vec<u8> = Vec::new();
    let mut x: u32 = 12345;
    for _ in 0..1000 {
        x = x.wrapping_mul(1103515245).wrapping_add(12345);
        data.push((x >> 16) as u8);
    }
    let lines = dump(&data);
    assert_eq!(lines.len(), 63);
    for (k, piece) in data.chunks(16).enumerate() {
        let mut hex = String::new();
        let mut ascii = String::new();
        for (i, b) in piece.iter().enumerate() {
            if i == 8 {
                hex.push(' ');
            }
            hex.push_str(&format!(" {:02x}", b));
            ascii.push(if *b >= 0x20 && *b <= 0x7e { *b as char } else { '.' });
        }
        assert_eq!(lines[k], format!("{:06x}{:<49} |{}|", 16 * k, hex, ascii));
    }
}

#[test]
fn dump_is_appended_to_what_the_sink_holds() {
    let mut lines = vec!["first".to_string(), "second".to_string()];
    dump_to(b"0123456789abcdefXYZ", &mut lines);
    assert_eq!(
        lines,
        vec![
            "first".to_string(),
            "second".to_string(),
            "000000 30 31 32 33 34 35 36 37  38 39 61 62 63 64 65 66 |0123456789abcdef|"
                .to_string(),
            "000010 58 59 5a                                         |XYZ|".to_string(),
        ]
    );
    dump_to(&[], &mut lines);
    assert_eq!(lines.len(), 4);
    dump_to(&[0xff], &mut lines);
    assert_eq!(lines.len(), 5);
    assert_eq!(
        lines[4],
        "000000 ff                                               |.|"
    );
}

#[test]
fn offset_field_grows_beyond_six_digits() {
    let data = vec![0u8; 0x100_0000 + 1];
    let mut dumper = hexdump::Dumper::new();
    let mut count = 0usize;
    let mut last_full = String::new();
    for b in &data {
        if let Some(line) = dumper.add_byte(*b) {
            count += 1;
            last_full = line;
        }
    }
    assert_eq!(count, 0x10_0000);
    assert_eq!(&last_full[..7], "fffff0 ");
    assert_eq!(dumper.offset(), 0x100_0000);
    let line = dumper.ship().unwrap();
    assert_eq!(
        line,
        "1000000 00                                               |.|"
    );
}
