use lolwut::translate_pixels_group;

// The block of Braille patterns in the order of its code points, 32 to a line.
// The first of them is the blank pattern.
const BRAILLE: [&str; 8] = [
    "\u{2800}⠁⠂⠃⠄⠅⠆⠇⠈⠉⠊⠋⠌⠍⠎⠏⠐⠑⠒⠓⠔⠕⠖⠗⠘⠙⠚⠛⠜⠝⠞⠟",
    "⠠⠡⠢⠣⠤⠥⠦⠧⠨⠩⠪⠫⠬⠭⠮⠯⠰⠱⠲⠳⠴⠵⠶⠷⠸⠹⠺⠻⠼⠽⠾⠿",
    "⡀⡁⡂⡃⡄⡅⡆⡇⡈⡉⡊⡋⡌⡍⡎⡏⡐⡑⡒⡓⡔⡕⡖⡗⡘⡙⡚⡛⡜⡝⡞⡟",
    "⡠⡡⡢⡣⡤⡥⡦⡧⡨⡩⡪⡫⡬⡭⡮⡯⡰⡱⡲⡳⡴⡵⡶⡷⡸⡹⡺⡻⡼⡽⡾⡿",
    "⢀⢁⢂⢃⢄⢅⢆⢇⢈⢉⢊⢋⢌⢍⢎⢏⢐⢑⢒⢓⢔⢕⢖⢗⢘⢙⢚⢛⢜⢝⢞⢟",
    "⢠⢡⢢⢣⢤⢥⢦⢧⢨⢩⢪⢫⢬⢭⢮⢯⢰⢱⢲⢳⢴⢵⢶⢷⢸⢹⢺⢻⢼⢽⢾⢿",
    "⣀⣁⣂⣃⣄⣅⣆⣇⣈⣉⣊⣋⣌⣍⣎⣏⣐⣑⣒⣓⣔⣕⣖⣗⣘⣙⣚⣛⣜⣝⣞⣟",
    "⣠⣡⣢⣣⣤⣥⣦⣧⣨⣩⣪⣫⣬⣭⣮⣯⣰⣱⣲⣳⣴⣵⣶⣷⣸⣹⣺⣻⣼⣽⣾⣿",
];

#[test]
fn check_translate_pixels_group() {
    let braille: Vec<char> = BRAILLE.iter().flat_map(|line| line.chars()).collect();
    assert_eq!(braille.len(), 0x100);

    // Every value that a byte can have.
    for hex in 0..0x100i32 {
        let hex = hex as u8;
        let c = braille[hex as usize];
        let actual = translate_pixels_group(hex);
        println!("0x{}, '{}' =? '{}'", hex, c, actual);
        assert_eq!(c, actual, "'{}'!='{}' (0x{:x} != 0x{:x})", c, actual, c as i32, actual as i32);
    }
}

#[test]
fn translate_blank_and_full() {
    assert_eq!(translate_pixels_group(0x00), '\u{2800}');
    assert_eq!(translate_pixels_group(0xff), '\u{28ff}');
}

#[test]
fn translate_adds_the_byte_to_the_base() {
    for byte in 0..=255u8 {
        assert_eq!(translate_pixels_group(byte) as u32, 0x2800 + byte as u32);
    }
}

#[test]
fn translate_gives_each_byte_its_own_pattern() {
    let mut seen: Vec<char> = Vec::new();
    for byte in 0..=255u8 {
        let c = translate_pixels_group(byte);
        assert!(!seen.contains(&c));
        seen.push(c);
    }
    assert_eq!(seen.len(), 256);
}

#[test]
fn translate_takes_three_bytes_in_utf8() {
    for byte in 0..=255u8 {
        assert_eq!(translate_pixels_group(byte).len_utf8(), 3);
    }
}
