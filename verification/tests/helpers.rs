use lunar_png::{
    get_chunk_type, parse_chunk, read_n, read_n_const, to_color_type, to_u16, validate_bit_depth,
    compute_crc, ChunkType, ColorType, Error, Filtered, Pallete, Stream, TrnsPallete,
};

#[test]
fn test_u8_to_u16() {
    let a = 0x00;
    let b = 0x00;
    let expected = 0x0000;
    assert_eq!(to_u16(a, b), expected);

    let a = 0x01;
    let b = 0x10;
    let expected = 0x1001;
    assert_eq!(to_u16(a, b), expected);
}

#[test]
fn to_u16_is_little_endian() {
    assert_eq!(to_u16(0x34, 0x12), 0x1234);
    assert_eq!(to_u16(0xff, 0xff), 0xffff);
}

#[test]
fn color_type_codes() {
    assert_eq!(to_color_type(0), ColorType::Greyscale);
    assert_eq!(to_color_type(2), ColorType::Truecolor);
    assert_eq!(to_color_type(3), ColorType::IndexedColor);
    assert_eq!(to_color_type(4), ColorType::GreyscaleAlpha);
    assert_eq!(to_color_type(6), ColorType::TruecolorAlpha);
}

#[test]
fn bit_depths_per_color_type() {
    for d in [1u8, 2, 4, 8, 16] {
        assert!(validate_bit_depth(ColorType::Greyscale, d));
    }
    for d in [1u8, 2, 4, 8] {
        assert!(validate_bit_depth(ColorType::IndexedColor, d));
    }
    assert!(!validate_bit_depth(ColorType::IndexedColor, 16));
    for t in [ColorType::Truecolor, ColorType::GreyscaleAlpha, ColorType::TruecolorAlpha] {
        assert!(validate_bit_depth(t, 8));
        assert!(validate_bit_depth(t, 16));
        assert!(!validate_bit_depth(t, 1));
        assert!(!validate_bit_depth(t, 4));
    }
    assert!(!validate_bit_depth(ColorType::Greyscale, 3));
    assert!(!validate_bit_depth(ColorType::Greyscale, 0));
}

#[test]
fn trns_palette_lookup() {
    let t = TrnsPallete::new(vec![10, 20, 30]);
    assert_eq!(t.get(0), 10);
    assert_eq!(t.get(2), 30);
    assert_eq!(t.get(3), 255);
    assert_eq!(t.get(200), 255);
    let empty = TrnsPallete::new(vec![]);
    assert_eq!(empty.get(0), 255);
}

#[test]
fn trns_palette_length_taken_as_byte() {
    let full = TrnsPallete::new(vec![7; 256]);
    assert_eq!(full.get(0), 255);
    let long = TrnsPallete::new(vec![9; 258]);
    assert_eq!(long.get(1), 9);
    assert_eq!(long.get(2), 255);
}

#[test]
fn palette_entries() {
    let p = Pallete::new(vec![1, 2, 3, 4, 5, 6]);
    assert_eq!(p.get(0), &[1, 2, 3]);
    assert_eq!(p.get(1), &[4, 5, 6]);
    let _ = Pallete::empty();
}

#[test]
fn known_chunk_types() {
    assert_eq!(get_chunk_type(*b"IHDR"), Ok(ChunkType::IHDR));
    assert_eq!(get_chunk_type(*b"PLTE"), Ok(ChunkType::PLTE));
    assert_eq!(get_chunk_type(*b"IDAT"), Ok(ChunkType::IDAT));
    assert_eq!(get_chunk_type(*b"IEND"), Ok(ChunkType::IEND));
    assert_eq!(get_chunk_type(*b"tRNS"), Ok(ChunkType::tRNS));
    assert_eq!(get_chunk_type(*b"mDCv"), Ok(ChunkType::mDCv));
    assert_eq!(get_chunk_type(*b"fdAT"), Ok(ChunkType::fdAT));
    assert_eq!(get_chunk_type(*b"eXIf"), Ok(ChunkType::eXIf));
}

#[test]
fn unknown_chunk_type() {
    assert_eq!(get_chunk_type(*b"abcd"), Ok(ChunkType::Unknown));
    assert_eq!(get_chunk_type(*b"ihdr"), Ok(ChunkType::Unknown));
    assert_eq!(get_chunk_type([0xc3, 0xa9, b'a', b'b']), Ok(ChunkType::Unknown));
}

#[test]
fn invalid_utf8_chunk_type() {
    assert_eq!(get_chunk_type([0xff, b'H', b'D', b'R']), Err(Error::InvalidChunkType));
    assert_eq!(get_chunk_type([b'I', b'H', b'D', 0x80]), Err(Error::InvalidChunkType));
}

#[test]
fn crc_values() {
    assert_eq!(compute_crc(b""), 0);
    assert_eq!(compute_crc(b"123456789"), 0xCBF4_3926);
    assert_eq!(compute_crc(b"IEND"), 0xAE42_6082);
}

#[test]
fn crc_residue_examples() {
    for data in [&b""[..], &b"IEND"[..], &b"123456789"[..], &[0u8, 255, 7][..]] {
        let mut d2 = data.to_vec();
        d2.extend_from_slice(&compute_crc(data).to_le_bytes());
        assert_eq!(compute_crc(&d2), 0x2144_DF1C);
    }
}

#[test]
fn read_items() {
    let mut s = Stream::new(vec![1u8, 2, 3, 4, 5, 6]);
    let a: [u8; 2] = read_n_const(&mut s);
    assert_eq!(a, [1, 2]);
    let v = read_n(&mut s, 3);
    assert_eq!(v, vec![3, 4, 5]);
    assert_eq!(s.next(), Some(6));
    assert_eq!(s.next(), None);
}

fn iend_chunk() -> Vec<u8> {
    vec![0, 0, 0, 0, b'I', b'E', b'N', b'D', 0xAE, 0x42, 0x60, 0x82]
}

#[test]
fn parse_iend_chunk() {
    let mut bytes = iend_chunk();
    bytes.push(42);
    let mut s = Stream::new(bytes);
    let chunk = parse_chunk(&mut s).unwrap();
    assert_eq!(chunk.chunk_type, ChunkType::IEND);
    assert!(chunk.data.is_empty());
    assert_eq!(s.next(), Some(42));
}

#[test]
fn parse_chunk_with_data() {
    let body = b"tEXtab".to_vec();
    let crc = compute_crc(&body);
    let mut bytes = vec![0, 0, 0, 2];
    bytes.extend_from_slice(&body);
    bytes.extend_from_slice(&crc.to_be_bytes());
    let mut s = Stream::new(bytes);
    let chunk = parse_chunk(&mut s).unwrap();
    assert_eq!(chunk.chunk_type, ChunkType::tEXt);
    assert_eq!(chunk.data, b"ab".to_vec());
    assert_eq!(s.next(), None);
}

#[test]
fn parse_chunk_bad_crc() {
    let mut bytes = iend_chunk();
    bytes[11] ^= 1;
    let mut s = Stream::new(bytes);
    assert!(matches!(parse_chunk(&mut s), Err(Error::InvalidCrc)));
    assert_eq!(s.next(), None);
}

fn filtered(data: Vec<u8>, color_type: ColorType, scanline_len: u32, bit_depth: u8, ignore_0: bool) -> Filtered {
    Filtered { data, color_type, scanline_len, bit_depth, ignore_0 }
}

#[test]
fn filter_neighbours() {
    // Two scanlines of three greyscale 8-bit pixels.
    let f = filtered(vec![1, 2, 3, 4, 5, 6], ColorType::Greyscale, 3, 8, false);
    assert_eq!(f.get_a(0), 0);
    assert_eq!(f.get_a(1), 1);
    assert_eq!(f.get_a(4), 4);
    assert_eq!(f.get_b(1), 0);
    assert_eq!(f.get_b(4), 2);
    assert_eq!(f.get_c(4), 1);
    assert_eq!(f.get_c(3), 0);
}

#[test]
fn filter_neighbours_ignore_0() {
    let f = filtered(vec![1, 2, 3, 4, 5, 6], ColorType::Greyscale, 3, 8, true);
    assert_eq!(f.get_a(1), 0);
    assert_eq!(f.get_a(2), 2);
}

#[test]
fn filter_pixel_distance() {
    let f = filtered((0..16).collect(), ColorType::TruecolorAlpha, 16, 16, false);
    assert_eq!(f.get_a(7), 0);
    assert_eq!(f.get_a(8), 0);
    assert_eq!(f.get_a(9), 1);
    let g = filtered((0..12).collect(), ColorType::Truecolor, 12, 8, false);
    assert_eq!(g.get_a(5), 2);
}

#[test]
fn filter_set() {
    let mut f = filtered(vec![1, 2, 3], ColorType::Greyscale, 3, 8, false);
    f.set(1, 9);
    assert_eq!(f.data, vec![1, 9, 3]);
}

#[test]
fn paeth_predictor() {
    // a = 4, b = 2, c = 1: p = 5, pa = 1, pb = 3, pc = 4 -> a
    let f = filtered(vec![1, 2, 3, 4, 5, 6], ColorType::Greyscale, 3, 8, false);
    assert_eq!(f.paeth(4), 4);
    // a = 10, b = 200, c = 180: p = 30, pa = 20, pb = 170, pc = 150 -> a
    let g = filtered(vec![180, 200, 10, 0], ColorType::Greyscale, 2, 8, false);
    assert_eq!(g.paeth(3), 10);
    // a = 100, b = 10, c = 100: p = 10, pa = 90, pb = 0 -> b
    let h = filtered(vec![100, 10, 100, 0], ColorType::Greyscale, 2, 8, false);
    assert_eq!(h.paeth(3), 10);
    // a = 50, b = 60, c = 55: p = 55, pa = 5, pb = 5, pc = 0 -> c
    let k = filtered(vec![55, 60, 50, 0], ColorType::Greyscale, 2, 8, false);
    assert_eq!(k.paeth(3), 55);
}
