use std::io::Cursor;
use std::io::Read;

use webp_batch::errors::AppError;
use webp_batch::service::{convert_images_to_webp, FieldEvent};

fn crc32(data: &[u8]) -> u32 {
    let mut crc: u32 = 0xFFFF_FFFF;
    for &b in data {
        crc ^= b as u32;
        for _ in 0..8 {
            let mask = (crc & 1).wrapping_neg();
            crc = (crc >> 1) ^ (0xEDB8_8320 & mask);
        }
    }
    !crc
}

fn adler32(data: &[u8]) -> u32 {
    let mut a: u32 = 1;
    let mut b: u32 = 0;
    for &x in data {
        a = (a + x as u32) % 65521;
        b = (b + a) % 65521;
    }
    (b << 16) | a
}

fn chunk(ty: &[u8; 4], data: &[u8]) -> Vec<u8> {
    let mut out = Vec::new();
    out.extend_from_slice(&(data.len() as u32).to_be_bytes());
    out.extend_from_slice(ty);
    out.extend_from_slice(data);
    let mut crcbuf = Vec::new();
    crcbuf.extend_from_slice(ty);
    crcbuf.extend_from_slice(data);
    out.extend_from_slice(&crc32(&crcbuf).to_be_bytes());
    out
}

/// A minimal PNG: one IDAT chunk holding a single stored deflate block.
fn png(width: u32, height: u32, bit_depth: u8, color_type: u8, pixels: &[u8]) -> Vec<u8> {
    let bpp: usize = match (color_type, bit_depth) {
        (2, 8) => 3,
        (2, 16) => 6,
        (0, 8) => 1,
        _ => panic!("unsupported png layout"),
    };
    let stride = width as usize * bpp;
    let mut raw = Vec::new();
    for r in 0..height as usize {
        raw.push(0u8);
        raw.extend_from_slice(&pixels[r * stride..(r + 1) * stride]);
    }
    let mut ihdr = Vec::new();
    ihdr.extend_from_slice(&width.to_be_bytes());
    ihdr.extend_from_slice(&height.to_be_bytes());
    ihdr.push(bit_depth);
    ihdr.push(color_type);
    ihdr.push(0);
    ihdr.push(0);
    ihdr.push(0);
    let mut idat = vec![0x78u8, 0x01, 0x01];
    idat.extend_from_slice(&(raw.len() as u16).to_le_bytes());
    idat.extend_from_slice(&(!(raw.len() as u16)).to_le_bytes());
    idat.extend_from_slice(&raw);
    idat.extend_from_slice(&adler32(&raw).to_be_bytes());
    let mut out = vec![0x89u8, 0x50, 0x4E, 0x47, 0x0D, 0x0A, 0x1A, 0x0A];
    out.extend(chunk(b"IHDR", &ihdr));
    out.extend(chunk(b"IDAT", &idat));
    out.extend(chunk(b"IEND", &[]));
    out
}

fn rgb_2x2() -> Vec<u8> {
    png(2, 2, 8, 2, &[255, 0, 0, 0, 255, 0, 0, 0, 255, 255, 255, 255])
}

fn field(name: &str, bytes: Vec<u8>) -> FieldEvent {
    FieldEvent::Field { filename: Some(name.to_string()), data: Some(bytes) }
}

fn read_archive(bytes: &[u8]) -> Vec<(String, Vec<u8>)> {
    let mut archive = zip::ZipArchive::new(Cursor::new(bytes.to_vec())).expect("valid archive");
    let mut out = Vec::new();
    for i in 0..archive.len() {
        let mut entry = archive.by_index(i).expect("entry");
        let name = entry.name().to_string();
        let mut data = Vec::new();
        entry.read_to_end(&mut data).expect("entry bytes");
        out.push((name, data));
    }
    out
}

#[test]
fn single_png_yields_one_webp_entry() {
    let zip_bytes = convert_images_to_webp(vec![field("cat.png", rgb_2x2())]).expect("archive");
    let entries = read_archive(&zip_bytes);
    assert_eq!(entries.len(), 1);
    assert_eq!(entries[0].0, "cat.webp");
    let img = webp::Decoder::new(&entries[0].1).decode().expect("valid webp");
    assert_eq!(img.width(), 2);
    assert_eq!(img.height(), 2);
}

#[test]
fn round_trip_preserves_dimensions() {
    let one = png(2, 2, 8, 2, &[1, 2, 3, 4, 5, 6, 7, 8, 9, 10, 11, 12]);
    let two = png(3, 1, 8, 2, &[9, 9, 9, 8, 8, 8, 7, 7, 7]);
    let zip_bytes =
        convert_images_to_webp(vec![field("one.png", one), field("two.png", two)]).expect("archive");
    let entries = read_archive(&zip_bytes);
    assert_eq!(entries.len(), 2);
    let first = webp::Decoder::new(&entries[0].1).decode().expect("valid webp");
    assert_eq!((first.width(), first.height()), (2, 2));
    let second = webp::Decoder::new(&entries[1].1).decode().expect("valid webp");
    assert_eq!((second.width(), second.height()), (3, 1));
}

#[test]
fn entries_keep_input_order_and_names() {
    let fields = vec![
        field("zebra.png", rgb_2x2()),
        field("apple.png", rgb_2x2()),
        field("mango.tar.gz", rgb_2x2()),
    ];
    let zip_bytes = convert_images_to_webp(fields).expect("archive");
    let entries = read_archive(&zip_bytes);
    assert_eq!(entries.len(), 3);
    assert_eq!(entries[0].0, "zebra.webp");
    assert_eq!(entries[1].0, "apple.webp");
    assert_eq!(entries[2].0, "mango.tar.webp");
}

#[test]
fn lossless_round_trip_preserves_pixels() {
    let pixels = [255u8, 0, 0, 0, 255, 0, 0, 0, 255, 17, 34, 51];
    let zip_bytes =
        convert_images_to_webp(vec![field("px.png", png(2, 2, 8, 2, &pixels))]).expect("archive");
    let entries = read_archive(&zip_bytes);
    let img = webp::Decoder::new(&entries[0].1).decode().expect("valid webp");
    assert!(!img.is_alpha());
    assert_eq!(&img[..], &pixels[..]);
}

#[test]
fn sixteen_bit_channels_keep_top_byte() {
    let pixels = [
        0x12u8, 0x34, 0x56, 0x78, 0x9A, 0xBC, // pixel (0x1234, 0x5678, 0x9ABC)
        0x11, 0x22, 0x33, 0x44, 0x55, 0x66, // pixel (0x1122, 0x3344, 0x5566)
    ];
    let zip_bytes =
        convert_images_to_webp(vec![field("deep.png", png(2, 1, 16, 2, &pixels))]).expect("archive");
    let entries = read_archive(&zip_bytes);
    let img = webp::Decoder::new(&entries[0].1).decode().expect("valid webp");
    assert_eq!(&img[..], &[0x12, 0x56, 0x9A, 0x11, 0x33, 0x55]);
}

#[test]
fn corrupt_bytes_fail_whole_batch() {
    let fields = vec![
        field("a.jpg", rgb_2x2()),
        field("b.bmp", b"definitely not an image".to_vec()),
    ];
    assert_eq!(convert_images_to_webp(fields), Err(AppError::InvalidImageFormat));
}

#[test]
fn corrupt_single_field_is_invalid_image_format() {
    let fields = vec![field("junk.png", vec![1, 2, 3, 4])];
    assert_eq!(convert_images_to_webp(fields), Err(AppError::InvalidImageFormat));
}

#[test]
fn grayscale_layout_is_conversion_failed() {
    let gray = png(2, 2, 8, 0, &[0, 85, 170, 255]);
    assert_eq!(
        convert_images_to_webp(vec![field("gray.png", gray)]),
        Err(AppError::ConversionFailed)
    );
}

#[test]
fn empty_batch_is_no_images_processed() {
    assert_eq!(convert_images_to_webp(Vec::new()), Err(AppError::NoImagesProcessed));
}

#[test]
fn missing_file_name_fails_despite_valid_fields() {
    let fields = vec![
        field("good.png", rgb_2x2()),
        FieldEvent::Field { filename: None, data: Some(rgb_2x2()) },
    ];
    assert_eq!(convert_images_to_webp(fields), Err(AppError::MissingFileName));
}

#[test]
fn converting_twice_gives_identical_archives_and_pixels() {
    let fields = || vec![field("twin.png", rgb_2x2()), field("other.png", rgb_2x2())];
    let first = convert_images_to_webp(fields()).expect("archive");
    let second = convert_images_to_webp(fields()).expect("archive");
    assert_eq!(first, second);
    let left = read_archive(&first);
    let right = read_archive(&second);
    assert_eq!(left.len(), right.len());
    for (l, r) in left.iter().zip(right.iter()) {
        let li = webp::Decoder::new(&l.1).decode().expect("valid webp");
        let ri = webp::Decoder::new(&r.1).decode().expect("valid webp");
        assert_eq!(&li[..], &ri[..]);
        assert_eq!((li.width(), li.height()), (ri.width(), ri.height()));
    }
}

#[test]
fn archive_is_a_zip_container() {
    let zip_bytes = convert_images_to_webp(vec![field("z.png", rgb_2x2())]).expect("archive");
    assert_eq!(&zip_bytes[0..2], b"PK");
    let entries = read_archive(&zip_bytes);
    assert_ne!(entries[0].1, rgb_2x2());
}

#[test]
fn duplicate_output_names_reject_the_batch() {
    let fields = vec![field("twin.png", rgb_2x2()), field("twin.jpg", rgb_2x2())];
    assert_eq!(convert_images_to_webp(fields), Err(AppError::ZipStartError));
}

#[test]
fn empty_entry_list_still_finishes_an_archive() {
    let zip_bytes = webp_batch::archive::create_zip(Vec::new()).expect("archive");
    let archive =
        zip::ZipArchive::new(Cursor::new(zip_bytes)).expect("valid archive");
    assert_eq!(archive.len(), 0);
}

/// A minimal indexed-color PNG: bit depth 8, a PLTE chunk of RGB triples,
/// one index byte per pixel.
fn palette_png(width: u32, height: u32, palette: &[u8], indices: &[u8]) -> Vec<u8> {
    let mut raw = Vec::new();
    for r in 0..height as usize {
        raw.push(0u8);
        raw.extend_from_slice(&indices[r * width as usize..(r + 1) * width as usize]);
    }
    let mut ihdr = Vec::new();
    ihdr.extend_from_slice(&width.to_be_bytes());
    ihdr.extend_from_slice(&height.to_be_bytes());
    ihdr.push(8);
    ihdr.push(3);
    ihdr.push(0);
    ihdr.push(0);
    ihdr.push(0);
    let mut idat = vec![0x78u8, 0x01, 0x01];
    idat.extend_from_slice(&(raw.len() as u16).to_le_bytes());
    idat.extend_from_slice(&(!(raw.len() as u16)).to_le_bytes());
    idat.extend_from_slice(&raw);
    idat.extend_from_slice(&adler32(&raw).to_be_bytes());
    let mut out = vec![0x89u8, 0x50, 0x4E, 0x47, 0x0D, 0x0A, 0x1A, 0x0A];
    out.extend(chunk(b"IHDR", &ihdr));
    out.extend(chunk(b"PLTE", palette));
    out.extend(chunk(b"IDAT", &idat));
    out.extend(chunk(b"IEND", &[]));
    out
}

#[test]
fn indexed_layout_is_conversion_failed() {
    let indexed = palette_png(2, 2, &[255, 0, 0, 0, 0, 255], &[0, 1, 1, 0]);
    assert_eq!(
        convert_images_to_webp(vec![field("indexed.png", indexed)]),
        Err(AppError::ConversionFailed)
    );
}

#[test]
fn out_of_range_palette_index_is_rejected() {
    // One palette entry but an index byte of 255: the layout is rejected from
    // the header, so the malformed pixel data is never expanded.
    let malformed = palette_png(2, 2, &[10, 20, 30], &[255, 255, 255, 255]);
    assert_eq!(
        convert_images_to_webp(vec![field("bad.png", malformed)]),
        Err(AppError::ConversionFailed)
    );
}
