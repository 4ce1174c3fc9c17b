use batch_convert::transcode::{encoded, is_packed, pack_rows, transcode, DecodedImage, TranscodeError};

fn image(width: u32, height: u32, data: Vec<u8>) -> DecodedImage {
    DecodedImage { width, height, data }
}

fn decode(bytes: &[u8]) -> (u32, u32, png::ColorType, png::BitDepth, Vec<u8>) {
    let decoder = png::Decoder::new(std::io::Cursor::new(bytes.to_vec()));
    let mut reader = decoder.read_info().unwrap();
    let mut buf = vec![0; reader.output_buffer_size()];
    let info = reader.next_frame(&mut buf).unwrap();
    buf.truncate(info.buffer_size());
    (info.width, info.height, info.color_type, info.bit_depth, buf)
}

#[test]
fn rows_without_padding_are_packed_as_they_are() {
    let data: Vec<u8> = (0..12).collect();
    let img = image(2, 2, data.clone());
    assert!(is_packed(&img));
    assert_eq!(pack_rows(&img), Some(data));
}

#[test]
fn padding_is_taken_out_of_every_row() {
    // two pixels a row, three rows, two bytes of padding after each row
    let data: Vec<u8> = vec![
        1, 2, 3, 4, 5, 6, 0, 0, //
        7, 8, 9, 10, 11, 12, 0, 0, //
        13, 14, 15, 16, 17, 18, 0, 0,
    ];
    let img = image(2, 3, data);
    assert!(!is_packed(&img));
    assert_eq!(
        pack_rows(&img),
        Some(vec![1, 2, 3, 4, 5, 6, 7, 8, 9, 10, 11, 12, 13, 14, 15, 16, 17, 18])
    );
}

#[test]
fn the_stride_is_the_data_divided_among_the_rows() {
    // one pixel a row, two rows, stride 11 / 2 = 5
    let data: Vec<u8> = vec![1, 2, 3, 90, 91, 4, 5, 6, 92, 93, 94];
    let img = image(1, 2, data);
    assert_eq!(pack_rows(&img), Some(vec![1, 2, 3, 4, 5, 6]));
}

#[test]
fn rows_too_short_for_the_width_cannot_be_packed() {
    let img = image(2, 2, vec![0; 11]);
    assert_eq!(pack_rows(&img), None);
    let img = image(1, 4, vec![0; 3]);
    assert_eq!(pack_rows(&img), None);
    let img = image(1, 1, Vec::new());
    assert_eq!(pack_rows(&img), None);
}

#[test]
fn an_image_without_pixels_packs_to_nothing() {
    assert_eq!(pack_rows(&image(0, 5, vec![1, 2, 3])), Some(Vec::new()));
    assert_eq!(pack_rows(&image(5, 0, vec![1, 2, 3])), Some(Vec::new()));
    assert!(is_packed(&image(0, 0, Vec::new())));
    assert!(!is_packed(&image(0, 3, vec![9])));
}

#[test]
fn data_of_another_length_is_not_packed() {
    assert!(!is_packed(&image(2, 2, vec![0; 13])));
    assert!(!is_packed(&image(2, 2, vec![0; 11])));
    assert!(!is_packed(&image(2, 2, vec![0; 16])));
    assert!(is_packed(&image(1, 1, vec![0; 3])));
}

#[test]
fn a_transcoded_image_decodes_to_the_same_pixels() {
    let data: Vec<u8> = (0..(4 * 3 * 3)).map(|n| (n * 7 % 251) as u8).collect();
    let img = image(4, 3, data.clone());
    let bytes = match transcode(&img) {
        Ok(bytes) => bytes,
        Err(_) => panic!("the image can be encoded"),
    };
    assert_eq!(&bytes[..8], &[137, 80, 78, 71, 13, 10, 26, 10]);
    let (width, height, color, depth, pixels) = decode(&bytes);
    assert_eq!((width, height), (4, 3));
    assert_eq!(color, png::ColorType::Rgb);
    assert_eq!(depth, png::BitDepth::Eight);
    assert_eq!(pixels, data);
}

#[test]
fn a_padded_image_decodes_to_its_pixels_without_the_padding() {
    let width = 5u32;
    let height = 4u32;
    let stride = 5 * 3 + 9;
    let mut data = Vec::new();
    let mut expected = Vec::new();
    for r in 0..height as usize {
        for c in 0..stride {
            let v = ((r * 31 + c * 5) % 256) as u8;
            data.push(v);
            if c < 15 {
                expected.push(v);
            }
        }
    }
    let bytes = match transcode(&image(width, height, data)) {
        Ok(bytes) => bytes,
        Err(_) => panic!("the image can be encoded"),
    };
    let (w, h, _, _, pixels) = decode(&bytes);
    assert_eq!((w, h), (5, 4));
    assert_eq!(pixels, expected);
}

#[test]
fn a_larger_image_goes_through() {
    let width = 64u32;
    let height = 48u32;
    let data: Vec<u8> = (0..(64 * 48 * 3)).map(|n: usize| (n * n % 253) as u8).collect();
    let bytes = match transcode(&image(width, height, data.clone())) {
        Ok(bytes) => bytes,
        Err(_) => panic!("the image can be encoded"),
    };
    let (w, h, _, _, pixels) = decode(&bytes);
    assert_eq!((w, h), (64, 48));
    assert_eq!(pixels, data);
}

#[test]
fn the_same_image_gives_the_same_file() {
    let data: Vec<u8> = (0..27).collect();
    let first = transcode(&image(3, 3, data.clone()));
    let second = transcode(&image(3, 3, data));
    match (first, second) {
        (Ok(a), Ok(b)) => assert_eq!(a, b),
        _ => panic!("the image can be encoded"),
    }
}

#[test]
fn short_rows_are_an_error() {
    assert!(matches!(transcode(&image(2, 2, vec![0; 11])), Err(TranscodeError::ShortRows)));
}

#[test]
fn the_encoder_refuses_an_image_without_pixels() {
    match transcode(&image(0, 2, Vec::new())) {
        Err(TranscodeError::Encoder { message }) => assert!(!message.is_empty()),
        _ => panic!("an image without width was encoded"),
    }
    match transcode(&image(2, 0, vec![1, 2, 3])) {
        Err(TranscodeError::Encoder { message }) => assert!(!message.is_empty()),
        _ => panic!("an image without height was encoded"),
    }
}

#[test]
fn the_encoders_bytes_are_passed_on() {
    match encoded(Ok(vec![1, 2, 3])) {
        Ok(bytes) => assert_eq!(bytes, vec![1, 2, 3]),
        Err(_) => panic!("bytes became an error"),
    }
}

#[test]
fn the_encoders_error_is_put_in_words() {
    match encoded(Err(png::EncodingError::LimitsExceeded)) {
        Err(TranscodeError::Encoder { message }) => {
            assert_eq!(message, png::EncodingError::LimitsExceeded.to_string())
        }
        _ => panic!("an error was lost"),
    }
}

#[test]
fn a_transcoding_error_can_be_put_in_words() {
    assert_eq!(
        TranscodeError::ShortRows.message(),
        "decoded rows are shorter than the image is wide"
    );
    let e = TranscodeError::Encoder { message: "zero width".to_string() };
    assert_eq!(e.message(), "zero width");
}
