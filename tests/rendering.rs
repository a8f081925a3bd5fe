use logo_timeline::{get_logo_data, get_logo_png, LogoOptions, LogoResponse, RenderError};

fn token(s: &str) -> String {
    s.to_string()
}

/// A description of seven characters whose panels are empty, but where
/// character `c` gets `panels`.
fn description_with(c: usize, panels: Vec<Vec<String>>) -> LogoResponse {
    let mut logo: Vec<Vec<Vec<String>>> = vec![Vec::new(); 7];
    logo[c] = panels;
    LogoResponse { logo }
}

fn options(size: Option<u32>, character: Option<usize>, crop: bool) -> LogoOptions {
    LogoOptions { size, character, crop }
}

fn pixel(data: &[u8], width: usize, x: usize, y: usize) -> [u8; 4] {
    let i = (x + y * width) * 4;
    [data[i], data[i + 1], data[i + 2], data[i + 3]]
}

#[test]
fn empty_description_renders_blank_strip() {
    let d = LogoResponse { logo: Vec::new() };
    let logo = get_logo_data(&d, LogoOptions::default()).unwrap();
    assert_eq!(logo.width, 152);
    assert_eq!(logo.height, 32);
    assert_eq!(logo.data.len(), 152 * 32 * 4);
    assert!(logo.data.iter().all(|b| *b == 0));
}

#[test]
fn first_pixel_of_first_character() {
    let d = description_with(0, vec![vec![token("#ff0000")]]);
    let logo = get_logo_data(&d, LogoOptions::default()).unwrap();
    assert_eq!(pixel(&logo.data, 152, 0, 0), [255, 0, 0, 255]);
    assert_eq!(pixel(&logo.data, 152, 1, 0), [0, 0, 0, 0]);
}

#[test]
fn pixel_index_wraps_every_eight() {
    let mut panel = vec![token("zz"); 9];
    panel[8] = token("010203");
    let d = description_with(0, vec![panel]);
    let logo = get_logo_data(&d, LogoOptions::default()).unwrap();
    assert_eq!(pixel(&logo.data, 152, 0, 1), [1, 2, 3, 255]);
    assert_eq!(pixel(&logo.data, 152, 7, 0), [155, 155, 155, 255]);
    assert_eq!(pixel(&logo.data, 152, 1, 1), [0, 0, 0, 0]);
}

#[test]
fn strip_offsets_characters() {
    // Character 2 starts at (2 * 3 - 2) * 8 = 32; its first panel at (0, 8).
    let d = description_with(2, vec![vec![token("0a0b0c")]]);
    let logo = get_logo_data(&d, LogoOptions::default()).unwrap();
    assert_eq!(pixel(&logo.data, 152, 32, 8), [10, 11, 12, 255]);
    // Character 6 starts at 128; its second panel at (8, 8).
    let d = description_with(6, vec![Vec::new(), vec![token("#010101")]]);
    let logo = get_logo_data(&d, LogoOptions::default()).unwrap();
    assert_eq!(pixel(&logo.data, 152, 136, 8), [1, 1, 1, 255]);
}

#[test]
fn scaled_pixels_fill_blocks() {
    let d = description_with(0, vec![vec![token("#00ff00"), token("#0000ff")]]);
    let logo = get_logo_data(&d, options(Some(3), None, false)).unwrap();
    assert_eq!(logo.width, 456);
    assert_eq!(logo.height, 96);
    assert_eq!(logo.data.len(), 456 * 96 * 4);
    for x in 0..3 {
        for y in 0..3 {
            assert_eq!(pixel(&logo.data, 456, x, y), [0, 255, 0, 255]);
            assert_eq!(pixel(&logo.data, 456, x + 3, y), [0, 0, 255, 255]);
        }
    }
    assert_eq!(pixel(&logo.data, 456, 6, 0), [0, 0, 0, 0]);
    assert_eq!(pixel(&logo.data, 456, 0, 3), [0, 0, 0, 0]);
}

#[test]
fn alpha_is_opaque_or_background() {
    let d = description_with(3, vec![vec![token("#123456"); 64], vec![token("bad"); 10]]);
    for size in 1..4u32 {
        let logo = get_logo_data(&d, options(Some(size), None, false)).unwrap();
        assert_eq!(logo.data.len(), logo.width * logo.height * 4);
        for px in logo.data.chunks(4) {
            assert!(px[3] == 255 || px == [0, 0, 0, 0]);
        }
    }
}

#[test]
fn rendering_twice_gives_same_bytes() {
    let d = description_with(4, vec![vec![token("#abcdef"); 20]]);
    let a = get_logo_data(&d, options(Some(2), None, false)).unwrap();
    let b = get_logo_data(&d, options(Some(2), None, false)).unwrap();
    assert_eq!(a.data, b.data);
}

#[test]
fn single_character_canvas_sizes() {
    let d = description_with(0, Vec::new());
    let first = get_logo_data(&d, options(Some(2), Some(0), true)).unwrap();
    assert_eq!((first.width, first.height), (16, 64));
    let second = get_logo_data(&d, options(Some(2), Some(2), true)).unwrap();
    assert_eq!((second.width, second.height), (48, 48));
    let uncropped = get_logo_data(&d, options(Some(1), Some(2), false)).unwrap();
    assert_eq!((uncropped.width, uncropped.height), (24, 32));
    let kept = get_logo_data(&d, options(Some(1), Some(5), true)).unwrap();
    assert_eq!((kept.width, kept.height), (24, 32));
}

#[test]
fn crop_lifts_character() {
    // Character 2's first panel sits at (0, 8); cropped it moves to row 0.
    let d = description_with(2, vec![vec![token("#102030")]]);
    let logo = get_logo_data(&d, options(None, Some(2), true)).unwrap();
    assert_eq!(logo.height, 24);
    assert_eq!(pixel(&logo.data, 24, 0, 0), [16, 32, 48, 255]);
}

#[test]
fn missing_character_is_reported() {
    let d = LogoResponse { logo: vec![Vec::new(), Vec::new()] };
    assert!(matches!(
        get_logo_data(&d, options(None, Some(2), false)),
        Err(RenderError::InvalidCharacterIndex(2))
    ));
    assert_eq!(get_logo_png(&d, options(None, Some(7), false)), Err(RenderError::InvalidCharacterIndex(7)));
}

#[test]
fn bad_color_is_reported() {
    let d = description_with(1, vec![vec![token("#12345x")]]);
    assert!(matches!(get_logo_data(&d, LogoOptions::default()), Err(RenderError::ColorParse)));
}

#[test]
fn pixel_off_canvas_is_reported() {
    // The fourth panel of the first character starts at row 32.
    let d = description_with(0, vec![Vec::new(), Vec::new(), Vec::new(), vec![token("#000000")]]);
    assert!(matches!(get_logo_data(&d, LogoOptions::default()), Err(RenderError::UnplacedPixel)));
    // A panel past the glyph table.
    let d = description_with(3, vec![Vec::new(); 5].into_iter().chain(vec![vec![token("#000000")]]).collect());
    assert!(matches!(get_logo_data(&d, LogoOptions::default()), Err(RenderError::UnplacedPixel)));
}

#[test]
fn png_encodes_rendered_bitmap() {
    let d = description_with(0, vec![vec![token("#ff0000"), token("#00ff00")]]);
    let opts = options(Some(2), Some(0), false);
    let bytes = get_logo_png(&d, opts).unwrap();
    assert_eq!(&bytes[..8], &[137, 80, 78, 71, 13, 10, 26, 10]);
    let decoder = png::Decoder::new(bytes.as_slice());
    let (info, mut reader) = decoder.read_info().unwrap();
    assert_eq!((info.width, info.height), (16, 64));
    let mut buf = vec![0; info.buffer_size()];
    reader.next_frame(&mut buf).unwrap();
    let logo = get_logo_data(&d, opts).unwrap();
    assert_eq!(buf, logo.data);
}

#[test]
fn first_failing_token_decides_error() {
    // A bad color comes before a pixel that is off the canvas.
    let d = description_with(0, vec![vec![token("#zz0000")], Vec::new(), Vec::new(), vec![token("#000000")]]);
    assert!(matches!(get_logo_data(&d, LogoOptions::default()), Err(RenderError::ColorParse)));
    // An unplaced pixel comes before a bad color.
    let d = description_with(0, vec![Vec::new(), Vec::new(), Vec::new(), vec![token("#000000")], vec![token("#zz0000")]]);
    assert!(matches!(get_logo_data(&d, LogoOptions::default()), Err(RenderError::UnplacedPixel)));
}

#[test]
fn multibyte_token_is_a_color_error() {
    let d = description_with(1, vec![vec![token("ab\u{20ac}d")]]);
    assert!(matches!(get_logo_data(&d, LogoOptions::default()), Err(RenderError::ColorParse)));
}
