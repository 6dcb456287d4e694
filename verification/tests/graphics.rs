use base64::Engine;
use image::codecs::png::PngEncoder;
use image::{ImageBuffer, ImageEncoder, Rgba};
use kou::graphics::{
    apc_tail, encode, encode_iterm, encode_kitty, extract_kitty_apcs, process_kitty_apc,
    GraphicsProtocol, GraphicsRequest, InlineImage, InlineImageStore, KittyDecodeState, Placement,
    KITTY_CHUNK,
};
use kou::screen::Screen;

fn b64(data: &[u8]) -> String {
    base64::engine::general_purpose::STANDARD.encode(data)
}

fn minimal_png(w: u32, h: u32) -> Vec<u8> {
    let img: ImageBuffer<Rgba<u8>, Vec<u8>> = ImageBuffer::from_pixel(w, h, Rgba([0, 0, 0, 255]));
    let mut buf = Vec::new();
    PngEncoder::new(&mut buf)
        .write_image(&img, w, h, image::ExtendedColorType::Rgba8)
        .unwrap();
    buf
}

fn red_png() -> Vec<u8> {
    let img: ImageBuffer<Rgba<u8>, Vec<u8>> = ImageBuffer::from_pixel(4, 4, Rgba([255, 0, 0, 255]));
    let mut buf = Vec::new();
    PngEncoder::new(&mut buf)
        .write_image(img.as_raw(), img.width(), img.height(), image::ExtendedColorType::Rgba8)
        .unwrap();
    buf
}

fn large_red_png() -> Vec<u8> {
    let mut img: ImageBuffer<Rgba<u8>, Vec<u8>> = ImageBuffer::new(128, 128);
    for y in 0..128 {
        for x in 0..128 {
            let r = ((x as u32 * 7 + y as u32 * 13) % 256) as u8;
            let g = ((x as u32 * 3 + y as u32 * 5) % 256) as u8;
            let b = ((x as u32 * 11 + y as u32 * 17) % 256) as u8;
            img[(x, y)] = Rgba([r, g, b, 255]);
        }
    }
    let mut buf = Vec::new();
    PngEncoder::new(&mut buf)
        .write_image(img.as_raw(), img.width(), img.height(), image::ExtendedColorType::Rgba8)
        .unwrap();
    buf
}

#[test]
fn env_parsing() {
    for (raw, expected) in [
        ("kitty", GraphicsProtocol::Kitty),
        ("KITTY2", GraphicsProtocol::Kitty),
        ("iterm2", GraphicsProtocol::Iterm),
        ("sixel", GraphicsProtocol::Sixel),
        ("nonsense", GraphicsProtocol::Off),
    ] {
        assert_eq!(GraphicsProtocol::from_env(Some(raw)), expected, "raw = {raw:?}");
    }
    assert_eq!(GraphicsProtocol::from_env(None), GraphicsProtocol::Off);
}

#[test]
fn kitty_chunks_are_terminated() {
    let big = vec![b'a'; (KITTY_CHUNK * 3) + 1];
    let req = GraphicsRequest { bytes: &big, pixel_w: 10, pixel_h: 10, cells_w: 2, cells_h: 2 };
    let enc = encode_kitty(&req);
    let frames: Vec<&str> = enc.split("\x1b\\").filter(|s| !s.is_empty()).collect();
    assert!(frames.len() >= 3, "expected chunked frames, got {}", frames.len());
    assert!(enc.contains("a=t,t=d,f=100"));
}

#[test]
fn iterm_has_file_header() {
    let data = b"\x89PNG fake";
    let req = GraphicsRequest { bytes: data, pixel_w: 1, pixel_h: 1, cells_w: 1, cells_h: 1 };
    let enc = encode_iterm(&req);
    assert!(enc.starts_with("\x1b]1337;File=inline=1"));
    assert!(enc.contains("width=1cells"));
    assert!(enc.ends_with('\x07'));
}

#[test]
fn decode_kitty_single_frame_creates_placement() {
    let png = minimal_png(4, 4);
    let seq = format!("\x1b_Ga=t,f=100,c=4,r=2,i=42;{}\x1b\\", b64(&png));
    let mut state = KittyDecodeState::default();
    let mut store = InlineImageStore::new();
    let apcs = extract_kitty_apcs(seq.as_bytes());
    assert_eq!(apcs.len(), 1);
    process_kitty_apc(&mut state, &apcs[0].2, &apcs[0].3, 3, 5, &mut store);
    assert_eq!(store.placements().len(), 1);
    let p = &store.placements()[0];
    assert_eq!(p.image_id, 42);
    assert_eq!(p.row, 3);
    assert_eq!(p.col, 5);
    assert_eq!(p.cells_w, 4);
    assert_eq!(p.cells_h, 2);
}

#[test]
fn decode_kitty_multipart_reassembles() {
    let png = minimal_png(2, 2);
    let b = b64(&png);
    let mid = b.len() / 2;
    let chunk0 = format!("\x1b_Ga=t,f=100,c=2,r=2,i=7,m=1;{}", &b[..mid]);
    let chunk1 = format!("\x1b_Gi=7,m=0;{}\x1b\\", &b[mid..]);
    let seq = format!("{}\x1b\\{}", chunk0, chunk1);
    let mut state = KittyDecodeState::default();
    let mut store = InlineImageStore::new();
    let apcs = extract_kitty_apcs(seq.as_bytes());
    for (_, _, ctrl, payload) in &apcs {
        process_kitty_apc(&mut state, ctrl, payload, 0, 0, &mut store);
    }
    assert_eq!(store.placements().len(), 1);
    assert_eq!(store.image(7).unwrap().data, png);
}

#[test]
fn kitty_apc_split_across_feed() {
    let png = red_png();
    let kitty = format!("\x1b_Ga=t,f=100,c=4,r=4,i=99;{}\x1b\\", b64(&png));
    let mid = kitty.len() / 2;
    let part1 = &kitty.as_bytes()[..mid];
    let part2 = &kitty.as_bytes()[mid..];
    let mut screen = Screen::new(20, 10);
    screen.feed(part1);
    screen.feed(part2);
    let placements = screen.image_store.placements();
    assert!(!placements.is_empty(), "split APC should still produce a placement after reassembly");
    assert_eq!(placements[0].image_id, 99);
}

#[test]
fn iterm2_osc1337_split_across_feed() {
    let png = large_red_png();
    let seq = format!("\x1b]1337;File=inline=1;width=8cells;height=8cells:{}\x07", b64(&png));
    assert!(seq.len() > 4000, "test needs a large OSC to exercise the buffer");
    let mid = seq.len() / 2;
    let mut screen = Screen::new(20, 10);
    screen.feed(b"\x1b[3;4H");
    screen.feed(&seq.as_bytes()[..mid]);
    screen.feed(&seq.as_bytes()[mid..]);
    let n = screen.image_store.placements().len();
    assert!(n > 0, "split iTerm2 OSC should still produce a placement (got {n})");
}

#[test]
fn kitty_apc_is_placed_at_the_cursor() {
    let png = red_png();
    let kitty = format!("\x1b_Ga=t,f=100,s=4,v=4,c=4,r=4,i=1;{}\x1b\\", b64(&png));
    let mut screen = Screen::new(20, 10);
    screen.feed(b"\x1b[3;4H");
    screen.feed(kitty.as_bytes());
    let p = screen.image_store.placements()[0];
    assert_eq!((p.row, p.col, p.cells_w, p.cells_h), (2, 3, 4, 4));
    assert_eq!((p.pixel_w, p.pixel_h), (4, 4));
    assert_eq!(screen.image_store.image(1).unwrap().data, png);
}

#[test]
fn iterm_osc_is_placed_at_the_cursor() {
    let png = red_png();
    let seq = format!("\x1b]1337;File=inline=1;width=4cells;height=2cells:{}\x07", b64(&png));
    let mut screen = Screen::new(20, 10);
    screen.feed(b"\x1b[3;4H");
    screen.feed(seq.as_bytes());
    let p = screen.image_store.placements()[0];
    assert_eq!((p.row, p.col, p.cells_w, p.cells_h), (2, 3, 4, 2));
    assert_eq!(screen.image_store.image(p.image_id).unwrap().data, png);
}

#[test]
fn kitty_encoding_round_trips_through_the_decoder() {
    let png = minimal_png(3, 3);
    let big: Vec<u8> = png.iter().cycle().take(7000).copied().collect();
    let req = GraphicsRequest { bytes: &big, pixel_w: 3, pixel_h: 3, cells_w: 5, cells_h: 6 };
    let enc = encode(GraphicsProtocol::Kitty, &req).unwrap();
    let apcs = extract_kitty_apcs(enc.as_bytes());
    assert!(apcs.len() >= 3);
    assert!(apcs.iter().all(|a| a.3.len() <= KITTY_CHUNK));
    assert_eq!(apcs[0].2, "a=t,t=d,f=100,s=3,v=3,c=5,r=6,m=1");
    assert_eq!(apcs[apcs.len() - 1].2, "m=0");
    let joined: Vec<u8> = apcs.iter().flat_map(|a| a.3.clone()).collect();
    assert_eq!(joined, b64(&big).into_bytes());
}

#[test]
fn encode_refuses_off_sixel_and_empty() {
    let req = GraphicsRequest { bytes: b"x", pixel_w: 1, pixel_h: 1, cells_w: 1, cells_h: 1 };
    assert!(encode(GraphicsProtocol::Off, &req).is_none());
    assert!(encode(GraphicsProtocol::Sixel, &req).is_none());
    let empty = GraphicsRequest { bytes: b"", pixel_w: 1, pixel_h: 1, cells_w: 1, cells_h: 1 };
    assert!(encode(GraphicsProtocol::Kitty, &empty).is_none());
    assert_eq!(
        encode(GraphicsProtocol::Iterm, &req).unwrap(),
        format!("\x1b]1337;File=inline=1;width=1cells;height=1cells;size=1;name={}:eA==\x07", b64(b"kou-image"))
    );
}

#[test]
fn protocol_labels_and_support() {
    assert!(GraphicsProtocol::Kitty.supported());
    assert!(GraphicsProtocol::Iterm.supported());
    assert!(!GraphicsProtocol::Sixel.supported());
    assert!(!GraphicsProtocol::Off.supported());
    assert_eq!(GraphicsProtocol::Kitty.label(), "kitty");
    assert_eq!(GraphicsProtocol::Off.label(), "off");
}

#[test]
fn extract_reports_positions_and_lossy_control() {
    let data = b"xx\x1b_Ga=t,\xffi=2;QUJD\x1b\\yy";
    let apcs = extract_kitty_apcs(data);
    assert_eq!(apcs.len(), 1);
    assert_eq!((apcs[0].0, apcs[0].1), (2, 20));
    assert_eq!(apcs[0].2, "a=t,\u{fffd}i=2");
    assert_eq!(apcs[0].3, b"QUJD".to_vec());
}

#[test]
fn unfinished_apc_is_kept_for_the_next_chunk() {
    assert_eq!(apc_tail(b"abc\x1b_Gpartial"), b"\x1b_Gpartial".to_vec());
    assert_eq!(apc_tail(b"abc\x1b"), b"\x1b".to_vec());
    assert_eq!(apc_tail(b"abc\x1b_Gx\x1b\\"), Vec::<u8>::new());
}

#[test]
fn store_insert_place_and_lookup() {
    let mut store = InlineImageStore::new();
    assert_eq!(store.len(), 0);
    store.insert(InlineImage { id: 5, data: vec![1, 2, 3] });
    store.insert(InlineImage { id: 5, data: vec![9] });
    assert_eq!(store.len(), 0);
    assert_eq!(store.image(5).unwrap().data, vec![9]);
    assert!(store.image(6).is_none());
    let p = Placement { image_id: 5, row: 1, col: 2, pixel_w: 0, pixel_h: 0, cells_w: 1, cells_h: 1 };
    store.place(p);
    assert_eq!(store.placements(), &[p]);
    assert_eq!(store.len(), 1);
}

#[test]
fn bad_base64_stores_nothing() {
    let mut state = KittyDecodeState::new();
    let mut store = InlineImageStore::new();
    process_kitty_apc(&mut state, "a=T,i=3", b"!!!!", 0, 0, &mut store);
    assert!(store.image(3).is_none());
    assert!(store.placements().is_empty());
}

#[test]
fn apcs_are_the_same_wherever_the_stream_is_split() {
    let stream: Vec<u8> = b"ab\x1b_Ga=T,i=1;QUFB\x1b\\cd\x1b_Gi=2;QkJC\x1b\\ef".to_vec();
    let whole: Vec<(String, Vec<u8>)> =
        extract_kitty_apcs(&stream).into_iter().map(|a| (a.2, a.3)).collect();
    assert_eq!(whole.len(), 2);
    for cut in 0..=stream.len() {
        let (x, b) = stream.split_at(cut);
        let mut parts: Vec<(String, Vec<u8>)> =
            extract_kitty_apcs(x).into_iter().map(|a| (a.2, a.3)).collect();
        let mut rest = apc_tail(x);
        rest.extend_from_slice(b);
        parts.extend(extract_kitty_apcs(&rest).into_iter().map(|a| (a.2, a.3)));
        assert_eq!(parts, whole, "split at {cut}");
    }
}
