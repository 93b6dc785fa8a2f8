use qrbackup::constants::{GRID_SIZE, MARGIN_X, MARGIN_Y, PAGE_HEIGHT, PAGE_WIDTH, QRCODE_SIZE,
    TEXT_HEIGHT};
use qrbackup::document::{archive_entries, generate_pages, page_count, PageLabels};
use qrbackup::qrcode::{generate_4color_qrcode, generate_8color_qrcode, generate_qrcode,
    generate_qrcodes, generate_variant};
use qrbackup::raster::{blend2, blend3, chan_at, combine2, new_image, Color, Image};
use qrbackup::{EncodeError, Variant};

fn sample(n: usize) -> Vec<u8> {
    (0..n).map(|i| (i % 251) as u8).collect()
}

fn pixel(img: &Image, x: usize, y: usize) -> (u8, u8, u8) {
    (chan_at(img, x, y, 0), chan_at(img, x, y, 1), chan_at(img, x, y, 2))
}

#[test]
fn data_density_per_variant() {
    assert_eq!(Variant::QRCode.data_density(), 1);
    assert_eq!(Variant::Color4.data_density(), 2);
    assert_eq!(Variant::Color8.data_density(), 3);
}

#[test]
fn blend_is_exact_and_multiplicative() {
    assert_eq!(blend2(200, 100), 78);
    assert_eq!(blend2(255, 137), 137);
    assert_eq!(blend2(0, 201), 0);
    assert_eq!(blend3(255, 255, 44), 44);
    assert_eq!(blend3(0, 255, 255), 0);
    assert_eq!(blend3(200, 100, 50), 15);
}

#[test]
fn blend_never_increases_a_channel() {
    for a in [0u8, 1, 7, 100, 128, 254, 255] {
        for b in [0u8, 3, 99, 200, 255] {
            let r = blend2(a, b);
            assert!(r <= a && r <= b);
            for c in [0u8, 50, 255] {
                let r3 = blend3(a, b, c);
                assert!(r3 <= a && r3 <= b && r3 <= c);
            }
        }
    }
}

#[test]
fn combine2_multiplies_channels() {
    let a = Image { width: 1, height: 1, pixels: vec![100, 150, 200] };
    let b = Image { width: 1, height: 1, pixels: vec![50, 250, 0] };
    let r = combine2(&a, &b);
    assert_eq!(r.pixels, vec![19, 147, 0]);
}

#[test]
fn qrcode_of_512_bytes_has_the_known_module_width() {
    let img = generate_qrcode(&sample(512), Color { r: 0, g: 0, b: 0 }).unwrap();
    assert_eq!(img.width, 77);
    assert_eq!(img.height, 77);
}

#[test]
fn qrcode_render_is_black_on_white() {
    let img = generate_qrcode(&sample(100), Color { r: 0, g: 0, b: 0 }).unwrap();
    let mut dark = 0usize;
    let mut light = 0usize;
    for y in 0..img.height {
        for x in 0..img.width {
            match pixel(&img, x, y) {
                (0, 0, 0) => dark += 1,
                (255, 255, 255) => light += 1,
                other => panic!("unexpected pixel {:?}", other),
            }
        }
    }
    assert!(dark > 0 && light > 0);
}

#[test]
fn qrcode_over_capacity_fails() {
    let r = generate_qrcode(&sample(2954), Color { r: 0, g: 0, b: 0 });
    assert!(matches!(r, Err(EncodeError::Capacity)));
    assert!(generate_qrcode(&sample(2953), Color { r: 0, g: 0, b: 0 }).is_ok());
}

#[test]
fn variant_symbol_has_the_fixed_size() {
    let img = generate_variant(&sample(512), &Variant::QRCode).unwrap();
    assert_eq!(img.width, QRCODE_SIZE);
    assert_eq!(img.height, QRCODE_SIZE);
    let mut dark = 0usize;
    let mut light = 0usize;
    for y in 0..img.height {
        for x in 0..img.width {
            match pixel(&img, x, y) {
                (0, 0, 0) => dark += 1,
                (255, 255, 255) => light += 1,
                other => panic!("unexpected pixel {:?}", other),
            }
        }
    }
    assert!(dark > 0 && light > 0);
}

#[test]
fn four_color_composite_blends_blue_and_yellow() {
    let img = generate_4color_qrcode(&sample(1024)).unwrap();
    assert_eq!(img.width, 77);
    assert_eq!(img.height, 77);
    // blue (0,0,255) x yellow (255,255,0): every channel comes from
    // {0,255} x {0,255} / 255, so each channel is 0 or 255, and the blue
    // channel is dark wherever the second symbol has a dark module.
    for y in 0..img.height {
        for x in 0..img.width {
            let (r, g, b) = pixel(&img, x, y);
            assert!(r == g, "red and green must agree, got {:?}", (r, g, b));
            assert!(r == 0 || r == 255);
            assert!(b == 0 || b == 255);
        }
    }
}

#[test]
fn eight_color_composite_is_defined_for_a_full_chunk() {
    let img = generate_8color_qrcode(&sample(1536)).unwrap();
    assert_eq!(img.width, 77);
    assert_eq!(img.height, 77);
}

#[test]
fn short_final_multichannel_chunk_is_padded_and_aligned() {
    // 700 bytes at density 2: one chunk whose second sub-slice is padded, so
    // both grids still have the 512-byte module width and combination works.
    let imgs = generate_qrcodes(&sample(700), &Variant::Color4).unwrap();
    assert_eq!(imgs.len(), 1);
    assert_eq!(imgs[0].width, QRCODE_SIZE);
}

#[test]
fn density_3_document_with_short_final_chunk() {
    // 2000 bytes at density 3: two chunks of 1536 and 464 bytes; the short
    // chunk's sub-slices are zero-padded, so encoding still succeeds.
    let imgs = generate_qrcodes(&sample(2000), &Variant::Color8).unwrap();
    assert_eq!(imgs.len(), 2);
    assert_eq!(imgs[1].width, QRCODE_SIZE);
}

#[test]
fn document_of_1300_bytes_at_density_1() {
    let data = sample(1300);
    let imgs = generate_qrcodes(&data, &Variant::QRCode).unwrap();
    assert_eq!(imgs.len(), 3);
    assert_eq!(page_count(imgs.len()), 1);
    let labels = vec![white_labels()];
    let pages = generate_pages(&imgs, &labels);
    assert_eq!(pages.len(), 1);
    let page = &pages[0];
    assert_eq!(page.width, PAGE_WIDTH);
    assert_eq!(page.height, PAGE_HEIGHT);
    // cell 0 holds the first composite image: its top-left pixel lands at
    // the cell origin.
    let cx0 = MARGIN_X;
    let cy0 = 2 * MARGIN_Y + 2 * TEXT_HEIGHT;
    assert_eq!(pixel(page, cx0, cy0), pixel(&imgs[0], 0, 0));
    // cell 1 holds the second image, one column to the right.
    let cx1 = MARGIN_X + QRCODE_SIZE + MARGIN_X;
    assert_eq!(pixel(page, cx1, cy0), pixel(&imgs[1], 0, 0));
    // cells 3, 4 and 5 are blank: all white.
    let cy1 = cy0 + QRCODE_SIZE + MARGIN_Y;
    assert_eq!(pixel(page, cx1, cy1), (255, 255, 255));
    let cy2 = cy1 + QRCODE_SIZE + MARGIN_Y;
    assert_eq!(pixel(page, cx0, cy2), (255, 255, 255));
    assert_eq!(pixel(page, cx1, cy2), (255, 255, 255));
}

#[test]
fn document_of_1024_bytes_at_density_2_is_one_composite() {
    let data = sample(1024);
    let imgs = generate_qrcodes(&data, &Variant::Color4).unwrap();
    assert_eq!(imgs.len(), 1);
    assert_eq!(imgs[0].width, QRCODE_SIZE);
    assert_eq!(page_count(imgs.len()), 1);
}

#[test]
fn thirteen_codes_fill_three_pages() {
    assert_eq!(page_count(0), 0);
    assert_eq!(page_count(6), 1);
    assert_eq!(page_count(7), 2);
    assert_eq!(page_count(GRID_SIZE * 2 + 1), 3);
}

#[test]
fn archive_entry_round_trips_through_png() {
    let img = Image {
        width: 3,
        height: 2,
        pixels: vec![
            1, 2, 3, 4, 5, 6, 7, 8, 9, 10, 11, 12, 13, 14, 15, 16, 17, 18,
        ],
    };
    let entries = archive_entries(&vec![img]).unwrap();
    assert_eq!(entries.len(), 1);
    assert_eq!(entries[0].0, "page000000.png");
    let bytes = &entries[0].1;
    assert_eq!(&bytes[0..8], &[0x89, b'P', b'N', b'G', b'\r', b'\n', 0x1a, b'\n']);
    let decoded = image::load_from_memory(bytes).unwrap().to_rgb8();
    assert_eq!(decoded.width(), 3);
    assert_eq!(decoded.height(), 2);
    assert_eq!(decoded.into_raw(), (1u8..=18).collect::<Vec<u8>>());
}

#[test]
fn encoding_twice_gives_identical_pages() {
    let data = sample(900);
    let a = generate_qrcodes(&data, &Variant::QRCode).unwrap();
    let b = generate_qrcodes(&data, &Variant::QRCode).unwrap();
    assert_eq!(a.len(), b.len());
    for (x, y) in a.iter().zip(b.iter()) {
        assert_eq!(x.pixels, y.pixels);
    }
    let pages_a = generate_pages(&a, &vec![white_labels()]);
    let pages_b = generate_pages(&b, &vec![white_labels()]);
    assert_eq!(pages_a[0].pixels, pages_b[0].pixels);
    let ea = archive_entries(&vec![Image { width: 2, height: 2, pixels: vec![9; 12] }]).unwrap();
    let eb = archive_entries(&vec![Image { width: 2, height: 2, pixels: vec![9; 12] }]).unwrap();
    assert_eq!(ea, eb);
}

fn white_labels() -> PageLabels {
    PageLabels {
        info: new_image(PAGE_WIDTH, TEXT_HEIGHT, Color { r: 255, g: 255, b: 255 }),
        msg: new_image(PAGE_WIDTH, TEXT_HEIGHT, Color { r: 255, g: 255, b: 255 }),
    }
}
