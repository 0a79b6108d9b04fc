use orr_desktop::encode::i420::{
    band_rows, band_threads, bgra_to_i420, bgra_to_i420_in_bands, convert_band, I420Frame,
};

fn solid_frame(width: u32, height: u32, b: u8, g: u8, r: u8) -> Vec<u8> {
    let mut data = Vec::with_capacity((width * height * 4) as usize);
    for _ in 0..width * height {
        data.extend_from_slice(&[b, g, r, 255]);
    }
    data
}

fn gradient(w: usize, h: usize) -> Vec<u8> {
    let mut bgra = vec![0u8; w * h * 4];
    for (px, chunk) in bgra.chunks_exact_mut(4).enumerate() {
        let x = px % w;
        let y = px / w;
        chunk.copy_from_slice(&[(x * 7) as u8, (y * 13) as u8, (x + y) as u8, 255]);
    }
    bgra
}

#[test]
fn i420_gray_is_neutral_chroma() {
    let mut out = I420Frame::with_capacity(2, 2);
    bgra_to_i420(&solid_frame(2, 2, 128, 128, 128), 2, 2, &mut out);
    // R=G=B=v -> Y = 16 + 219*v/255 ; v=128 -> 126
    assert_eq!(out.y(), &[126, 126, 126, 126]);
    assert!(out.u().iter().all(|&c| c == 128));
    assert!(out.v().iter().all(|&c| c == 128));
}

#[test]
fn i420_black_white_luma_extremes() {
    let mut out = I420Frame::with_capacity(2, 2);
    bgra_to_i420(&solid_frame(2, 2, 0, 0, 0), 2, 2, &mut out);
    assert!(out.y().iter().all(|&c| c == 16)); // studio-swing black

    bgra_to_i420(&solid_frame(2, 2, 255, 255, 255), 2, 2, &mut out);
    assert!(out.y().iter().all(|&c| c == 235)); // studio-swing white
}

#[test]
fn i420_primary_colors_match_bt601_fixed_point() {
    let mut out = I420Frame::with_capacity(2, 2);

    // Pure red: Y=((66*255+128)>>8)+16=82, U=((-38*255+128)>>8)+128=90, V=((112*255+128)>>8)+128=240
    bgra_to_i420(&solid_frame(2, 2, 0, 0, 255), 2, 2, &mut out);
    assert_eq!(out.y(), &[82, 82, 82, 82]);
    assert_eq!(out.u(), &[90]);
    assert_eq!(out.v(), &[240]);

    // Pure blue: Y=((25*255+128)>>8)+16=41, U=((112*255+128)>>8)+128=240, V=(((-18)*255+128)>>8)+128=110
    bgra_to_i420(&solid_frame(2, 2, 255, 0, 0), 2, 2, &mut out);
    assert_eq!(out.y(), &[41, 41, 41, 41]);
    assert_eq!(out.u(), &[240]);
    assert_eq!(out.v(), &[110]);
}

#[test]
fn i420_subsamples_two_by_two_average() {
    // Top-left pixel red, rest black -> 2x2 block avg r=64 (rounded down by /4 sums)
    let mut data = solid_frame(2, 2, 0, 0, 0);
    data[2] = 255; // pixel(0,0): B=0 G=0 R=255
    let mut out = I420Frame::with_capacity(2, 2);
    bgra_to_i420(&data, 2, 2, &mut out);
    // avg r = (255+0+0+0)/4 = 63 -> Y from per-pixel path unaffected; V from avg
    let expect_v: u8 = (((112 * 63i32 + 128) >> 8) + 128) as u8;
    assert_eq!(out.v()[0], expect_v);
}

#[test]
fn i420_odd_dimensions_drop_tail_column_row() {
    // 3x3 input codes as 2x2 (odd tails dropped)
    let mut out = I420Frame::with_capacity(2, 2);
    bgra_to_i420(&solid_frame(3, 3, 10, 20, 30), 3, 3, &mut out);
    assert_eq!(out.dimensions(), (2, 2));
    assert_eq!(out.y().len(), 4);
    assert_eq!(out.u().len(), 1);
}

#[test]
fn i420_parallel_bands_match_serial_bit_exact() {
    // Gradient with enough pixels to cross the parallel threshold; convert it
    // in bands and at once and require identical planes.
    let (w, h) = (1930usize, 1082usize);
    let cw = w / 2;
    let ch = h / 2;
    let bgra = gradient(w, h);
    let stride = w * 4;

    let convert = |threads: usize| -> (Vec<u8>, Vec<u8>, Vec<u8>) {
        let mut y = vec![0u8; w * h];
        let mut u = vec![0u8; cw * ch];
        let mut v = vec![0u8; cw * ch];
        let band = band_rows(h, threads);
        let mut start = 0;
        while start < h {
            let end = (start + band).min(h);
            convert_band(
                &bgra,
                stride,
                w,
                start,
                end,
                &mut y[start * w..end * w],
                &mut u[start / 2 * cw..end / 2 * cw],
                &mut v[start / 2 * cw..end / 2 * cw],
            );
            start = end;
        }
        (y, u, v)
    };

    // 1 thread vs a many-band split that exercises ragged final bands.
    let serial = convert(1);
    let split = convert(7);
    assert_eq!(serial.0.len(), w * h);
    assert_eq!(serial.1.len(), cw * ch);
    assert_eq!(serial.0, split.0, "Y planes diverge");
    assert_eq!(serial.1, split.1, "U planes diverge");
    assert_eq!(serial.2, split.2, "V planes diverge");

    // the whole-frame conversions agree with both
    let mut one = I420Frame::with_capacity(2, 2);
    bgra_to_i420(&bgra, w as u32, h as u32, &mut one);
    let mut eight = I420Frame::with_capacity(2, 2);
    bgra_to_i420_in_bands(&bgra, w as u32, h as u32, 8, &mut eight);
    assert_eq!(one.y(), &serial.0[..]);
    assert_eq!(eight.y(), &serial.0[..]);
    assert_eq!(one.u(), eight.u());
    assert_eq!(one.v(), eight.v());
    assert_eq!(one.v(), &serial.2[..]);
}

#[test]
fn band_planning() {
    assert_eq!(band_threads(64, 48, 8), 1);
    assert_eq!(band_threads(1280, 720, 4), 4);
    assert_eq!(band_threads(1920, 1080, 32), 8);
    assert_eq!(band_threads(1920, 1080, 0), 1);
    assert_eq!(band_threads(921600, 2, 8), 1);
    assert_eq!(band_rows(1082, 7), 156);
    assert_eq!(band_rows(10, 3), 4);
    assert_eq!(band_rows(0, 3), 2);
}

#[test]
fn planes_follow_the_frame_size() {
    let mut out = I420Frame::with_capacity(8, 8);
    bgra_to_i420(&solid_frame(4, 6, 1, 2, 3), 4, 6, &mut out);
    assert_eq!(out.dimensions(), (4, 6));
    assert_eq!(out.strides(), (4, 2, 2));
    assert_eq!((out.y().len(), out.u().len(), out.v().len()), (24, 6, 6));
    // rows without height have nothing to convert
    bgra_to_i420(&[], 4, 0, &mut out);
    assert_eq!(out.dimensions(), (4, 0));
    assert!(out.y().is_empty());
}
