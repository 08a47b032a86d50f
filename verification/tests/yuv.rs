//! Colours and macroblocks.

use cinepak::codebook::CodebookEntry;
use cinepak::yuv::{expand_v1_mb_rgb, expand_v4_mb_rgb, yuv_to_rgb};

#[test]
fn m1_red() {
    let (r, g, b) = yuv_to_rgb(72, -37, 91);
    assert_eq!((r, g, b), (254, 0, 0));
}

#[test]
fn m2_green_discriminates_truncation_toward_zero() {
    let (r, g, b) = yuv_to_rgb(145, -73, -73);
    assert_eq!((r, g, b), (0, 254, 0));
}

#[test]
fn m3_blue() {
    let (r, g, b) = yuv_to_rgb(36, 109, -19);
    assert_eq!((r, g, b), (0, 1, 254));
}

#[test]
fn m7_white() {
    let (r, g, b) = yuv_to_rgb(255, 0, 0);
    assert_eq!((r, g, b), (255, 255, 255));
}

#[test]
fn m8_black() {
    let (r, g, b) = yuv_to_rgb(0, 0, 0);
    assert_eq!((r, g, b), (0, 0, 0));
}

#[test]
fn m9_mid_gray() {
    let (r, g, b) = yuv_to_rgb(128, 0, 0);
    assert_eq!((r, g, b), (128, 128, 128));
}

#[test]
fn m13_positive_odd_u_truncation() {
    let (r, g, b) = yuv_to_rgb(100, 45, 13);
    assert_eq!((r, g, b), (126, 65, 190));
}

#[test]
fn m10_off_primary() {
    let (r, g, b) = yuv_to_rgb(121, -36, 39);
    assert_eq!((r, g, b), (199, 100, 49));
}

#[test]
fn clamp_negative_to_zero() {
    let (r, _, _) = yuv_to_rgb(10, 0, -100);
    assert_eq!(r, 0);
}

#[test]
fn clamp_above_255() {
    let (r, _, _) = yuv_to_rgb(200, 0, 100);
    assert_eq!(r, 255);
}

#[test]
fn v1_mb_rgb_quadrant_layout_with_shared_chroma() {
    let q_tl = yuv_to_rgb(50, -36, 39);
    let q_tr = yuv_to_rgb(100, -36, 39);
    let q_bl = yuv_to_rgb(150, -36, 39);
    let q_br = yuv_to_rgb(200, -36, 39);
    let tl = [q_tl.0, q_tl.1, q_tl.2];
    let tr = [q_tr.0, q_tr.1, q_tr.2];
    let bl = [q_bl.0, q_bl.1, q_bl.2];
    let br = [q_br.0, q_br.1, q_br.2];
    let e = CodebookEntry::from_yuv(50, 100, 150, 200, -36, 39);
    assert_eq!(
        expand_v1_mb_rgb(&e),
        [
            [tl, tl, tr, tr],
            [tl, tl, tr, tr],
            [bl, bl, br, br],
            [bl, bl, br, br],
        ]
    );
    let red = CodebookEntry::from_yuv(72, 72, 72, 72, -37, 91);
    assert_eq!(expand_v1_mb_rgb(&red)[0][0], [254, 0, 0]);
}

#[test]
fn v1_mb_rgb_grayscale_identity() {
    let e = CodebookEntry::from_y(50, 100, 150, 200);
    let out = expand_v1_mb_rgb(&e);
    assert_eq!(out[0][0], [50, 50, 50]);
    assert_eq!(out[0][3], [100, 100, 100]);
    assert_eq!(out[3][0], [150, 150, 150]);
    assert_eq!(out[3][3], [200, 200, 200]);
}

#[test]
fn v4_mb_rgb_subblock_layout_with_per_subblock_chroma() {
    let e0 = CodebookEntry::from_yuv(16, 30, 72, 86, -37, 91);
    let e1 = CodebookEntry::from_yuv(40, 54, 96, 110, -73, -73);
    let e2 = CodebookEntry::from_yuv(128, 142, 156, 170, 109, -19);
    let e3 = CodebookEntry::from_yuv(156, 170, 212, 226, 0, 0);
    let quad = [e0, e1, e2, e3];
    let out = expand_v4_mb_rgb(&quad);
    assert_eq!(out[0][0], rgb(yuv_to_rgb(16, -37, 91)));
    assert_eq!(out[1][1], rgb(yuv_to_rgb(86, -37, 91)));
    assert_eq!(out[0][2], rgb(yuv_to_rgb(40, -73, -73)));
    assert_eq!(out[2][0], rgb(yuv_to_rgb(128, 109, -19)));
    assert_eq!(out[3][3], rgb(yuv_to_rgb(226, 0, 0)));
}

#[test]
fn v4_uniform_quad_differs_from_v1() {
    let e = CodebookEntry::from_yuv(10, 90, 170, 250, 20, -20);
    let v1 = expand_v1_mb_rgb(&e);
    let v4 = expand_v4_mb_rgb(&[e; 4]);
    assert_eq!(v1[0][0], v4[0][0]);
    assert_ne!(v1[0][1], v4[0][1]);
    assert_ne!(v1[1][0], v4[1][0]);
}

#[test]
fn v4_mb_rgb_grayscale_identity() {
    let quad = [
        CodebookEntry::from_y(0, 16, 32, 48),
        CodebookEntry::from_y(64, 80, 96, 112),
        CodebookEntry::from_y(128, 144, 160, 176),
        CodebookEntry::from_y(192, 208, 224, 240),
    ];
    let out = expand_v4_mb_rgb(&quad);
    assert_eq!(out[0][0], [0, 0, 0]);
    assert_eq!(out[1][1], [48, 48, 48]);
    assert_eq!(out[3][3], [240, 240, 240]);
}

#[test]
fn matches_decoder_strided_write() {
    let e = CodebookEntry::from_yuv(72, 130, 200, 40, -36, 39);
    let block = expand_v1_mb_rgb(&e);
    for (row, px_row) in block.iter().enumerate() {
        for (col, px) in px_row.iter().enumerate() {
            let yi = match (row / 2, col / 2) {
                (0, 0) => e.y0,
                (0, 1) => e.y1,
                (1, 0) => e.y2,
                _ => e.y3,
            };
            assert_eq!(*px, rgb(yuv_to_rgb(yi, e.u, e.v)));
        }
    }
}

fn rgb(t: (u8, u8, u8)) -> [u8; 3] {
    [t.0, t.1, t.2]
}
