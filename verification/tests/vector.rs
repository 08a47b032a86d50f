//! Vector chunks.

use cinepak::codebook::CodebookEntry;
use cinepak::error::Result;
use cinepak::macroblocks::{
    InterMacroblocks, InterMb, MixedIntraCoding, MixedIntraMacroblocks, MixedIntraMb,
    MixedIntraRgbBlocks, V1OnlyMacroblocks,
};
use cinepak::vector::{
    Mb, VECTOR_CHUNK_INTER, VECTOR_CHUNK_INTRA, VECTOR_CHUNK_V1_ONLY, decode_vector_chunk,
    encode_inter_payload, encode_mixed_intra_payload, encode_v1_only_payload,
};
use cinepak::yuv::{expand_v1_mb_rgb, expand_v4_mb_rgb};

#[test]
fn decodes_v1_only() {
    let payload: Vec<u8> = (0..16).collect();
    let mbs = decode_vector_chunk(VECTOR_CHUNK_V1_ONLY, &payload, 16).unwrap();
    for (i, m) in mbs.iter().enumerate() {
        assert_eq!(*m, Mb::V1(i as u8));
    }
}

#[test]
fn decodes_mixed_intra_all_v4() {
    let mut payload = vec![0xff, 0xff, 0x00, 0x00];
    for i in 0..16 {
        payload.extend_from_slice(&[i as u8, i as u8 + 1, i as u8 + 2, i as u8 + 3]);
    }
    let mbs = decode_vector_chunk(VECTOR_CHUNK_INTRA, &payload, 16).unwrap();
    for (i, m) in mbs.iter().enumerate() {
        assert_eq!(*m, Mb::V4([i as u8, i as u8 + 1, i as u8 + 2, i as u8 + 3]));
    }
}

#[test]
fn decodes_checkerboard_intra() {
    let mut payload = vec![0x5a, 0x5a, 0x00, 0x00];
    let bits = [0, 1, 0, 1, 1, 0, 1, 0, 0, 1, 0, 1, 1, 0, 1, 0];
    for (i, &b) in bits.iter().enumerate() {
        if b == 0 {
            payload.push(i as u8);
        } else {
            payload.extend_from_slice(&[i as u8, 0xa0, 0xb0, 0xc0]);
        }
    }
    let mbs = decode_vector_chunk(VECTOR_CHUNK_INTRA, &payload, 16).unwrap();
    assert_eq!(mbs.len(), 16);
    for (i, &b) in bits.iter().enumerate() {
        match (b, &mbs[i]) {
            (0, Mb::V1(idx)) => assert_eq!(*idx, i as u8),
            (1, Mb::V4(idx)) => assert_eq!(idx[0], i as u8),
            _ => panic!("mismatch at {i}: {:?}", mbs[i]),
        }
    }
}

#[test]
fn decodes_inter_y8() {
    let payload = vec![0x80, 0x00, 0x00, 0x00, 0x42];
    let mbs = decode_vector_chunk(VECTOR_CHUNK_INTER, &payload, 16).unwrap();
    assert_eq!(mbs.len(), 16);
    assert_eq!(mbs[0], Mb::V1(0x42));
    for m in &mbs[1..] {
        assert_eq!(*m, Mb::Skip);
    }
}

#[test]
fn roundtrip_mixed_intra() {
    let mbs = vec![
        Mb::V1(10),
        Mb::V4([1, 2, 3, 4]),
        Mb::V1(20),
        Mb::V4([5, 6, 7, 8]),
    ];
    let mut buf = Vec::new();
    encode_mixed_intra_payload(&mbs, &mut buf).unwrap();
    let out = decode_vector_chunk(VECTOR_CHUNK_INTRA, &buf, mbs.len()).unwrap();
    assert_eq!(out, mbs);
}

#[test]
fn roundtrip_v1_only() {
    let mbs: Vec<Mb> = (0..16).map(|i| Mb::V1(i as u8)).collect();
    let mut buf = Vec::new();
    encode_v1_only_payload(&mbs, &mut buf).unwrap();
    let out = decode_vector_chunk(VECTOR_CHUNK_V1_ONLY, &buf, mbs.len()).unwrap();
    assert_eq!(out, mbs);
}

#[test]
fn roundtrip_inter_simple() {
    let mbs = vec![
        Mb::V1(0x42),
        Mb::Skip,
        Mb::Skip,
        Mb::V4([1, 2, 3, 4]),
        Mb::Skip,
    ];
    let mut buf = Vec::new();
    encode_inter_payload(&mbs, &mut buf).unwrap();
    let out = decode_vector_chunk(VECTOR_CHUNK_INTER, &buf, mbs.len()).unwrap();
    assert_eq!(out, mbs);
}

#[test]
fn roundtrip_inter_64mb() {
    let mut mbs = Vec::new();
    for i in 0..64 {
        mbs.push(match i % 5 {
            0 => Mb::Skip,
            1 => Mb::V1(i as u8),
            2 => Mb::V4([i as u8, i as u8 + 1, i as u8 + 2, i as u8 + 3]),
            3 => Mb::Skip,
            4 => Mb::V1((i * 2) as u8),
            _ => unreachable!(),
        });
    }
    let mut buf = Vec::new();
    encode_inter_payload(&mbs, &mut buf).unwrap();
    let out = decode_vector_chunk(VECTOR_CHUNK_INTER, &buf, mbs.len()).unwrap();
    assert_eq!(out, mbs);
}

#[test]
fn roundtrip_inter_all_skip_32() {
    let mbs = vec![Mb::Skip; 32];
    let mut buf = Vec::new();
    encode_inter_payload(&mbs, &mut buf).unwrap();
    assert_eq!(buf.len(), 4);
    let out = decode_vector_chunk(VECTOR_CHUNK_INTER, &buf, 32).unwrap();
    assert_eq!(out, mbs);
}

#[test]
fn v1only_iter_yields_indices_in_scan_order() {
    let payload: Vec<u8> = (0..16).collect();
    let mut it = V1OnlyMacroblocks::new(&payload, 16).unwrap();
    let entries: Vec<_> = std::iter::from_fn(|| it.next()).collect::<Result<Vec<_>>>().unwrap();
    assert_eq!(entries.len(), 16);
    for (i, e) in entries.iter().enumerate() {
        assert_eq!(e.index, i as u16);
        assert_eq!(e.codebook_index, i as u8);
    }
}

#[test]
fn v1only_iter_y6_fixture() {
    let payload: Vec<u8> = (0..16).collect();
    let it = V1OnlyMacroblocks::new(&payload, 16).unwrap();
    assert_eq!(it.cursor(), 0);
    assert_eq!(it.mb_count(), 16);
    assert_eq!(it.payload(), &payload[..]);

    let mut it = V1OnlyMacroblocks::new(&payload, 16).unwrap();
    let first = it.next().unwrap().unwrap();
    assert_eq!(first.index, 0);
    assert_eq!(first.codebook_index, 0);
    assert_eq!(it.cursor(), 1);
}

#[test]
fn v1only_iter_empty_strip() {
    let payload: Vec<u8> = Vec::new();
    let mut it = V1OnlyMacroblocks::new(&payload, 0).unwrap();
    assert!(it.next().is_none());
    assert!(it.next().is_none());
}

#[test]
fn v1only_iter_rejects_payload_short() {
    let payload: Vec<u8> = vec![0, 1, 2];
    let err = V1OnlyMacroblocks::new(&payload, 8).unwrap_err();
    let msg = err.to_string();
    assert!(
        msg.contains("0x3200") && msg.contains("payload"),
        "unexpected error message: {msg}"
    );
}

#[test]
fn v1only_iter_rejects_payload_long() {
    let payload: Vec<u8> = (0..20).collect();
    let err = V1OnlyMacroblocks::new(&payload, 16).unwrap_err();
    let msg = err.to_string();
    assert!(
        msg.contains("0x3200") && msg.contains("payload"),
        "unexpected error message: {msg}"
    );
}

#[test]
fn v1only_iter_size_hint_is_exact() {
    let payload: Vec<u8> = (0..16).collect();
    let mut it = V1OnlyMacroblocks::new(&payload, 16).unwrap();
    assert_eq!(it.size_hint(), (16, Some(16)));
    let _ = it.next().unwrap().unwrap();
    assert_eq!(it.size_hint(), (15, Some(15)));
    for _ in 0..15 {
        let _ = it.next().unwrap().unwrap();
    }
    assert_eq!(it.size_hint(), (0, Some(0)));
    assert!(it.next().is_none());
}

#[test]
fn v1only_iter_exact_size() {
    let payload: Vec<u8> = (0..16).collect();
    let it = V1OnlyMacroblocks::new(&payload, 16).unwrap();
    assert_eq!(it.len(), 16);
}

#[test]
fn v1only_iter_cursor_and_remaining() {
    let payload: Vec<u8> = (0..8).collect();
    let mut it = V1OnlyMacroblocks::new(&payload, 8).unwrap();
    assert_eq!(it.cursor(), 0);
    assert_eq!(it.remaining(), 8);
    let _ = it.next().unwrap().unwrap();
    assert_eq!(it.cursor(), 1);
    assert_eq!(it.remaining(), 7);
    let _ = it.next().unwrap().unwrap();
    let _ = it.next().unwrap().unwrap();
    assert_eq!(it.cursor(), 3);
    assert_eq!(it.remaining(), 5);
}

#[test]
fn v1only_iter_matches_decode_vector_chunk() {
    let payload: Vec<u8> = vec![0x10, 0x20, 0x30, 0x40, 0x50, 0x60, 0x70, 0x80];
    let bulk = decode_vector_chunk(VECTOR_CHUNK_V1_ONLY, &payload, 8).unwrap();
    let iter: Vec<_> = {
        let mut walk = V1OnlyMacroblocks::new(&payload, 8).unwrap();
        std::iter::from_fn(move || walk.next()).collect::<Result<Vec<_>>>().unwrap()
    };
    assert_eq!(bulk.len(), iter.len());
    for (i, (b, e)) in bulk.iter().zip(iter.iter()).enumerate() {
        match b {
            Mb::V1(idx) => assert_eq!(*idx, e.codebook_index, "mismatch at {i}"),
            _ => panic!("expected V1 for 0x3200 chunk at {i}, got {:?}", b),
        }
    }
}

#[test]
fn v1only_iter_y11_fixture_64mb() {
    let payload: Vec<u8> = (0..64).collect();
    let entries: Vec<_> = {
        let mut walk = V1OnlyMacroblocks::new(&payload, 64).unwrap();
        std::iter::from_fn(move || walk.next()).collect::<Result<Vec<_>>>().unwrap()
    };
    assert_eq!(entries.len(), 64);
    assert_eq!(entries[63].index, 63);
    assert_eq!(entries[63].codebook_index, 63);
}

#[test]
fn mixed_intra_iter_y9_all_v4() {
    let mut payload = vec![0xff, 0xff, 0x00, 0x00];
    for i in 0..16 {
        payload.extend_from_slice(&[i as u8, i as u8 + 1, i as u8 + 2, i as u8 + 3]);
    }
    let entries: Vec<_> = {
        let mut walk = MixedIntraMacroblocks::new(&payload, 16);
        std::iter::from_fn(move || walk.next()).collect::<Result<Vec<_>>>().unwrap()
    };
    assert_eq!(entries.len(), 16);
    for (i, e) in entries.iter().enumerate() {
        assert_eq!(e.index, i as u16);
        assert_eq!(
            e.kind,
            MixedIntraMb::V4([i as u8, i as u8 + 1, i as u8 + 2, i as u8 + 3]),
        );
    }
}

#[test]
fn mixed_intra_iter_y12_checkerboard() {
    let mut payload = vec![0x5a, 0x5a, 0x00, 0x00];
    let bits = [0, 1, 0, 1, 1, 0, 1, 0, 0, 1, 0, 1, 1, 0, 1, 0];
    for (i, &b) in bits.iter().enumerate() {
        if b == 0 {
            payload.push(i as u8);
        } else {
            payload.extend_from_slice(&[i as u8, 0xa0, 0xb0, 0xc0]);
        }
    }
    let entries: Vec<_> = {
        let mut walk = MixedIntraMacroblocks::new(&payload, 16);
        std::iter::from_fn(move || walk.next()).collect::<Result<Vec<_>>>().unwrap()
    };
    assert_eq!(entries.len(), 16);
    for (i, e) in entries.iter().enumerate() {
        assert_eq!(e.index, i as u16);
        match (bits[i], e.kind) {
            (0, MixedIntraMb::V1(idx)) => assert_eq!(idx, i as u8),
            (1, MixedIntraMb::V4(idx)) => assert_eq!(idx, [i as u8, 0xa0, 0xb0, 0xc0]),
            _ => panic!("mismatch at {i}: {:?}", e.kind),
        }
    }
}

#[test]
fn mixed_intra_iter_y14_two_groups_all_v4() {
    let mut payload = vec![0xff, 0xff, 0xff, 0xff];
    for i in 0..32u8 {
        payload.extend_from_slice(&[
            i,
            i.wrapping_add(1),
            i.wrapping_add(2),
            i.wrapping_add(3),
        ]);
    }
    payload.extend_from_slice(&[0xff, 0xff, 0xff, 0xff]);
    for i in 32..64u8 {
        payload.extend_from_slice(&[
            i,
            i.wrapping_add(1),
            i.wrapping_add(2),
            i.wrapping_add(3),
        ]);
    }
    let entries: Vec<_> = {
        let mut walk = MixedIntraMacroblocks::new(&payload, 64);
        std::iter::from_fn(move || walk.next()).collect::<Result<Vec<_>>>().unwrap()
    };
    assert_eq!(entries.len(), 64);
    for (i, e) in entries.iter().enumerate() {
        assert_eq!(e.index, i as u16);
        let b = i as u8;
        assert_eq!(
            e.kind,
            MixedIntraMb::V4([b, b.wrapping_add(1), b.wrapping_add(2), b.wrapping_add(3)]),
        );
    }
}

#[test]
fn mixed_intra_iter_all_v1() {
    let mut payload = vec![0x00, 0x00, 0x00, 0x00];
    payload.extend_from_slice(&(0u8..16).collect::<Vec<_>>());
    let entries: Vec<_> = {
        let mut walk = MixedIntraMacroblocks::new(&payload, 16);
        std::iter::from_fn(move || walk.next()).collect::<Result<Vec<_>>>().unwrap()
    };
    assert_eq!(entries.len(), 16);
    for (i, e) in entries.iter().enumerate() {
        assert_eq!(e.index, i as u16);
        assert_eq!(e.kind, MixedIntraMb::V1(i as u8));
    }
}

#[test]
fn mixed_intra_iter_empty_strip() {
    let payload: Vec<u8> = Vec::new();
    let mut it = MixedIntraMacroblocks::new(&payload, 0);
    assert!(it.next().is_none());
    assert!(it.next().is_none());
    assert_eq!(it.cursor(), 0);
    assert_eq!(it.remaining(), 0);
    assert_eq!(it.mb_count(), 0);
}

#[test]
fn mixed_intra_iter_truncated_flag_word_fuses() {
    let payload = vec![0xff, 0xff, 0xff];
    let mut it = MixedIntraMacroblocks::new(&payload, 1);
    let err = it.next().unwrap().unwrap_err();
    let msg = err.to_string();
    assert!(
        msg.contains("0x3000") && msg.contains("flag-word"),
        "unexpected error message: {msg}"
    );
    assert!(it.next().is_none(), "iterator must fuse on first error");
    assert!(it.next().is_none(), "fuse must hold across calls");
}

#[test]
fn mixed_intra_iter_truncated_v1_index_fuses() {
    let payload = vec![0x00, 0x00, 0x00, 0x00];
    let mut it = MixedIntraMacroblocks::new(&payload, 1);
    let err = it.next().unwrap().unwrap_err();
    let msg = err.to_string();
    assert!(
        msg.contains("0x3000") && msg.contains("V1-index"),
        "unexpected error message: {msg}"
    );
    assert!(it.next().is_none());
}

#[test]
fn mixed_intra_iter_truncated_v4_index_fuses() {
    let payload = vec![0x80, 0x00, 0x00, 0x00];
    let mut it = MixedIntraMacroblocks::new(&payload, 1);
    let err = it.next().unwrap().unwrap_err();
    let msg = err.to_string();
    assert!(
        msg.contains("0x3000") && msg.contains("V4-index"),
        "unexpected error message: {msg}"
    );
    assert!(it.next().is_none());
}

#[test]
fn mixed_intra_iter_size_hint_tracks_mb_count() {
    let mut payload = vec![0x00, 0x00, 0x00, 0x00];
    payload.extend_from_slice(&(0u8..16).collect::<Vec<_>>());
    let mut it = MixedIntraMacroblocks::new(&payload, 16);
    assert_eq!(it.size_hint(), (16, Some(16)));
    let _ = it.next().unwrap().unwrap();
    assert_eq!(it.size_hint(), (15, Some(15)));
    for _ in 0..15 {
        let _ = it.next().unwrap().unwrap();
    }
    assert_eq!(it.size_hint(), (0, Some(0)));
    assert!(it.next().is_none());
}

#[test]
fn mixed_intra_iter_cursor_advances() {
    let payload = vec![
        0x40, 0x00, 0x00, 0x00,
        0xaa,
        0x01, 0x02, 0x03, 0x04,
        0xbb,
        0xcc,
    ];
    let mut it = MixedIntraMacroblocks::new(&payload, 4);
    assert_eq!(it.cursor(), 0);
    assert_eq!(it.remaining(), 4);
    let e0 = it.next().unwrap().unwrap();
    assert_eq!(e0.kind, MixedIntraMb::V1(0xaa));
    assert_eq!(it.cursor(), 5);
    assert_eq!(it.remaining(), 3);
    let e1 = it.next().unwrap().unwrap();
    assert_eq!(e1.kind, MixedIntraMb::V4([0x01, 0x02, 0x03, 0x04]));
    assert_eq!(it.cursor(), 9);
    let e2 = it.next().unwrap().unwrap();
    assert_eq!(e2.kind, MixedIntraMb::V1(0xbb));
    let e3 = it.next().unwrap().unwrap();
    assert_eq!(e3.kind, MixedIntraMb::V1(0xcc));
    assert!(it.next().is_none());
    assert_eq!(it.cursor(), 11);
    assert_eq!(it.remaining(), 0);
}

#[test]
fn mixed_intra_iter_matches_decode_vector_chunk() {
    let mut payload = vec![0x5a, 0x5a, 0x00, 0x00];
    let bits = [0, 1, 0, 1, 1, 0, 1, 0, 0, 1, 0, 1, 1, 0, 1, 0];
    for (i, &b) in bits.iter().enumerate() {
        if b == 0 {
            payload.push(i as u8);
        } else {
            payload.extend_from_slice(&[i as u8, 0xa0, 0xb0, 0xc0]);
        }
    }
    let bulk = decode_vector_chunk(VECTOR_CHUNK_INTRA, &payload, 16).unwrap();
    let typed: Vec<_> = {
        let mut walk = MixedIntraMacroblocks::new(&payload, 16);
        std::iter::from_fn(move || walk.next()).collect::<Result<Vec<_>>>().unwrap()
    };
    assert_eq!(bulk.len(), typed.len());
    for (i, (b, e)) in bulk.iter().zip(typed.iter()).enumerate() {
        assert_eq!(e.index, i as u16, "index mismatch at {i}");
        match (b, e.kind) {
            (Mb::V1(bx), MixedIntraMb::V1(ex)) => assert_eq!(*bx, ex, "V1 idx at {i}"),
            (Mb::V4(bx), MixedIntraMb::V4(ex)) => assert_eq!(*bx, ex, "V4 idx at {i}"),
            _ => panic!("kind mismatch at {i}: bulk {:?}, typed {:?}", b, e.kind),
        }
    }
}

#[test]
fn mixed_intra_iter_group_boundary_at_32() {
    let mut payload = vec![0x00, 0x00, 0x00, 0x00];
    payload.extend_from_slice(&(0u8..32).collect::<Vec<_>>());
    payload.extend_from_slice(&[0x80, 0x00, 0x00, 0x00]);
    payload.extend_from_slice(&[0x10, 0x20, 0x30, 0x40]);
    let entries: Vec<_> = {
        let mut walk = MixedIntraMacroblocks::new(&payload, 33);
        std::iter::from_fn(move || walk.next()).collect::<Result<Vec<_>>>().unwrap()
    };
    assert_eq!(entries.len(), 33);
    for (i, entry) in entries.iter().enumerate().take(32) {
        assert_eq!(entry.kind, MixedIntraMb::V1(i as u8));
    }
    assert_eq!(entries[32].kind, MixedIntraMb::V4([0x10, 0x20, 0x30, 0x40]));
}

#[test]
fn inter_iter_y8_one_v1_plus_skips() {
    let payload = vec![0x80, 0x00, 0x00, 0x00, 0x42];
    let entries: Vec<_> = {
        let mut walk = InterMacroblocks::new(&payload, 16);
        std::iter::from_fn(move || walk.next()).collect::<Result<Vec<_>>>().unwrap()
    };
    assert_eq!(entries.len(), 16);
    assert_eq!(entries[0].index, 0);
    assert_eq!(entries[0].kind, InterMb::V1(0x42));
    for (i, e) in entries.iter().enumerate().skip(1) {
        assert_eq!(e.index, i as u16);
        assert_eq!(e.kind, InterMb::Skip);
    }
}

#[test]
fn inter_iter_y10_two_groups() {
    let payload = vec![
        0x80, 0x00, 0x00, 0x00,
        0x77,
        0x00, 0x00, 0x00, 0x00,
    ];
    let entries: Vec<_> = {
        let mut walk = InterMacroblocks::new(&payload, 32);
        std::iter::from_fn(move || walk.next()).collect::<Result<Vec<_>>>().unwrap()
    };
    assert_eq!(entries.len(), 32);
    assert_eq!(entries[0].kind, InterMb::V1(0x77));
    for e in entries.iter().skip(1) {
        assert_eq!(e.kind, InterMb::Skip);
    }
}

#[test]
fn inter_iter_all_skip_32() {
    let payload = vec![0x00, 0x00, 0x00, 0x00];
    let entries: Vec<_> = {
        let mut walk = InterMacroblocks::new(&payload, 32);
        std::iter::from_fn(move || walk.next()).collect::<Result<Vec<_>>>().unwrap()
    };
    assert_eq!(entries.len(), 32);
    for (i, e) in entries.iter().enumerate() {
        assert_eq!(e.index, i as u16);
        assert_eq!(e.kind, InterMb::Skip);
    }
}

#[test]
fn inter_iter_one_v4_plus_skips() {
    let payload = vec![
        0xc0, 0x00, 0x00, 0x00,
        0xde, 0xad, 0xbe, 0xef,
    ];
    let entries: Vec<_> = {
        let mut walk = InterMacroblocks::new(&payload, 15);
        std::iter::from_fn(move || walk.next()).collect::<Result<Vec<_>>>().unwrap()
    };
    assert_eq!(entries.len(), 15);
    assert_eq!(entries[0].kind, InterMb::V4([0xde, 0xad, 0xbe, 0xef]));
    for e in entries.iter().skip(1) {
        assert_eq!(e.kind, InterMb::Skip);
    }
}

#[test]
fn inter_iter_empty_strip() {
    let payload: Vec<u8> = Vec::new();
    let mut it = InterMacroblocks::new(&payload, 0);
    assert!(it.next().is_none());
    assert!(it.next().is_none());
    assert_eq!(it.cursor(), 0);
    assert_eq!(it.remaining(), 0);
    assert_eq!(it.mb_count(), 0);
}

#[test]
fn inter_iter_truncated_flag_word_fuses() {
    let payload = vec![0xff, 0xff, 0xff];
    let mut it = InterMacroblocks::new(&payload, 1);
    let err = it.next().unwrap().unwrap_err();
    let msg = err.to_string();
    assert!(
        msg.contains("0x3100") && msg.contains("flag-word"),
        "unexpected error message: {msg}"
    );
    assert!(it.next().is_none(), "iterator must fuse on first error");
    assert!(it.next().is_none(), "fuse must hold across calls");
}

#[test]
fn inter_iter_truncated_v1_index_fuses() {
    let payload = vec![0x80, 0x00, 0x00, 0x00];
    let mut it = InterMacroblocks::new(&payload, 1);
    let err = it.next().unwrap().unwrap_err();
    let msg = err.to_string();
    assert!(
        msg.contains("0x3100") && msg.contains("V1-index"),
        "unexpected error message: {msg}"
    );
    assert!(it.next().is_none());
}

#[test]
fn inter_iter_truncated_v4_index_fuses() {
    let payload = vec![0xc0, 0x00, 0x00, 0x00];
    let mut it = InterMacroblocks::new(&payload, 1);
    let err = it.next().unwrap().unwrap_err();
    let msg = err.to_string();
    assert!(
        msg.contains("0x3100") && msg.contains("V4-index"),
        "unexpected error message: {msg}"
    );
    assert!(it.next().is_none());
}

#[test]
fn inter_iter_size_hint_tracks_mb_count() {
    let payload = vec![0x00, 0x00, 0x00, 0x00];
    let mut it = InterMacroblocks::new(&payload, 32);
    assert_eq!(it.size_hint(), (32, Some(32)));
    let _ = it.next().unwrap().unwrap();
    assert_eq!(it.size_hint(), (31, Some(31)));
    for _ in 0..31 {
        let _ = it.next().unwrap().unwrap();
    }
    assert_eq!(it.size_hint(), (0, Some(0)));
    assert!(it.next().is_none());
}

#[test]
fn inter_iter_cursor_advances() {
    let payload = vec![
        0xb0, 0x00, 0x00, 0x00,
        0xaa,
        0x01, 0x02, 0x03, 0x04,
    ];
    let mut it = InterMacroblocks::new(&payload, 4);
    assert_eq!(it.cursor(), 0);
    assert_eq!(it.remaining(), 4);
    let e0 = it.next().unwrap().unwrap();
    assert_eq!(e0.kind, InterMb::V1(0xaa));
    assert_eq!(it.cursor(), 9);
    let e1 = it.next().unwrap().unwrap();
    assert_eq!(e1.kind, InterMb::V4([0x01, 0x02, 0x03, 0x04]));
    let e2 = it.next().unwrap().unwrap();
    assert_eq!(e2.kind, InterMb::Skip);
    let e3 = it.next().unwrap().unwrap();
    assert_eq!(e3.kind, InterMb::Skip);
    assert!(it.next().is_none());
    assert_eq!(it.remaining(), 0);
}

#[test]
fn inter_iter_matches_decode_vector_chunk() {
    let mut mbs: Vec<Mb> = Vec::new();
    for i in 0..64 {
        mbs.push(match i % 5 {
            0 => Mb::Skip,
            1 => Mb::V1(i as u8),
            2 => Mb::V4([i as u8, i as u8 + 1, i as u8 + 2, i as u8 + 3]),
            3 => Mb::Skip,
            4 => Mb::V1((i * 2) as u8),
            _ => unreachable!(),
        });
    }
    let mut buf = Vec::new();
    encode_inter_payload(&mbs, &mut buf).unwrap();
    let bulk = decode_vector_chunk(VECTOR_CHUNK_INTER, &buf, mbs.len()).unwrap();
    let typed: Vec<_> = {
        let mut walk = InterMacroblocks::new(&buf, mbs.len());
        std::iter::from_fn(move || walk.next()).collect::<Result<Vec<_>>>().unwrap()
    };
    assert_eq!(bulk.len(), typed.len());
    for (i, (b, e)) in bulk.iter().zip(typed.iter()).enumerate() {
        assert_eq!(e.index, i as u16, "index mismatch at {i}");
        match (b, e.kind) {
            (Mb::Skip, InterMb::Skip) => {}
            (Mb::V1(bx), InterMb::V1(ex)) => assert_eq!(*bx, ex, "V1 idx at {i}"),
            (Mb::V4(bx), InterMb::V4(ex)) => assert_eq!(*bx, ex, "V4 idx at {i}"),
            _ => panic!("kind mismatch at {i}: bulk {:?}, typed {:?}", b, e.kind),
        }
    }
}

#[test]
fn inter_iter_selector_straddles_group_boundary() {
    let mut mbs = vec![Mb::Skip; 31];
    mbs.push(Mb::V1(0xbe));
    mbs.push(Mb::Skip);
    let mut buf = Vec::new();
    encode_inter_payload(&mbs, &mut buf).unwrap();
    let typed: Vec<_> = {
        let mut walk = InterMacroblocks::new(&buf, mbs.len());
        std::iter::from_fn(move || walk.next()).collect::<Result<Vec<_>>>().unwrap()
    };
    let bulk = decode_vector_chunk(VECTOR_CHUNK_INTER, &buf, mbs.len()).unwrap();
    assert_eq!(typed.len(), mbs.len());
    for (i, (b, e)) in bulk.iter().zip(typed.iter()).enumerate() {
        match (b, e.kind) {
            (Mb::Skip, InterMb::Skip) => {}
            (Mb::V1(bx), InterMb::V1(ex)) => assert_eq!(*bx, ex, "V1 idx at {i}"),
            (Mb::V4(bx), InterMb::V4(ex)) => assert_eq!(*bx, ex, "V4 idx at {i}"),
            _ => panic!("mismatch at {i}: bulk {:?}, typed {:?}", b, e.kind),
        }
    }
}

fn sample_v1_book() -> Vec<CodebookEntry> {
    vec![
        CodebookEntry::from_yuv(72, 72, 72, 72, -37, 91),
        CodebookEntry::from_yuv(145, 145, 145, 145, -73, -73),
        CodebookEntry::from_yuv(50, 100, 150, 200, -36, 39),
    ]
}

fn sample_v4_book() -> Vec<CodebookEntry> {
    vec![
        CodebookEntry::from_yuv(16, 30, 72, 86, -37, 91),
        CodebookEntry::from_yuv(40, 54, 96, 110, -73, -73),
        CodebookEntry::from_yuv(128, 142, 156, 170, 109, -19),
        CodebookEntry::from_yuv(156, 170, 212, 226, 0, 0),
    ]
}

#[test]
fn rgb_blocks_all_v1_positions_and_pixels() {
    let v1 = sample_v1_book();
    let v4 = sample_v4_book();
    let payload = vec![0x00, 0x00, 0x00, 0x00, 0, 1, 2, 0];
    let blocks: Vec<_> = {
        let mut walk = MixedIntraRgbBlocks::new(&payload, &v1, &v4, 2, 4).unwrap();
        std::iter::from_fn(move || walk.next()).collect::<Result<Vec<_>>>().unwrap()
    };
    assert_eq!(blocks.len(), 4);
    let expect_pos = [(0u16, 0u16), (1, 0), (0, 1), (1, 1)];
    let idx = [0usize, 1, 2, 0];
    for (k, b) in blocks.iter().enumerate() {
        assert_eq!(b.index, k as u16);
        assert_eq!((b.mb_col, b.mb_row), expect_pos[k]);
        assert_eq!(b.pixel_col, 4 * expect_pos[k].0 as u32);
        assert_eq!(b.pixel_row, 4 * expect_pos[k].1 as u32);
        assert_eq!(b.coding, MixedIntraCoding::V1);
        assert_eq!(b.rgb, expand_v1_mb_rgb(&v1[idx[k]]));
    }
    assert_eq!(blocks[0].rgb[0][0], [254, 0, 0]);
}

#[test]
fn rgb_blocks_all_v4() {
    let v1 = sample_v1_book();
    let v4 = sample_v4_book();
    let payload = vec![
        0xc0, 0x00, 0x00, 0x00,
        0, 1, 2, 3,
        3, 2, 1, 0,
    ];
    let blocks: Vec<_> = {
        let mut walk = MixedIntraRgbBlocks::new(&payload, &v1, &v4, 2, 2).unwrap();
        std::iter::from_fn(move || walk.next()).collect::<Result<Vec<_>>>().unwrap()
    };
    assert_eq!(blocks.len(), 2);
    assert_eq!(blocks[0].coding, MixedIntraCoding::V4);
    let quad0 = [v4[0], v4[1], v4[2], v4[3]];
    let quad1 = [v4[3], v4[2], v4[1], v4[0]];
    assert_eq!(blocks[0].rgb, expand_v4_mb_rgb(&quad0));
    assert_eq!(blocks[1].rgb, expand_v4_mb_rgb(&quad1));
}

#[test]
fn rgb_blocks_mixed_v1_v4() {
    let v1 = sample_v1_book();
    let v4 = sample_v4_book();
    let payload = vec![
        0x40, 0x00, 0x00, 0x00,
        1,
        0, 1, 2, 3,
        2,
    ];
    let blocks: Vec<_> = {
        let mut walk = MixedIntraRgbBlocks::new(&payload, &v1, &v4, 3, 3).unwrap();
        std::iter::from_fn(move || walk.next()).collect::<Result<Vec<_>>>().unwrap()
    };
    assert_eq!(blocks.len(), 3);
    assert_eq!(blocks[0].coding, MixedIntraCoding::V1);
    assert_eq!(blocks[0].rgb, expand_v1_mb_rgb(&v1[1]));
    assert_eq!(blocks[1].coding, MixedIntraCoding::V4);
    assert_eq!(
        blocks[1].rgb,
        expand_v4_mb_rgb(&[v4[0], v4[1], v4[2], v4[3]])
    );
    assert_eq!(blocks[2].coding, MixedIntraCoding::V1);
    assert_eq!(blocks[2].rgb, expand_v1_mb_rgb(&v1[2]));
}

#[test]
fn rgb_blocks_grayscale_identity() {
    let v1 = vec![CodebookEntry::from_y(50, 100, 150, 200)];
    let v4: Vec<CodebookEntry> = Vec::new();
    let payload = vec![0x00, 0x00, 0x00, 0x00, 0];
    let blocks: Vec<_> = {
        let mut walk = MixedIntraRgbBlocks::new(&payload, &v1, &v4, 1, 1).unwrap();
        std::iter::from_fn(move || walk.next()).collect::<Result<Vec<_>>>().unwrap()
    };
    assert_eq!(blocks[0].rgb[0][0], [50, 50, 50]);
    assert_eq!(blocks[0].rgb[3][3], [200, 200, 200]);
}

#[test]
fn rgb_blocks_v1_index_out_of_range_fuses() {
    let v1 = sample_v1_book();
    let v4 = sample_v4_book();
    let payload = vec![0x00, 0x00, 0x00, 0x00, 0, 99];
    let mut it = MixedIntraRgbBlocks::new(&payload, &v1, &v4, 2, 2).unwrap();
    assert!(it.next().unwrap().is_ok());
    assert!(it.next().unwrap().is_err());
    assert!(it.next().is_none());
}

#[test]
fn rgb_blocks_v4_index_out_of_range_fuses() {
    let v1 = sample_v1_book();
    let v4 = sample_v4_book();
    let payload = vec![0x80, 0x00, 0x00, 0x00, 0, 1, 2, 200];
    let mut it = MixedIntraRgbBlocks::new(&payload, &v1, &v4, 1, 1).unwrap();
    assert!(it.next().unwrap().is_err());
    assert!(it.next().is_none());
}

#[test]
fn rgb_blocks_truncated_payload_fuses() {
    let v1 = sample_v1_book();
    let v4 = sample_v4_book();
    let payload = vec![0x00, 0x00, 0x00, 0x00, 0];
    let mut it = MixedIntraRgbBlocks::new(&payload, &v1, &v4, 2, 2).unwrap();
    assert!(it.next().unwrap().is_ok());
    assert!(it.next().unwrap().is_err());
    assert!(it.next().is_none());
}

#[test]
fn rgb_blocks_zero_cols_rejected() {
    let v1 = sample_v1_book();
    let v4 = sample_v4_book();
    assert!(MixedIntraRgbBlocks::new(&[], &v1, &v4, 0, 0).is_err());
}

#[test]
fn rgb_blocks_match_manual_composition() {
    let v1 = sample_v1_book();
    let v4 = sample_v4_book();
    let payload = vec![
        0x40, 0x00, 0x00, 0x00,
        0,
        1, 2, 3, 0,
        2,
        1,
    ];
    let resolved: Vec<_> = {
        let mut walk = MixedIntraRgbBlocks::new(&payload, &v1, &v4, 2, 4).unwrap();
        std::iter::from_fn(move || walk.next()).collect::<Result<Vec<_>>>().unwrap()
    };
    let indexed: Vec<_> = {
        let mut walk = MixedIntraMacroblocks::new(&payload, 4);
        std::iter::from_fn(move || walk.next()).collect::<Result<Vec<_>>>().unwrap()
    };
    assert_eq!(resolved.len(), indexed.len());
    for (r, e) in resolved.iter().zip(indexed.iter()) {
        assert_eq!(r.index, e.index);
        let expect = match e.kind {
            MixedIntraMb::V1(i) => expand_v1_mb_rgb(&v1[i as usize]),
            MixedIntraMb::V4(q) => expand_v4_mb_rgb(&[
                v4[q[0] as usize],
                v4[q[1] as usize],
                v4[q[2] as usize],
                v4[q[3] as usize],
            ]),
        };
        assert_eq!(r.rgb, expect);
    }
}
