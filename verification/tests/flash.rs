use esp_s3_hal::hal::flash_collection::{
    check_model_blob, flash_window, manifest_count, model_address, parse_entries, rd_string,
    rd_u32, FlashWindow, ENTRY_SIZE, MAGIC, PLE1_MAGIC,
};

fn entry_bytes(name: &[u8], arm: &[u8], offset: u32, size: u32, ppl: f32) -> Vec<u8> {
    let mut e = vec![0u8; ENTRY_SIZE];
    e[..name.len()].copy_from_slice(name);
    e[32..32 + arm.len()].copy_from_slice(arm);
    let fields = [offset, size, 100, 64, 2, 4, 128, 16, 32, 32];
    for (i, f) in fields.iter().enumerate() {
        e[48 + 4 * i..52 + 4 * i].copy_from_slice(&f.to_le_bytes());
    }
    e[88..92].copy_from_slice(&ppl.to_bits().to_le_bytes());
    e[92..96].copy_from_slice(&12345u32.to_le_bytes());
    e
}

#[test]
fn rd_u32_is_little_endian() {
    assert_eq!(rd_u32(&[0x4C, 0x44, 0x4F, 0x4D, 9], 0), MAGIC);
    assert_eq!(rd_u32(&[0, 1, 0, 0, 0], 1), 1);
}

#[test]
fn rd_string_stops_at_nul() {
    assert_eq!(rd_string(b"tiny\0junk", 0, 9), "tiny");
    assert_eq!(rd_string(b"abcdef", 1, 3), "bcd");
    assert_eq!(rd_string(b"\0abc", 0, 4), "");
}

#[test]
fn rd_string_replaces_invalid_utf8() {
    assert_eq!(rd_string(&[b'a', 0xFF, b'b', 0], 0, 4), "a\u{FFFD}b");
}

#[test]
fn manifest_header_checks() {
    let mut hdr = MAGIC.to_le_bytes().to_vec();
    hdr.extend_from_slice(&3u32.to_le_bytes());
    assert_eq!(manifest_count(&hdr), Some(3));
    hdr[4..8].copy_from_slice(&0u32.to_le_bytes());
    assert_eq!(manifest_count(&hdr), None);
    hdr[4..8].copy_from_slice(&32u32.to_le_bytes());
    assert_eq!(manifest_count(&hdr), Some(32));
    hdr[4..8].copy_from_slice(&33u32.to_le_bytes());
    assert_eq!(manifest_count(&hdr), None);
    hdr[0] = 0;
    hdr[4..8].copy_from_slice(&1u32.to_le_bytes());
    assert_eq!(manifest_count(&hdr), None);
}

#[test]
fn parses_entries() {
    let mut buf = entry_bytes(b"ple-tiny", b"base", 4096, 2000, 12.5);
    buf.extend(entry_bytes(b"a-name-that-fills-all-32-bytes!!", b"arm-b", 8192, 3000, 3.25));
    let es = parse_entries(&buf, 2);
    assert_eq!(es.len(), 2);
    assert_eq!(es[0].name, "ple-tiny");
    assert_eq!(es[0].arm, "base");
    assert_eq!(es[0].offset, 4096);
    assert_eq!(es[0].size, 2000);
    assert_eq!(es[0].vocab, 100);
    assert_eq!(es[0].d_model, 64);
    assert_eq!(es[0].n_layers, 2);
    assert_eq!(es[0].n_heads, 4);
    assert_eq!(es[0].ffn_hidden, 128);
    assert_eq!(es[0].ple_dim, 16);
    assert_eq!(es[0].seq_len, 32);
    assert_eq!(es[0].group, 32);
    assert_eq!(f32::from_bits(es[0].val_ppl_bits), 12.5);
    assert_eq!(es[0].params, 12345);
    assert_eq!(es[1].name, "a-name-that-fills-all-32-bytes!!");
    assert_eq!(es[1].arm, "arm-b");
    assert_eq!(es[1].offset, 8192);
    assert_eq!(model_address(0x20000, &es[1]), 0x20000 + 8192);
}

#[test]
fn model_blob_magic() {
    let mut ok = PLE1_MAGIC.to_le_bytes().to_vec();
    ok.push(7);
    assert_eq!(check_model_blob(ok.clone()), Some(ok));
    assert_eq!(check_model_blob(vec![0x31, 0x45, 0x4C]), None);
    assert_eq!(check_model_blob(vec![0, 0, 0, 0, 0]), None);
}

#[test]
fn aligned_flash_window() {
    assert_eq!(flash_window(8, 10), Some(FlashWindow { read_offset: 8, read_len: 12, pad: 0 }));
    assert_eq!(flash_window(8, 8), Some(FlashWindow { read_offset: 8, read_len: 8, pad: 0 }));
}

#[test]
fn unaligned_flash_window() {
    // offset 5 lies one byte past the boundary at 4
    assert_eq!(flash_window(5, 4), Some(FlashWindow { read_offset: 4, read_len: 8, pad: 1 }));
    assert_eq!(flash_window(5, 1), Some(FlashWindow { read_offset: 4, read_len: 4, pad: 1 }));
    assert_eq!(flash_window(7, 1), Some(FlashWindow { read_offset: 4, read_len: 4, pad: 3 }));
    assert_eq!(flash_window(1, 3), Some(FlashWindow { read_offset: 0, read_len: 4, pad: 1 }));
    assert_eq!(flash_window(3, 2), Some(FlashWindow { read_offset: 0, read_len: 8, pad: 3 }));
}

#[test]
fn oversized_flash_window() {
    assert_eq!(flash_window(0, 0), Some(FlashWindow { read_offset: 0, read_len: 0, pad: 0 }));
    assert_eq!(
        flash_window(0, 4294967292),
        Some(FlashWindow { read_offset: 0, read_len: 4294967292, pad: 0 })
    );
    assert_eq!(flash_window(1, 4294967292), None);
    assert_eq!(flash_window(3, 4294967290), None);
}
