use esp_s3_hal::hal::micromodel::{int4_code, scale_bits, load, LoadError, ModelConfig, Span, Weight, HEADER_LEN, MAGIC};

fn push_i32(b: &mut Vec<u8>, v: i32) {
    b.extend_from_slice(&v.to_le_bytes());
}

fn push_quant(b: &mut Vec<u8>, rows: usize, cols: usize, group: usize) {
    push_i32(b, group as i32);
    let codes = rows * ((cols + 1) / 2);
    for i in 0..codes {
        b.push(i as u8);
    }
    let scales = rows * ((cols + group - 1) / group) * 2;
    for _ in 0..scales {
        b.push(0x3c);
    }
}

fn push_fp32(b: &mut Vec<u8>, n: usize) {
    for _ in 0..n {
        b.extend_from_slice(&1.0f32.to_le_bytes());
    }
}

/// vocab 2, d_model 2, one layer, one head, ffn 2, ple 2, seq 4, group 2.
fn header() -> Vec<u8> {
    let mut b = Vec::new();
    b.extend_from_slice(&MAGIC.to_le_bytes());
    for v in [2, 2, 1, 1, 2, 2, 4, 2] {
        push_i32(&mut b, v);
    }
    b.extend_from_slice(&10000.0f32.to_bits().to_le_bytes());
    b
}

fn tiny_model() -> Vec<u8> {
    let mut b = header();
    push_quant(&mut b, 2, 2, 2); // tok_emb
    push_quant(&mut b, 2, 2, 2); // ple_model_proj
    push_fp32(&mut b, 2); // ple_proj_norm
    push_quant(&mut b, 2, 2, 2); // ple_table
    push_fp32(&mut b, 2); // attn_norm
    push_quant(&mut b, 6, 2, 2); // qkv
    push_quant(&mut b, 2, 2, 2); // proj
    push_fp32(&mut b, 2); // ffn_norm
    push_quant(&mut b, 2, 2, 2); // ffn_gate
    push_quant(&mut b, 2, 2, 2); // ffn_up
    push_quant(&mut b, 2, 2, 2); // ffn_down
    push_quant(&mut b, 2, 2, 2); // ple_gate
    push_quant(&mut b, 2, 2, 2); // ple_proj
    push_fp32(&mut b, 2); // ple_norm
    push_fp32(&mut b, 2); // out_norm
    b
}

#[test]
fn loads_tiny_model() {
    let blob = tiny_model();
    let len = blob.len();
    let m = load(blob).expect("valid blob");
    assert_eq!(
        m.cfg,
        ModelConfig {
            vocab_size: 2,
            d_model: 2,
            n_layers: 1,
            n_heads: 1,
            ffn_hidden: 2,
            ple_dim: 2,
            seq_len: 4,
            group: 2,
            rope_theta_bits: 10000.0f32.to_bits(),
        }
    );
    assert_eq!(m.cfg.head_dim(), 2);
    assert_eq!(
        m.tok_emb,
        Weight::Quant {
            codes: Span { start: 44, len: 2 },
            scales: Span { start: 46, len: 4 },
            rows: 2,
            cols: 2,
            group: 2,
        }
    );
    assert_eq!(m.ple_model_proj.quant_dims(), (2, 2, 2));
    assert_eq!(m.ple_proj_norm, Weight::Fp32 { data: Span { start: 60, len: 8 } });
    assert_eq!(m.ple_proj_norm.quant_dims(), (0, 0, 0));
    assert_eq!(m.layers.len(), 1);
    assert_eq!(m.layers[0].qkv.quant_dims(), (6, 2, 2));
    assert_eq!(m.out_norm, Weight::Fp32 { data: Span { start: len - 8, len: 8 } });
    assert_eq!(m.blob.len(), len);
}

#[test]
fn every_tensor_lies_in_the_blob() {
    let blob = tiny_model();
    let len = blob.len();
    let m = load(blob).unwrap();
    let mut ws = vec![m.tok_emb, m.ple_model_proj, m.ple_proj_norm, m.ple_table, m.out_norm];
    for l in &m.layers {
        ws.extend_from_slice(&[
            l.attn_norm, l.qkv, l.proj, l.ffn_norm, l.ffn_gate, l.ffn_up, l.ffn_down, l.ple_gate,
            l.ple_proj, l.ple_norm,
        ]);
    }
    for w in ws {
        match w {
            Weight::Quant { codes, scales, .. } => {
                assert!(codes.start + codes.len <= len);
                assert!(scales.start + scales.len <= len);
            }
            Weight::Fp32 { data } => {
                assert!(data.start + data.len <= len);
                assert_eq!(data.len % 4, 0);
            }
        }
    }
}

#[test]
fn trailing_bytes_are_allowed() {
    let mut blob = tiny_model();
    blob.extend_from_slice(&[9, 9, 9]);
    assert!(load(blob).is_ok());
}

#[test]
fn blob_too_small() {
    let blob = header()[..39].to_vec();
    assert_eq!(load(blob).err(), Some(LoadError::BlobTooSmall));
    assert_eq!(LoadError::BlobTooSmall.message(), "blob too small");
}

#[test]
fn bad_magic() {
    let mut blob = tiny_model();
    blob[0] ^= 1;
    assert_eq!(load(blob).err(), Some(LoadError::BadMagic));
    assert_eq!(LoadError::BadMagic.message(), "bad magic");
}

#[test]
fn truncated_fp32() {
    let mut blob = tiny_model();
    blob.pop();
    assert_eq!(load(blob).err(), Some(LoadError::TruncFp32));
    assert_eq!(LoadError::TruncFp32.message(), "trunc fp32");
}

#[test]
fn truncated_codes() {
    let blob = tiny_model()[..HEADER_LEN + 5].to_vec();
    assert_eq!(load(blob).err(), Some(LoadError::TruncCodes));
    assert_eq!(LoadError::TruncCodes.message(), "trunc codes");
}

#[test]
fn truncated_scales() {
    let blob = tiny_model()[..HEADER_LEN + 7].to_vec();
    assert_eq!(load(blob).err(), Some(LoadError::TruncScales));
    assert_eq!(LoadError::TruncScales.message(), "trunc scales");
}

#[test]
fn header_without_tensors_is_malformed() {
    assert_eq!(load(header()).err(), Some(LoadError::Malformed));
}

#[test]
fn zero_group_is_malformed() {
    let mut blob = tiny_model();
    blob[40..44].copy_from_slice(&0i32.to_le_bytes());
    assert_eq!(load(blob).err(), Some(LoadError::Malformed));
}

#[test]
fn zero_layers_model() {
    let mut b = Vec::new();
    b.extend_from_slice(&MAGIC.to_le_bytes());
    for v in [1, 2, 0, 1, 2, 2, 4, 2] {
        push_i32(&mut b, v);
    }
    push_i32(&mut b, 0);
    push_quant(&mut b, 1, 2, 2); // tok_emb
    push_quant(&mut b, 0, 2, 2); // ple_model_proj (0 rows)
    push_fp32(&mut b, 2);
    push_quant(&mut b, 1, 0, 2); // ple_table (0 cols)
    push_fp32(&mut b, 2);
    let m = load(b).unwrap();
    assert_eq!(m.layers.len(), 0);
    assert_eq!(m.ple_table.quant_dims(), (1, 0, 2));
}

#[test]
fn int4_codes_unpack_low_then_high() {
    let codes = [0x8Fu8, 0x70];
    assert_eq!(int4_code(&codes, 0), 7);
    assert_eq!(int4_code(&codes, 1), 0);
    assert_eq!(int4_code(&codes, 2), -8);
    assert_eq!(int4_code(&codes, 3), -1);
}

#[test]
fn scale_bits_are_little_endian() {
    assert_eq!(scale_bits(&[0x00, 0x3c, 0x01, 0x02], 0), 0x3c00);
    assert_eq!(scale_bits(&[0x00, 0x3c, 0x01, 0x02], 1), 0x0201);
}
