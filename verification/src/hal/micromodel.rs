//! PLE1 micromodel loader: parses the flat binary artifact into a model
//! configuration and the byte spans of its weight tensors.
//!
//! Format: [magic u32] [8x i32 config] [f32 rope_theta] [tensors...]
//! Quant tensor: [i32 group] [int4 packed bytes] [fp16 scales]
//! FP32 tensor: [raw f32 bytes]
//!
//! All integers are little-endian. The weights stay in the blob; a loaded
//! model records where each tensor lies in it. The floating-point inference
//! that reads those tensors is not part of this module.
use vstd::prelude::*;
use crate::hal::flash_collection::{le_u32, rd_u32};

verus! {

/// PLE1 magic number.
pub const MAGIC: u32 = 0x504C4531;

/// Length of the fixed header: magic, eight config fields, rope theta.
pub const HEADER_LEN: usize = 40;

/// Why a blob could not be loaded.
#[derive(Debug, Clone, Copy, PartialEq, Eq)]
pub enum LoadError {
    /// Shorter than the 40-byte header.
    BlobTooSmall,
    /// The first word is not the PLE1 magic.
    BadMagic,
    /// The packed codes of a quantized tensor run past the end.
    TruncCodes,
    /// The scales of a quantized tensor run past the end.
    TruncScales,
    /// An fp32 tensor runs past the end.
    TruncFp32,
    /// The blob describes a layout that cannot be read at all: a group
    /// header past the end, a zero group, or a size beyond the address
    /// range. Loading such a blob is a program error, not a recoverable one.
    Malformed,
}

impl LoadError {
    /// The message the loader reports for a recoverable error.
    pub fn message(&self) -> (r: &'static str)
        ensures
            *self == LoadError::BlobTooSmall ==> r@ == "blob too small"@,
            *self == LoadError::BadMagic ==> r@ == "bad magic"@,
            *self == LoadError::TruncCodes ==> r@ == "trunc codes"@,
            *self == LoadError::TruncScales ==> r@ == "trunc scales"@,
            *self == LoadError::TruncFp32 ==> r@ == "trunc fp32"@,
            *self == LoadError::Malformed ==> r@ == "malformed model blob"@,
    {
        match self {
            LoadError::BlobTooSmall => "blob too small",
            LoadError::BadMagic => "bad magic",
            LoadError::TruncCodes => "trunc codes",
            LoadError::TruncScales => "trunc scales",
            LoadError::TruncFp32 => "trunc fp32",
            LoadError::Malformed => "malformed model blob",
        }
    }
}

/// Parsed PLE1 model configuration. `rope_theta_bits` holds the IEEE-754
/// bit pattern of the f32 rope theta.
#[derive(Clone, Copy, Debug, PartialEq, Eq)]
pub struct ModelConfig {
    pub vocab_size: usize,
    pub d_model: usize,
    pub n_layers: usize,
    pub n_heads: usize,
    pub ffn_hidden: usize,
    pub ple_dim: usize,
    pub seq_len: usize,
    pub group: usize,
    pub rope_theta_bits: u32,
}

impl ModelConfig {
    /// Width of one attention head.
    pub fn head_dim(&self) -> (r: usize)
        requires
            self.n_heads != 0,
        ensures
            r == self.d_model / self.n_heads,
    {
        self.d_model / self.n_heads
    }
}

/// A run of bytes in the model blob.
#[derive(Clone, Copy, Debug, PartialEq, Eq)]
pub struct Span {
    pub start: usize,
    pub len: usize,
}

/// A weight tensor: int4 codes with fp16 group scales, or raw fp32 values.
#[derive(Clone, Copy, Debug, PartialEq, Eq)]
pub enum Weight {
    Quant { codes: Span, scales: Span, rows: usize, cols: usize, group: usize },
    /// `data.len` is four bytes per value.
    Fp32 { data: Span },
}

impl Weight {
    /// Rows, columns and group size of a quantized tensor; zeros otherwise.
    pub fn quant_dims(&self) -> (r: (usize, usize, usize))
        ensures
            (match *self {
                Weight::Quant { rows, cols, group, .. } => r == (rows, cols, group),
                Weight::Fp32 { .. } => r == (0usize, 0usize, 0usize),
            }),
    {
        match self {
            Weight::Quant { rows, cols, group, .. } => (*rows, *cols, *group),
            Weight::Fp32 { .. } => (0, 0, 0),
        }
    }
}

/// The weights of one transformer layer.
#[derive(Clone, Copy, Debug, PartialEq, Eq)]
pub struct LayerWeights {
    pub attn_norm: Weight,
    pub qkv: Weight,
    pub proj: Weight,
    pub ffn_norm: Weight,
    pub ffn_gate: Weight,
    pub ffn_up: Weight,
    pub ffn_down: Weight,
    pub ple_gate: Weight,
    pub ple_proj: Weight,
    pub ple_norm: Weight,
}

/// Parsed model: the configuration, the blob and the span of every tensor.
pub struct Model {
    pub cfg: ModelConfig,
    pub tok_emb: Weight,
    pub ple_model_proj: Weight,
    pub ple_proj_norm: Weight,
    pub ple_table: Weight,
    pub out_norm: Weight,
    pub layers: Vec<LayerWeights>,
    pub blob: Vec<u8>,
}

/// The mathematical content of a loaded model.
pub struct ModelView {
    pub cfg: ModelConfig,
    pub tok_emb: Weight,
    pub ple_model_proj: Weight,
    pub ple_proj_norm: Weight,
    pub ple_table: Weight,
    pub out_norm: Weight,
    pub layers: Seq<LayerWeights>,
    pub blob: Seq<u8>,
}

impl View for Model {
    type V = ModelView;

    open spec fn view(&self) -> ModelView {
        ModelView {
            cfg: self.cfg,
            tok_emb: self.tok_emb,
            ple_model_proj: self.ple_model_proj,
            ple_proj_norm: self.ple_proj_norm,
            ple_table: self.ple_table,
            out_norm: self.out_norm,
            layers: self.layers@,
            blob: self.blob@,
        }
    }
}

// ─── byte-level reading ─────────────────────────────

/// The little-endian i32 at `off`, read as a usize the way a size field is.
pub open spec fn size_field(b: Seq<u8>, off: int) -> usize {
    ((le_u32(b, off) as u32) as i32) as usize
}

/// Reads the little-endian i32 at `off`.
pub fn rd_i32(buf: &[u8], off: usize) -> (r: i32)
    requires
        off + 4 <= buf@.len(),
    ensures
        r == (le_u32(buf@, off as int) as u32) as i32,
{
    rd_u32(buf, off) as i32
}

/// The configuration that the header of `b` describes.
pub open spec fn spec_config(b: Seq<u8>) -> ModelConfig {
    ModelConfig {
        vocab_size: size_field(b, 4),
        d_model: size_field(b, 8),
        n_layers: size_field(b, 12),
        n_heads: size_field(b, 16),
        ffn_hidden: size_field(b, 20),
        ple_dim: size_field(b, 24),
        seq_len: size_field(b, 28),
        group: size_field(b, 32),
        rope_theta_bits: le_u32(b, 36) as u32,
    }
}

// ─── tensor layout ──────────────────────────────────

/// The shape of the next tensor in the blob. Dimensions are products of
/// config fields and may exceed the address range.
pub enum Shape {
    Quant(int, int),
    Fp32(int),
}

/// Reads the quantized tensor of `rows` x `cols` at `pos`: the group header,
/// then `rows * ceil(cols / 2)` code bytes, then two scale bytes per row and
/// group.
pub open spec fn quant_at(b: Seq<u8>, pos: usize, rows: int, cols: int) -> Result<
    (Weight, usize),
    LoadError,
> {
    let max = usize::MAX as int;
    if rows < 0 || cols < 0 || rows > max || cols > max || pos + 4 > b.len() {
        Err(LoadError::Malformed)
    } else {
        let group = size_field(b, pos as int) as int;
        let start = pos + 4;
        if cols + 1 > max {
            Err(LoadError::Malformed)
        } else {
            let cl = rows * ((cols + 1) / 2);
            if cl > max || start + cl > max {
                Err(LoadError::Malformed)
            } else if start + cl > b.len() {
                Err(LoadError::TruncCodes)
            } else {
                let sstart = start + cl;
                if cols + group > max || cols + group < 1 || group == 0 {
                    Err(LoadError::Malformed)
                } else {
                    let sl = rows * ((cols + group - 1) / group) * 2;
                    if sl > max || sstart + sl > max {
                        Err(LoadError::Malformed)
                    } else if sstart + sl > b.len() {
                        Err(LoadError::TruncScales)
                    } else {
                        Ok(
                            (
                                Weight::Quant {
                                    codes: Span { start: start as usize, len: cl as usize },
                                    scales: Span { start: sstart as usize, len: sl as usize },
                                    rows: rows as usize,
                                    cols: cols as usize,
                                    group: group as usize,
                                },
                                (sstart + sl) as usize,
                            ),
                        )
                    }
                }
            }
        }
    }
}

/// Reads the fp32 tensor of `n` values at `pos`.
pub open spec fn fp32_at(b: Seq<u8>, pos: usize, n: int) -> Result<(Weight, usize), LoadError> {
    let max = usize::MAX as int;
    if n < 0 || n * 4 > max || pos + n * 4 > max {
        Err(LoadError::Malformed)
    } else if pos + n * 4 > b.len() {
        Err(LoadError::TruncFp32)
    } else {
        Ok((Weight::Fp32 { data: Span { start: pos, len: (n * 4) as usize } }, (pos + n * 4) as usize))
    }
}

/// Reads the tensor of shape `s` at `pos`.
#[verifier::opaque]
pub open spec fn tensor_at(b: Seq<u8>, pos: usize, s: Shape) -> Result<(Weight, usize), LoadError> {
    match s {
        Shape::Quant(rows, cols) => quant_at(b, pos, rows, cols),
        Shape::Fp32(n) => fp32_at(b, pos, n),
    }
}

/// Reads one more tensor after those already read.
pub open spec fn then_read(
    prev: Result<(Seq<Weight>, usize), LoadError>,
    b: Seq<u8>,
    s: Shape,
) -> Result<(Seq<Weight>, usize), LoadError> {
    match prev {
        Err(e) => Err(e),
        Ok((ws, p)) => match tensor_at(b, p, s) {
            Err(e) => Err(e),
            Ok((w, q)) => Ok((ws.push(w), q)),
        },
    }
}

/// The shapes of the four tensors after the header: token embedding, PLE
/// model projection, PLE projection norm, PLE table.
#[verifier::opaque]
pub open spec fn head_tensors(b: Seq<u8>, pos: usize, c: ModelConfig) -> Result<
    (Seq<Weight>, usize),
    LoadError,
> {
    let lp = c.n_layers * c.ple_dim;
    let r0 = Ok((Seq::empty(), pos));
    let r1 = then_read(r0, b, Shape::Quant(c.vocab_size as int, c.d_model as int));
    let r2 = then_read(r1, b, Shape::Quant(lp, c.d_model as int));
    let r3 = then_read(r2, b, Shape::Fp32(c.ple_dim as int));
    then_read(r3, b, Shape::Quant(c.vocab_size as int, lp))
}

/// The ten tensors of one layer, in blob order.
#[verifier::opaque]
pub open spec fn layer_tensors(b: Seq<u8>, pos: usize, c: ModelConfig) -> Result<
    (Seq<Weight>, usize),
    LoadError,
> {
    let d = c.d_model as int;
    let h = c.ffn_hidden as int;
    let p = c.ple_dim as int;
    let r0 = Ok((Seq::empty(), pos));
    let r1 = then_read(r0, b, Shape::Fp32(d));
    let r2 = then_read(r1, b, Shape::Quant(3 * d, d));
    let r3 = then_read(r2, b, Shape::Quant(d, d));
    let r4 = then_read(r3, b, Shape::Fp32(d));
    let r5 = then_read(r4, b, Shape::Quant(h, d));
    let r6 = then_read(r5, b, Shape::Quant(h, d));
    let r7 = then_read(r6, b, Shape::Quant(d, h));
    let r8 = then_read(r7, b, Shape::Quant(p, d));
    let r9 = then_read(r8, b, Shape::Quant(d, p));
    then_read(r9, b, Shape::Fp32(d))
}

/// Gathers ten weights into a layer.
pub open spec fn as_layer(ws: Seq<Weight>) -> LayerWeights {
    LayerWeights {
        attn_norm: ws[0],
        qkv: ws[1],
        proj: ws[2],
        ffn_norm: ws[3],
        ffn_gate: ws[4],
        ffn_up: ws[5],
        ffn_down: ws[6],
        ple_gate: ws[7],
        ple_proj: ws[8],
        ple_norm: ws[9],
    }
}

/// Reads the first `k` layers starting at `pos`.
pub open spec fn layers_at(b: Seq<u8>, pos: usize, c: ModelConfig, k: nat) -> Result<
    (Seq<LayerWeights>, usize),
    LoadError,
>
    decreases k,
{
    if k == 0 {
        Ok((Seq::empty(), pos))
    } else {
        match layers_at(b, pos, c, (k - 1) as nat) {
            Err(e) => Err(e),
            Ok((ls, p)) => match layer_tensors(b, p, c) {
                Err(e) => Err(e),
                Ok((ws, q)) => Ok((ls.push(as_layer(ws)), q)),
            },
        }
    }
}

/// What loading the blob `b` yields.
pub open spec fn spec_load(b: Seq<u8>) -> Result<ModelView, LoadError> {
    if b.len() < HEADER_LEN {
        Err(LoadError::BlobTooSmall)
    } else if le_u32(b, 0) != MAGIC {
        Err(LoadError::BadMagic)
    } else {
        let c = spec_config(b);
        match head_tensors(b, HEADER_LEN, c) {
            Err(e) => Err(e),
            Ok((hw, p)) => match layers_at(b, p, c, c.n_layers as nat) {
                Err(e) => Err(e),
                Ok((ls, q)) => match tensor_at(b, q, Shape::Fp32(c.d_model as int)) {
                    Err(e) => Err(e),
                    Ok((out, _r)) => Ok(
                        ModelView {
                            cfg: c,
                            tok_emb: hw[0],
                            ple_model_proj: hw[1],
                            ple_proj_norm: hw[2],
                            ple_table: hw[3],
                            out_norm: out,
                            layers: ls,
                            blob: b,
                        },
                    ),
                },
            },
        }
    }
}


// ─── int4 codes ─────────────────────────────────────

/// The signed int4 code of column `j` in a row of packed codes: the low
/// nibble for even columns, the high nibble for odd ones, offset by 8.
pub open spec fn spec_int4_code(codes: Seq<u8>, j: int) -> int {
    let byte = codes[j / 2] as int;
    (if j % 2 == 0 { byte % 16 } else { byte / 16 }) - 8
}

/// Reads the signed int4 code of column `j` from a row of packed codes.
pub fn int4_code(codes: &[u8], j: usize) -> (c: i8)
    requires
        j / 2 < codes@.len(),
    ensures
        c == spec_int4_code(codes@, j as int),
        -8 <= c <= 7,
{
    let b = codes[j / 2];
    let nib = if j & 1 == 0 { b & 0x0F } else { (b >> 4) & 0x0F };
    assert(j & 1 == j % 2) by (bit_vector);
    assert(b & 0x0F == b % 16) by (bit_vector);
    assert((b >> 4) & 0x0F == b / 16) by (bit_vector);
    nib as i8 - 8
}

/// The fp16 bit pattern of the scale of group `gi` in a row of scales.
pub fn scale_bits(scales: &[u8], gi: usize) -> (h: u16)
    requires
        gi * 2 + 1 < scales@.len(),
    ensures
        h == scales@[gi * 2] + scales@[gi * 2 + 1] * 256,
{
    let n = scales.len();
    assert(gi * 2 + 1 < n);
    (scales[gi * 2] as u16) + (scales[gi * 2 + 1] as u16) * 256
}

// ─── loader ─────────────────────────────────────────

/// Reads the quantized tensor of `rows` x `cols` at `pos`.
fn read_quant(b: &[u8], pos: usize, rows: usize, cols: usize) -> (r: Result<(Weight, usize), LoadError>)
    requires
        pos <= b@.len(),
    ensures
        r == tensor_at(b@, pos, Shape::Quant(rows as int, cols as int)),
        r matches Ok((_, q)) ==> pos <= q <= b@.len(),
{
    reveal(tensor_at);
    if b.len() - pos < 4 {
        return Err(LoadError::Malformed);
    }
    let group = rd_i32(b, pos) as usize;
    let start = pos + 4;
    if cols == usize::MAX {
        return Err(LoadError::Malformed);
    }
    let rb = (cols + 1) / 2;
    let cl = match rows.checked_mul(rb) {
        Some(v) => v,
        None => return Err(LoadError::Malformed),
    };
    let cend = match start.checked_add(cl) {
        Some(v) => v,
        None => return Err(LoadError::Malformed),
    };
    if cend > b.len() {
        return Err(LoadError::TruncCodes);
    }
    let gsum = match cols.checked_add(group) {
        Some(v) => v,
        None => return Err(LoadError::Malformed),
    };
    if gsum == 0 || group == 0 {
        return Err(LoadError::Malformed);
    }
    let ng = (gsum - 1) / group;
    let rng = match rows.checked_mul(ng) {
        Some(v) => v,
        None => return Err(LoadError::Malformed),
    };
    let sl = match rng.checked_mul(2) {
        Some(v) => v,
        None => return Err(LoadError::Malformed),
    };
    let send = match cend.checked_add(sl) {
        Some(v) => v,
        None => return Err(LoadError::Malformed),
    };
    if send > b.len() {
        return Err(LoadError::TruncScales);
    }
    Ok(
        (
            Weight::Quant {
                codes: Span { start, len: cl },
                scales: Span { start: cend, len: sl },
                rows,
                cols,
                group,
            },
            send,
        ),
    )
}

/// Reads the fp32 tensor of `n` values at `pos`.
fn read_fp32(b: &[u8], pos: usize, n: usize) -> (r: Result<(Weight, usize), LoadError>)
    requires
        pos <= b@.len(),
    ensures
        r == tensor_at(b@, pos, Shape::Fp32(n as int)),
        r matches Ok((_, q)) ==> pos <= q <= b@.len(),
{
    reveal(tensor_at);
    let nb = match n.checked_mul(4) {
        Some(v) => v,
        None => return Err(LoadError::Malformed),
    };
    let end = match pos.checked_add(nb) {
        Some(v) => v,
        None => return Err(LoadError::Malformed),
    };
    if end > b.len() {
        return Err(LoadError::TruncFp32);
    }
    Ok((Weight::Fp32 { data: Span { start: pos, len: nb } }, end))
}

/// Reads the ten tensors of one layer at `pos`.
fn read_layer(b: &[u8], pos: usize, c: &ModelConfig) -> (r: Result<(LayerWeights, usize), LoadError>)
    requires
        pos <= b@.len(),
    ensures
        match layer_tensors(b@, pos, *c) {
            Err(e) => r == Err::<(LayerWeights, usize), LoadError>(e),
            Ok((ws, q)) => r == Ok::<(LayerWeights, usize), LoadError>((as_layer(ws), q)),
        },
        r matches Ok((_, q)) ==> pos <= q <= b@.len(),
{
    reveal(layer_tensors);
    let d = c.d_model;
    let h = c.ffn_hidden;
    let p = c.ple_dim;
    let ghost r0 = Ok::<(Seq<Weight>, usize), LoadError>((Seq::empty(), pos));
    let (attn_norm, p1) = match read_fp32(b, pos, d) {
        Ok(x) => x,
        Err(e) => return Err(e),
    };
    let ghost w1 = seq![attn_norm];
    assert(then_read(r0, b@, Shape::Fp32(d as int)) == Ok::<(Seq<Weight>, usize), LoadError>((w1, p1)));
    let d3 = match 3usize.checked_mul(d) {
        Some(v) => v,
        None => {
            proof {
                lemma_oversized_quant(b@, p1, 3 * d, d as int);
            }
            return Err(LoadError::Malformed);
        },
    };
    let (qkv, p2) = match read_quant(b, p1, d3, d) {
        Ok(x) => x,
        Err(e) => return Err(e),
    };
    let ghost w2 = w1.push(qkv);
    let (proj, p3) = match read_quant(b, p2, d, d) {
        Ok(x) => x,
        Err(e) => return Err(e),
    };
    let ghost w3 = w2.push(proj);
    let (ffn_norm, p4) = match read_fp32(b, p3, d) {
        Ok(x) => x,
        Err(e) => return Err(e),
    };
    let ghost w4 = w3.push(ffn_norm);
    let (ffn_gate, p5) = match read_quant(b, p4, h, d) {
        Ok(x) => x,
        Err(e) => return Err(e),
    };
    let ghost w5 = w4.push(ffn_gate);
    let (ffn_up, p6) = match read_quant(b, p5, h, d) {
        Ok(x) => x,
        Err(e) => return Err(e),
    };
    let ghost w6 = w5.push(ffn_up);
    let (ffn_down, p7) = match read_quant(b, p6, d, h) {
        Ok(x) => x,
        Err(e) => return Err(e),
    };
    let ghost w7 = w6.push(ffn_down);
    let (ple_gate, p8) = match read_quant(b, p7, p, d) {
        Ok(x) => x,
        Err(e) => return Err(e),
    };
    let ghost w8 = w7.push(ple_gate);
    let (ple_proj, p9) = match read_quant(b, p8, d, p) {
        Ok(x) => x,
        Err(e) => return Err(e),
    };
    let ghost w9 = w8.push(ple_proj);
    let (ple_norm, p10) = match read_fp32(b, p9, d) {
        Ok(x) => x,
        Err(e) => return Err(e),
    };
    let ghost w10 = w9.push(ple_norm);
    let layer = LayerWeights {
        attn_norm,
        qkv,
        proj,
        ffn_norm,
        ffn_gate,
        ffn_up,
        ffn_down,
        ple_gate,
        ple_proj,
        ple_norm,
    };
    assert(layer_tensors(b@, pos, *c) == Ok::<(Seq<Weight>, usize), LoadError>((w10, p10)));
    assert(as_layer(w10) == layer);
    Ok((layer, p10))
}

/// A quantized tensor whose row count exceeds the address range cannot be read.
proof fn lemma_oversized_quant(b: Seq<u8>, pos: usize, rows: int, cols: int)
    requires
        rows > usize::MAX,
    ensures
        tensor_at(b, pos, Shape::Quant(rows, cols)) == Err::<(Weight, usize), LoadError>(
            LoadError::Malformed,
        ),
{
    reveal(tensor_at);
}

/// Once reading the first `k1` layers fails, reading more fails the same way.
proof fn lemma_layers_err_persists(b: Seq<u8>, pos: usize, c: ModelConfig, k1: nat, k2: nat)
    requires
        k1 <= k2,
        layers_at(b, pos, c, k1) is Err,
    ensures
        layers_at(b, pos, c, k2) == layers_at(b, pos, c, k1),
    decreases k2,
{
    if k2 > k1 {
        lemma_layers_err_persists(b, pos, c, k1, (k2 - 1) as nat);
    }
}

/// Parses a PLE1 binary blob into a model. The result is exactly
/// `spec_load` of the blob: on success the model keeps the blob and records
/// the span of each tensor, each tensor having the shape of its role;
/// otherwise the first failing check is reported.
pub fn load(blob: Vec<u8>) -> (r: Result<Model, LoadError>)
    ensures
        match spec_load(blob@) {
            Ok(m) => r matches Ok(model) && model@ == m,
            Err(e) => r matches Err(e2) && e2 == e,
        },
        r matches Ok(model) ==> model_shaped(model@) && model_in_order(model@),
{
    proof {
        lemma_loaded_model_shaped(blob@);
        lemma_loaded_model_in_order(blob@);
    }
    if blob.len() < HEADER_LEN {
        return Err(LoadError::BlobTooSmall);
    }
    reveal(head_tensors);
    let b = blob.as_slice();
    let magic = rd_u32(b, 0);
    if magic != MAGIC {
        return Err(LoadError::BadMagic);
    }
    let cfg = ModelConfig {
        vocab_size: rd_i32(b, 4) as usize,
        d_model: rd_i32(b, 8) as usize,
        n_layers: rd_i32(b, 12) as usize,
        n_heads: rd_i32(b, 16) as usize,
        ffn_hidden: rd_i32(b, 20) as usize,
        ple_dim: rd_i32(b, 24) as usize,
        seq_len: rd_i32(b, 28) as usize,
        group: rd_i32(b, 32) as usize,
        rope_theta_bits: rd_u32(b, 36),
    };
    assert(cfg == spec_config(b@));
    let (tok_emb, p1) = match read_quant(b, HEADER_LEN, cfg.vocab_size, cfg.d_model) {
        Ok(x) => x,
        Err(e) => return Err(e),
    };
    let lp = match cfg.n_layers.checked_mul(cfg.ple_dim) {
        Some(v) => v,
        None => {
            proof {
                lemma_oversized_quant(b@, p1, cfg.n_layers * cfg.ple_dim, cfg.d_model as int);
            }
            return Err(LoadError::Malformed);
        },
    };
    let (ple_model_proj, p2) = match read_quant(b, p1, lp, cfg.d_model) {
        Ok(x) => x,
        Err(e) => return Err(e),
    };
    let (ple_proj_norm, p3) = match read_fp32(b, p2, cfg.ple_dim) {
        Ok(x) => x,
        Err(e) => return Err(e),
    };
    let (ple_table, p4) = match read_quant(b, p3, cfg.vocab_size, lp) {
        Ok(x) => x,
        Err(e) => return Err(e),
    };
    let ghost hw = Seq::<Weight>::empty().push(tok_emb).push(ple_model_proj).push(ple_proj_norm).push(
        ple_table,
    );
    assert(head_tensors(b@, HEADER_LEN, cfg) == Ok::<(Seq<Weight>, usize), LoadError>((hw, p4)));
    let mut layers: Vec<LayerWeights> = Vec::new();
    let mut pos = p4;
    let mut i: usize = 0;
    while i < cfg.n_layers
        invariant
            i <= cfg.n_layers,
            pos <= b@.len(),
            b@ == blob@,
            b@.len() >= HEADER_LEN,
            le_u32(b@, 0) == MAGIC,
            cfg == spec_config(b@),
            head_tensors(b@, HEADER_LEN, cfg) == Ok::<(Seq<Weight>, usize), LoadError>((hw, p4)),
            layers_at(b@, p4, cfg, i as nat) == Ok::<(Seq<LayerWeights>, usize), LoadError>(
                (layers@, pos),
            ),
        decreases cfg.n_layers - i,
    {
        match read_layer(b, pos, &cfg) {
            Ok((layer, q)) => {
                layers.push(layer);
                pos = q;
            },
            Err(e) => {
                proof {
                    assert(layers_at(b@, p4, cfg, (i + 1) as nat) == Err::<
                        (Seq<LayerWeights>, usize),
                        LoadError,
                    >(e));
                    lemma_layers_err_persists(b@, p4, cfg, (i + 1) as nat, cfg.n_layers as nat);
                }
                return Err(e);
            },
        }
        i = i + 1;
    }
    let (out_norm, _end) = match read_fp32(b, pos, cfg.d_model) {
        Ok(x) => x,
        Err(e) => return Err(e),
    };
    Ok(
        Model {
            cfg,
            tok_emb,
            ple_model_proj,
            ple_proj_norm,
            ple_table,
            out_norm,
            layers,
            blob,
        },
    )
}


// ─── laws ───────────────────────────────────────────

/// Every byte span of `w` ends within the first `n` bytes, and a quantized
/// tensor's spans hold exactly its codes (two per byte, per row) and its
/// scales (two bytes per row and group, with a non-zero group).
pub open spec fn weight_within(w: Weight, n: int) -> bool {
    match w {
        Weight::Quant { codes, scales, rows, cols, group } => {
            &&& codes.start + codes.len <= n
            &&& scales.start + scales.len <= n
            &&& group > 0
            &&& codes.len == rows * ((cols as int + 1) / 2)
            &&& scales.len == rows * ((cols as int + group as int - 1) / (group as int)) * 2
        },
        Weight::Fp32 { data } => data.start + data.len <= n && data.len % 4 == 0,
    }
}

/// Every tensor of layer `l` lies within the first `n` bytes.
pub open spec fn layer_within(l: LayerWeights, n: int) -> bool {
    &&& weight_within(l.attn_norm, n)
    &&& weight_within(l.qkv, n)
    &&& weight_within(l.proj, n)
    &&& weight_within(l.ffn_norm, n)
    &&& weight_within(l.ffn_gate, n)
    &&& weight_within(l.ffn_up, n)
    &&& weight_within(l.ffn_down, n)
    &&& weight_within(l.ple_gate, n)
    &&& weight_within(l.ple_proj, n)
    &&& weight_within(l.ple_norm, n)
}

/// Every tensor of the model lies within its blob.
pub open spec fn model_within_blob(m: ModelView) -> bool {
    let n = m.blob.len() as int;
    &&& weight_within(m.tok_emb, n)
    &&& weight_within(m.ple_model_proj, n)
    &&& weight_within(m.ple_proj_norm, n)
    &&& weight_within(m.ple_table, n)
    &&& weight_within(m.out_norm, n)
    &&& forall|i: int| 0 <= i < m.layers.len() ==> layer_within(#[trigger] m.layers[i], n)
}

proof fn lemma_tensor_within(b: Seq<u8>, pos: usize, s: Shape)
    ensures
        tensor_at(b, pos, s) matches Ok((w, q)) ==> weight_within(w, b.len() as int) && pos <= q
            <= b.len(),
{
    reveal(tensor_at);
    if let Shape::Fp32(n) = s {
        assert((n * 4) % 4 == 0) by (nonlinear_arith);
    }
}

proof fn lemma_then_read_within(b: Seq<u8>)
    ensures
        forall|prev: Result<(Seq<Weight>, usize), LoadError>, s: Shape|
            (prev matches Ok((ws, p)) && p <= b.len() && (forall|i: int|
                0 <= i < ws.len() ==> weight_within(#[trigger] ws[i], b.len() as int)))
                ==> (#[trigger] then_read(prev, b, s) matches Ok((ws2, q)) && q <= b.len()
                && ws2.len() == prev->Ok_0.0.len() + 1 && (forall|i: int|
                0 <= i < ws2.len() ==> weight_within(#[trigger] ws2[i], b.len() as int)))
                || then_read(prev, b, s) is Err,
{
    assert forall|prev: Result<(Seq<Weight>, usize), LoadError>, s: Shape|
        (prev matches Ok((ws, p)) && p <= b.len() && (forall|i: int|
            0 <= i < ws.len() ==> weight_within(#[trigger] ws[i], b.len() as int))) implies (
    #[trigger] then_read(prev, b, s) matches Ok((ws2, q)) && q <= b.len() && ws2.len()
        == prev->Ok_0.0.len() + 1 && (forall|i: int|
        0 <= i < ws2.len() ==> weight_within(#[trigger] ws2[i], b.len() as int)))
        || then_read(prev, b, s) is Err by {
        let (ws, p) = prev->Ok_0;
        lemma_tensor_within(b, p, s);
    }
}

proof fn lemma_layer_tensors_within(b: Seq<u8>, pos: usize, c: ModelConfig)
    requires
        pos <= b.len(),
    ensures
        layer_tensors(b, pos, c) matches Ok((ws, q)) ==> q <= b.len() && ws.len() == 10
            && layer_within(as_layer(ws), b.len() as int),
{
    reveal(layer_tensors);
    lemma_then_read_within(b);
    if let Ok((ws, q)) = layer_tensors(b, pos, c) {
        assert(weight_within(ws[0], b.len() as int));
        assert(weight_within(ws[1], b.len() as int));
        assert(weight_within(ws[2], b.len() as int));
        assert(weight_within(ws[3], b.len() as int));
        assert(weight_within(ws[4], b.len() as int));
        assert(weight_within(ws[5], b.len() as int));
        assert(weight_within(ws[6], b.len() as int));
        assert(weight_within(ws[7], b.len() as int));
        assert(weight_within(ws[8], b.len() as int));
        assert(weight_within(ws[9], b.len() as int));
    }
}

proof fn lemma_layers_within(b: Seq<u8>, pos: usize, c: ModelConfig, k: nat)
    requires
        pos <= b.len(),
    ensures
        layers_at(b, pos, c, k) matches Ok((ls, q)) ==> q <= b.len() && ls.len() == k && (
        forall|i: int| 0 <= i < ls.len() ==> layer_within(#[trigger] ls[i], b.len() as int)),
    decreases k,
{
    if k > 0 {
        lemma_layers_within(b, pos, c, (k - 1) as nat);
        if let Ok((ls, p)) = layers_at(b, pos, c, (k - 1) as nat) {
            lemma_layer_tensors_within(b, p, c);
        }
    }
}

/// Law: every tensor of a successfully loaded model lies inside the blob it
/// was loaded from, every fp32 tensor spans a whole number of values, and
/// every quantized tensor spans exactly the codes and scales of its shape.
pub proof fn lemma_loaded_model_within_blob(b: Seq<u8>)
    ensures
        spec_load(b) matches Ok(m) ==> model_within_blob(m),
{
    reveal(head_tensors);
    lemma_then_read_within(b);
    if let Ok(m) = spec_load(b) {
        let c = spec_config(b);
        let (hw, p) = head_tensors(b, HEADER_LEN, c)->Ok_0;
        assert(weight_within(hw[0], b.len() as int));
        assert(weight_within(hw[1], b.len() as int));
        assert(weight_within(hw[2], b.len() as int));
        assert(weight_within(hw[3], b.len() as int));
        lemma_layers_within(b, p, c, c.n_layers as nat);
        let (ls, q) = layers_at(b, p, c, c.n_layers as nat)->Ok_0;
        lemma_tensor_within(b, q, Shape::Fp32(c.d_model as int));
    }
}

/// A quantized tensor of `rows` x `cols`.
pub open spec fn quant_shaped(w: Weight, rows: int, cols: int) -> bool {
    w matches Weight::Quant { rows: r, cols: c, .. } && r == rows && c == cols
}

/// An fp32 tensor of `n` values.
pub open spec fn fp32_sized(w: Weight, n: int) -> bool {
    w matches Weight::Fp32 { data } && data.len == n * 4
}

/// Each tensor of layer `l` has the shape its role takes in a model of
/// configuration `c` (d = d_model, h = ffn_hidden, p = ple_dim): the norms
/// hold d values, qkv is 3d x d, proj d x d, ffn_gate and ffn_up h x d,
/// ffn_down d x h, ple_gate p x d and ple_proj d x p.
pub open spec fn layer_shaped(l: LayerWeights, c: ModelConfig) -> bool {
    let d = c.d_model as int;
    let h = c.ffn_hidden as int;
    let p = c.ple_dim as int;
    &&& fp32_sized(l.attn_norm, d)
    &&& quant_shaped(l.qkv, 3 * d, d)
    &&& quant_shaped(l.proj, d, d)
    &&& fp32_sized(l.ffn_norm, d)
    &&& quant_shaped(l.ffn_gate, h, d)
    &&& quant_shaped(l.ffn_up, h, d)
    &&& quant_shaped(l.ffn_down, d, h)
    &&& quant_shaped(l.ple_gate, p, d)
    &&& quant_shaped(l.ple_proj, d, p)
    &&& fp32_sized(l.ple_norm, d)
}

/// Every tensor of the model has the shape its role takes under the
/// model's configuration, and there is one layer per configured layer:
/// the token embedding is vocab x d, the PLE model projection
/// (n_layers * p) x d, the PLE table vocab x (n_layers * p), the PLE
/// projection norm holds p values and the output norm d.
pub open spec fn model_shaped(m: ModelView) -> bool {
    let c = m.cfg;
    let d = c.d_model as int;
    let lp = c.n_layers * c.ple_dim;
    &&& quant_shaped(m.tok_emb, c.vocab_size as int, d)
    &&& quant_shaped(m.ple_model_proj, lp, d)
    &&& fp32_sized(m.ple_proj_norm, c.ple_dim as int)
    &&& quant_shaped(m.ple_table, c.vocab_size as int, lp)
    &&& fp32_sized(m.out_norm, d)
    &&& m.layers.len() == c.n_layers
    &&& forall|i: int| 0 <= i < m.layers.len() ==> layer_shaped(#[trigger] m.layers[i], c)
}

/// A tensor read with a shape has that shape.
pub open spec fn has_shape(w: Weight, s: Shape) -> bool {
    match s {
        Shape::Quant(rows, cols) => quant_shaped(w, rows, cols),
        Shape::Fp32(n) => fp32_sized(w, n),
    }
}

proof fn lemma_then_read_shape(prev: Result<(Seq<Weight>, usize), LoadError>, b: Seq<u8>, s: Shape)
    ensures
        then_read(prev, b, s) matches Ok((ws2, q)) ==> prev matches Ok((ws, p)) && ws2 == ws.push(
            ws2.last(),
        ) && has_shape(ws2.last(), s),
{
    reveal(tensor_at);
    if let Ok((ws, p)) = prev {
        if let Ok((w, q)) = tensor_at(b, p, s) {
            assert(ws.push(w).last() == w);
        }
    }
}

proof fn lemma_layer_tensors_shaped(b: Seq<u8>, pos: usize, c: ModelConfig)
    ensures
        layer_tensors(b, pos, c) matches Ok((ws, q)) ==> ws.len() == 10 && layer_shaped(as_layer(ws), c),
{
    reveal(layer_tensors);
    let d = c.d_model as int;
    let h = c.ffn_hidden as int;
    let p = c.ple_dim as int;
    let r0 = Ok::<(Seq<Weight>, usize), LoadError>((Seq::empty(), pos));
    let r1 = then_read(r0, b, Shape::Fp32(d));
    let r2 = then_read(r1, b, Shape::Quant(3 * d, d));
    let r3 = then_read(r2, b, Shape::Quant(d, d));
    let r4 = then_read(r3, b, Shape::Fp32(d));
    let r5 = then_read(r4, b, Shape::Quant(h, d));
    let r6 = then_read(r5, b, Shape::Quant(h, d));
    let r7 = then_read(r6, b, Shape::Quant(d, h));
    let r8 = then_read(r7, b, Shape::Quant(p, d));
    let r9 = then_read(r8, b, Shape::Quant(d, p));
    let r10 = then_read(r9, b, Shape::Fp32(d));
    lemma_then_read_shape(r0, b, Shape::Fp32(d));
    lemma_then_read_shape(r1, b, Shape::Quant(3 * d, d));
    lemma_then_read_shape(r2, b, Shape::Quant(d, d));
    lemma_then_read_shape(r3, b, Shape::Fp32(d));
    lemma_then_read_shape(r4, b, Shape::Quant(h, d));
    lemma_then_read_shape(r5, b, Shape::Quant(h, d));
    lemma_then_read_shape(r6, b, Shape::Quant(d, h));
    lemma_then_read_shape(r7, b, Shape::Quant(p, d));
    lemma_then_read_shape(r8, b, Shape::Quant(d, p));
    lemma_then_read_shape(r9, b, Shape::Fp32(d));
    if let Ok((ws, q)) = r10 {
        let w1 = r1->Ok_0.0;
        let w2 = r2->Ok_0.0;
        let w3 = r3->Ok_0.0;
        let w4 = r4->Ok_0.0;
        let w5 = r5->Ok_0.0;
        let w6 = r6->Ok_0.0;
        let w7 = r7->Ok_0.0;
        let w8 = r8->Ok_0.0;
        let w9 = r9->Ok_0.0;
        assert(w1.len() == 1);
        assert(ws[0] == w1[0]);
        assert(ws[1] == w2[1]);
        assert(ws[2] == w3[2]);
        assert(ws[3] == w4[3]);
        assert(ws[4] == w5[4]);
        assert(ws[5] == w6[5]);
        assert(ws[6] == w7[6]);
        assert(ws[7] == w8[7]);
        assert(ws[8] == w9[8]);
    }
}

proof fn lemma_layers_shaped(b: Seq<u8>, pos: usize, c: ModelConfig, k: nat)
    ensures
        layers_at(b, pos, c, k) matches Ok((ls, q)) ==> ls.len() == k && (forall|i: int|
            0 <= i < ls.len() ==> layer_shaped(#[trigger] ls[i], c)),
    decreases k,
{
    if k > 0 {
        lemma_layers_shaped(b, pos, c, (k - 1) as nat);
        if let Ok((ls, p)) = layers_at(b, pos, c, (k - 1) as nat) {
            lemma_layer_tensors_shaped(b, p, c);
        }
    }
}

/// Law: every tensor of a successfully loaded model has the shape of its
/// role under the model's configuration (`model_shaped`): in each layer,
/// for instance, ffn_down is d_model x ffn_hidden and ffn_up
/// ffn_hidden x d_model, and the model has exactly n_layers layers.
pub proof fn lemma_loaded_model_shaped(b: Seq<u8>)
    ensures
        spec_load(b) matches Ok(m) ==> model_shaped(m),
{
    reveal(head_tensors);
    if let Ok(m) = spec_load(b) {
        let c = spec_config(b);
        let lp = c.n_layers * c.ple_dim;
        let r0 = Ok::<(Seq<Weight>, usize), LoadError>((Seq::empty(), HEADER_LEN));
        let r1 = then_read(r0, b, Shape::Quant(c.vocab_size as int, c.d_model as int));
        let r2 = then_read(r1, b, Shape::Quant(lp, c.d_model as int));
        let r3 = then_read(r2, b, Shape::Fp32(c.ple_dim as int));
        let r4 = then_read(r3, b, Shape::Quant(c.vocab_size as int, lp));
        lemma_then_read_shape(r0, b, Shape::Quant(c.vocab_size as int, c.d_model as int));
        lemma_then_read_shape(r1, b, Shape::Quant(lp, c.d_model as int));
        lemma_then_read_shape(r2, b, Shape::Fp32(c.ple_dim as int));
        lemma_then_read_shape(r3, b, Shape::Quant(c.vocab_size as int, lp));
        let (hw, p) = r4->Ok_0;
        assert(hw[0] == r1->Ok_0.0[0]);
        assert(hw[1] == r2->Ok_0.0[1]);
        assert(hw[2] == r3->Ok_0.0[2]);
        lemma_layers_shaped(b, p, c, c.n_layers as nat);
        let (ls, q) = layers_at(b, p, c, c.n_layers as nat)->Ok_0;
        reveal(tensor_at);
    }
}

/// Where a tensor starts in the blob: a quantized tensor at its group
/// header, four bytes before its codes.
pub open spec fn w_start(w: Weight) -> int {
    match w {
        Weight::Quant { codes, .. } => codes.start - 4,
        Weight::Fp32 { data } => data.start as int,
    }
}

/// Where a tensor ends in the blob: a quantized tensor after its scales.
pub open spec fn w_end(w: Weight) -> int {
    match w {
        Weight::Quant { scales, .. } => scales.start + scales.len,
        Weight::Fp32 { data } => data.start + data.len,
    }
}

/// A quantized tensor's scales follow its codes directly.
pub open spec fn w_packed(w: Weight) -> bool {
    w matches Weight::Quant { codes, scales, .. } ==> codes.start + codes.len == scales.start
}

/// `b` follows `a` directly in the blob.
pub open spec fn follows(a: Weight, b: Weight) -> bool {
    w_end(a) == w_start(b)
}

/// The ten tensors of a layer lie one after another in export order:
/// attn_norm, qkv, proj, ffn_norm, ffn_gate, ffn_up, ffn_down, ple_gate,
/// ple_proj, ple_norm.
pub open spec fn layer_in_order(l: LayerWeights) -> bool {
    &&& follows(l.attn_norm, l.qkv)
    &&& follows(l.qkv, l.proj)
    &&& follows(l.proj, l.ffn_norm)
    &&& follows(l.ffn_norm, l.ffn_gate)
    &&& follows(l.ffn_gate, l.ffn_up)
    &&& follows(l.ffn_up, l.ffn_down)
    &&& follows(l.ffn_down, l.ple_gate)
    &&& follows(l.ple_gate, l.ple_proj)
    &&& follows(l.ple_proj, l.ple_norm)
    &&& w_packed(l.qkv) && w_packed(l.proj) && w_packed(l.ffn_gate) && w_packed(l.ffn_up)
    &&& w_packed(l.ffn_down) && w_packed(l.ple_gate) && w_packed(l.ple_proj)
}

/// The layers lie one after another from `pos` on, each in export order,
/// and end at `end`.
pub open spec fn layers_in_order(ls: Seq<LayerWeights>, pos: int, end: int) -> bool {
    &&& (forall|i: int| 0 <= i < ls.len() ==> layer_in_order(#[trigger] ls[i]))
    &&& (ls.len() == 0 ==> end == pos)
    &&& (ls.len() > 0 ==> w_start(ls[0].attn_norm) == pos && w_end(ls.last().ple_norm) == end)
    &&& forall|i: int|
        0 <= i < ls.len() - 1 ==> w_end(#[trigger] ls[i].ple_norm) == w_start(ls[i + 1].attn_norm)
}

/// The tensors of a model lie in the blob in export order, with nothing
/// between them, right after the 40-byte header: token embedding, PLE
/// model projection, PLE projection norm, PLE table, the layers one after
/// another, and the output norm.
pub open spec fn model_in_order(m: ModelView) -> bool {
    &&& w_start(m.tok_emb) == HEADER_LEN
    &&& follows(m.tok_emb, m.ple_model_proj)
    &&& follows(m.ple_model_proj, m.ple_proj_norm)
    &&& follows(m.ple_proj_norm, m.ple_table)
    &&& w_packed(m.tok_emb) && w_packed(m.ple_model_proj) && w_packed(m.ple_table)
    &&& layers_in_order(m.layers, w_end(m.ple_table), w_start(m.out_norm))
}

proof fn lemma_then_read_place(prev: Result<(Seq<Weight>, usize), LoadError>, b: Seq<u8>, s: Shape)
    ensures
        then_read(prev, b, s) matches Ok((ws2, q)) ==> prev matches Ok((ws, p)) && ws2 == ws.push(
            ws2.last(),
        ) && w_start(ws2.last()) == p && w_end(ws2.last()) == q && w_packed(ws2.last()),
{
    reveal(tensor_at);
    if let Ok((ws, p)) = prev {
        if let Ok((w, q)) = tensor_at(b, p, s) {
            assert(ws.push(w).last() == w);
        }
    }
}

proof fn lemma_layer_tensors_place(b: Seq<u8>, pos: usize, c: ModelConfig)
    ensures
        layer_tensors(b, pos, c) matches Ok((ws, q)) ==> ws.len() == 10 && layer_in_order(
            as_layer(ws),
        ) && w_start(ws[0]) == pos && w_end(ws[9]) == q,
{
    reveal(layer_tensors);
    let d = c.d_model as int;
    let h = c.ffn_hidden as int;
    let p = c.ple_dim as int;
    let r0 = Ok::<(Seq<Weight>, usize), LoadError>((Seq::empty(), pos));
    let r1 = then_read(r0, b, Shape::Fp32(d));
    let r2 = then_read(r1, b, Shape::Quant(3 * d, d));
    let r3 = then_read(r2, b, Shape::Quant(d, d));
    let r4 = then_read(r3, b, Shape::Fp32(d));
    let r5 = then_read(r4, b, Shape::Quant(h, d));
    let r6 = then_read(r5, b, Shape::Quant(h, d));
    let r7 = then_read(r6, b, Shape::Quant(d, h));
    let r8 = then_read(r7, b, Shape::Quant(p, d));
    let r9 = then_read(r8, b, Shape::Quant(d, p));
    let r10 = then_read(r9, b, Shape::Fp32(d));
    lemma_then_read_place(r0, b, Shape::Fp32(d));
    lemma_then_read_place(r1, b, Shape::Quant(3 * d, d));
    lemma_then_read_place(r2, b, Shape::Quant(d, d));
    lemma_then_read_place(r3, b, Shape::Fp32(d));
    lemma_then_read_place(r4, b, Shape::Quant(h, d));
    lemma_then_read_place(r5, b, Shape::Quant(h, d));
    lemma_then_read_place(r6, b, Shape::Quant(d, h));
    lemma_then_read_place(r7, b, Shape::Quant(p, d));
    lemma_then_read_place(r8, b, Shape::Quant(d, p));
    lemma_then_read_place(r9, b, Shape::Fp32(d));
    if let Ok((ws, q)) = r10 {
        let w1 = r1->Ok_0.0;
        let w2 = r2->Ok_0.0;
        let w3 = r3->Ok_0.0;
        let w4 = r4->Ok_0.0;
        let w5 = r5->Ok_0.0;
        let w6 = r6->Ok_0.0;
        let w7 = r7->Ok_0.0;
        let w8 = r8->Ok_0.0;
        let w9 = r9->Ok_0.0;
        assert(w1.len() == 1);
        assert(ws[0] == w1[0]);
        assert(ws[1] == w2[1]);
        assert(ws[2] == w3[2]);
        assert(ws[3] == w4[3]);
        assert(ws[4] == w5[4]);
        assert(ws[5] == w6[5]);
        assert(ws[6] == w7[6]);
        assert(ws[7] == w8[7]);
        assert(ws[8] == w9[8]);
    }
}

proof fn lemma_layers_place(b: Seq<u8>, pos: usize, c: ModelConfig, k: nat)
    ensures
        layers_at(b, pos, c, k) matches Ok((ls, q)) ==> ls.len() == k && layers_in_order(
            ls,
            pos as int,
            q as int,
        ),
    decreases k,
{
    if k > 0 {
        lemma_layers_place(b, pos, c, (k - 1) as nat);
        if let Ok((ls, p)) = layers_at(b, pos, c, (k - 1) as nat) {
            lemma_layer_tensors_place(b, p, c);
            if let Ok((ws, q)) = layer_tensors(b, p, c) {
                let ls2 = ls.push(as_layer(ws));
                assert(ls2[ls.len() as int] == as_layer(ws));
                assert forall|i: int| 0 <= i < ls2.len() implies layer_in_order(#[trigger] ls2[i]) by {
                    if i < ls.len() {
                        assert(ls2[i] == ls[i]);
                    }
                }
                assert forall|i: int| 0 <= i < ls2.len() - 1 implies w_end(#[trigger] ls2[i].ple_norm)
                    == w_start(ls2[i + 1].attn_norm) by {
                    if i + 1 < ls.len() {
                        assert(ls2[i] == ls[i]);
                        assert(ls2[i + 1] == ls[i + 1]);
                    } else {
                        assert(ls2[i] == ls.last());
                    }
                }
                if ls.len() > 0 {
                    assert(ls2[0] == ls[0]);
                }
            }
        }
    }
}

/// Law: the tensors of a successfully loaded model lie in its blob in the
/// export order, each directly after the one before it, starting right
/// after the header (`model_in_order`); each quantized tensor is its group
/// header, then its codes, then its scales.
pub proof fn lemma_loaded_model_in_order(b: Seq<u8>)
    ensures
        spec_load(b) matches Ok(m) ==> model_in_order(m),
{
    reveal(head_tensors);
    if let Ok(m) = spec_load(b) {
        let c = spec_config(b);
        let lp = c.n_layers * c.ple_dim;
        let r0 = Ok::<(Seq<Weight>, usize), LoadError>((Seq::empty(), HEADER_LEN));
        let r1 = then_read(r0, b, Shape::Quant(c.vocab_size as int, c.d_model as int));
        let r2 = then_read(r1, b, Shape::Quant(lp, c.d_model as int));
        let r3 = then_read(r2, b, Shape::Fp32(c.ple_dim as int));
        let r4 = then_read(r3, b, Shape::Quant(c.vocab_size as int, lp));
        lemma_then_read_place(r0, b, Shape::Quant(c.vocab_size as int, c.d_model as int));
        lemma_then_read_place(r1, b, Shape::Quant(lp, c.d_model as int));
        lemma_then_read_place(r2, b, Shape::Fp32(c.ple_dim as int));
        lemma_then_read_place(r3, b, Shape::Quant(c.vocab_size as int, lp));
        let (hw, p) = r4->Ok_0;
        assert(hw[0] == r1->Ok_0.0[0]);
        assert(hw[1] == r2->Ok_0.0[1]);
        assert(hw[2] == r3->Ok_0.0[2]);
        lemma_layers_place(b, p, c, c.n_layers as nat);
        reveal(tensor_at);
    }
}

} // verus!
