//! Flash collection format: the MODL manifest and the model blobs it lists.
//!
//! Format: [u32 magic=0x4D4F444C] [u32 count] [entry0..entryN] [model blobs...]
//! Entry (96 bytes): name[32] arm[16] offset u32 size u32 vocab d_model
//! n_layers n_heads ffn_hidden ple_dim seq_len group u32 val_ppl f32
//! params u32. All integers are little-endian; names are NUL-terminated.
//!
//! Flash is read through the ROM in 4-byte-aligned windows; `flash_window`
//! says which window covers a request, and the caller performs the read.
use vstd::prelude::*;
use crate::text::{string_from_utf8_lossy, utf8_lossy};

verus! {

/// MODL magic.
pub const MAGIC: u32 = 0x4D4F444C;
/// PLE1 magic (model blob).
pub const PLE1_MAGIC: u32 = 0x504C4531;
/// Entry size in bytes.
pub const ENTRY_SIZE: usize = 96;
/// Most entries a collection may list.
pub const MAX_ENTRIES: usize = 32;

/// The little-endian u32 at `off`.
pub open spec fn le_u32(b: Seq<u8>, off: int) -> int {
    b[off] + b[off + 1] * 256 + b[off + 2] * 65536 + b[off + 3] * 16777216
}

/// Reads the little-endian u32 at `off`.
pub fn rd_u32(buf: &[u8], off: usize) -> (r: u32)
    requires
        off + 4 <= buf@.len(),
    ensures
        r == le_u32(buf@, off as int),
{
    (buf[off] as u32) + (buf[off + 1] as u32) * 256 + (buf[off + 2] as u32) * 65536 + (buf[off
        + 3] as u32) * 16777216
}

/// The index of the first NUL byte, or the length if there is none.
pub open spec fn nul_end(s: Seq<u8>) -> int
    decreases s.len(),
{
    if s.len() == 0 {
        0
    } else if s[0] == 0 {
        0
    } else {
        1 + nul_end(s.drop_first())
    }
}

/// The bytes of a NUL-terminated field before its first NUL.
pub open spec fn cstr(s: Seq<u8>) -> Seq<u8> {
    s.subrange(0, nul_end(s))
}

proof fn lemma_nul_end(s: Seq<u8>, i: int)
    requires
        0 <= i <= s.len(),
        forall|k: int| 0 <= k < i ==> s[k] != 0,
        i == s.len() || s[i] == 0,
    ensures
        nul_end(s) == i,
    decreases s.len(),
{
    if s.len() > 0 && i > 0 {
        assert forall|k: int| 0 <= k < i - 1 implies s.drop_first()[k] != 0 by {
            assert(s.drop_first()[k] == s[k + 1]);
        }
        lemma_nul_end(s.drop_first(), i - 1);
    }
}

/// Reads the NUL-terminated text field of `len` bytes at `start`.
pub fn rd_string(buf: &[u8], start: usize, len: usize) -> (r: String)
    requires
        start + len <= buf@.len(),
    ensures
        r@ == utf8_lossy(cstr(buf@.subrange(start as int, start + len))),
{
    let ghost field = buf@.subrange(start as int, start + len);
    let n = buf.len();
    assert(start + len <= n);
    let mut end: usize = 0;
    while end < len && buf[start + end] != 0
        invariant
            start + len <= n,
            n == buf@.len(),
            end <= len,
            field == buf@.subrange(start as int, start + len),
            forall|k: int| 0 <= k < end ==> field[k] != 0,
        decreases len - end,
    {
        end = end + 1;
    }
    proof {
        lemma_nul_end(field, end as int);
    }
    let text = &buf[start..start + end];
    assert(text@ == cstr(field));
    string_from_utf8_lossy(text)
}

/// A model entry from the collection manifest. `val_ppl_bits` holds the
/// IEEE-754 bit pattern of the f32 validation perplexity.
#[derive(Clone, Debug)]
pub struct ModelEntry {
    pub name: String,
    pub arm: String,
    pub offset: u32,
    pub size: u32,
    pub vocab: u32,
    pub d_model: u32,
    pub n_layers: u32,
    pub n_heads: u32,
    pub ffn_hidden: u32,
    pub ple_dim: u32,
    pub seq_len: u32,
    pub group: u32,
    pub val_ppl_bits: u32,
    pub params: u32,
}

/// The mathematical content of a manifest entry.
pub struct ModelEntryView {
    pub name: Seq<char>,
    pub arm: Seq<char>,
    pub offset: u32,
    pub size: u32,
    pub vocab: u32,
    pub d_model: u32,
    pub n_layers: u32,
    pub n_heads: u32,
    pub ffn_hidden: u32,
    pub ple_dim: u32,
    pub seq_len: u32,
    pub group: u32,
    pub val_ppl_bits: u32,
    pub params: u32,
}

impl View for ModelEntry {
    type V = ModelEntryView;

    open spec fn view(&self) -> ModelEntryView {
        ModelEntryView {
            name: self.name@,
            arm: self.arm@,
            offset: self.offset,
            size: self.size,
            vocab: self.vocab,
            d_model: self.d_model,
            n_layers: self.n_layers,
            n_heads: self.n_heads,
            ffn_hidden: self.ffn_hidden,
            ple_dim: self.ple_dim,
            seq_len: self.seq_len,
            group: self.group,
            val_ppl_bits: self.val_ppl_bits,
            params: self.params,
        }
    }
}

/// The entry whose 96 bytes start at `base`.
pub open spec fn spec_entry(b: Seq<u8>, base: int) -> ModelEntryView {
    ModelEntryView {
        name: utf8_lossy(cstr(b.subrange(base, base + 32))),
        arm: utf8_lossy(cstr(b.subrange(base + 32, base + 48))),
        offset: le_u32(b, base + 48) as u32,
        size: le_u32(b, base + 52) as u32,
        vocab: le_u32(b, base + 56) as u32,
        d_model: le_u32(b, base + 60) as u32,
        n_layers: le_u32(b, base + 64) as u32,
        n_heads: le_u32(b, base + 68) as u32,
        ffn_hidden: le_u32(b, base + 72) as u32,
        ple_dim: le_u32(b, base + 76) as u32,
        seq_len: le_u32(b, base + 80) as u32,
        group: le_u32(b, base + 84) as u32,
        val_ppl_bits: le_u32(b, base + 88) as u32,
        params: le_u32(b, base + 92) as u32,
    }
}

/// The entry count that a manifest header announces, if the header is a
/// valid collection header: MODL magic and 1-32 entries.
pub open spec fn spec_manifest_count(hdr: Seq<u8>) -> Option<usize> {
    if le_u32(hdr, 0) != MAGIC {
        None
    } else if le_u32(hdr, 4) == 0 || le_u32(hdr, 4) > MAX_ENTRIES {
        None
    } else {
        Some(le_u32(hdr, 4) as usize)
    }
}

/// Checks the 8-byte manifest header and returns its entry count.
pub fn manifest_count(hdr: &[u8]) -> (r: Option<usize>)
    requires
        hdr@.len() >= 8,
    ensures
        r == spec_manifest_count(hdr@),
{
    let magic = rd_u32(hdr, 0);
    if magic != MAGIC {
        return None;
    }
    let count = rd_u32(hdr, 4) as usize;
    if count == 0 || count > MAX_ENTRIES {
        return None;
    }
    Some(count)
}

/// Parses `count` consecutive 96-byte entries.
pub fn parse_entries(buf: &[u8], count: usize) -> (r: Vec<ModelEntry>)
    requires
        count <= MAX_ENTRIES,
        count * ENTRY_SIZE <= buf@.len(),
    ensures
        r@.len() == count,
        forall|i: int| 0 <= i < count ==> #[trigger] r@[i]@ == spec_entry(buf@, i * 96),
{
    let mut entries: Vec<ModelEntry> = Vec::new();
    let mut i: usize = 0;
    while i < count
        invariant
            count <= MAX_ENTRIES,
            count * ENTRY_SIZE <= buf@.len(),
            i <= count,
            entries@.len() == i,
            forall|k: int| 0 <= k < i ==> #[trigger] entries@[k]@ == spec_entry(buf@, k * 96),
        decreases count - i,
    {
        let base = i * ENTRY_SIZE;
        assert(base + 96 <= buf@.len()) by (nonlinear_arith)
            requires
                base == i * 96,
                i < count,
                count * 96 <= buf@.len(),
        ;
        let entry = ModelEntry {
            name: rd_string(buf, base, 32),
            arm: rd_string(buf, base + 32, 16),
            offset: rd_u32(buf, base + 48),
            size: rd_u32(buf, base + 52),
            vocab: rd_u32(buf, base + 56),
            d_model: rd_u32(buf, base + 60),
            n_layers: rd_u32(buf, base + 64),
            n_heads: rd_u32(buf, base + 68),
            ffn_hidden: rd_u32(buf, base + 72),
            ple_dim: rd_u32(buf, base + 76),
            seq_len: rd_u32(buf, base + 80),
            group: rd_u32(buf, base + 84),
            val_ppl_bits: rd_u32(buf, base + 88),
            params: rd_u32(buf, base + 92),
        };
        assert(entry@ == spec_entry(buf@, i * 96));
        entries.push(entry);
        i = i + 1;
    }
    entries
}

/// What a manifest entry is written from: its name and arm texts (no NUL
/// byte, at most 32 and 16 bytes) and its twelve numeric fields in manifest
/// order: offset, size, vocab, d_model, n_layers, n_heads, ffn_hidden,
/// ple_dim, seq_len, group, val_ppl bits, params.
pub struct EntryImage {
    pub name: Seq<u8>,
    pub arm: Seq<u8>,
    pub fields: Seq<u32>,
}

/// An entry image that can be written into 96 bytes.
pub open spec fn image_ok(e: EntryImage) -> bool {
    &&& e.name.len() <= 32
    &&& e.arm.len() <= 16
    &&& e.fields.len() == 12
    &&& forall|k: int| 0 <= k < e.name.len() ==> #[trigger] e.name[k] != 0
    &&& forall|k: int| 0 <= k < e.arm.len() ==> #[trigger] e.arm[k] != 0
}

/// Byte `s` (0 = lowest) of `v` written little-endian.
pub open spec fn le_byte(v: u32, s: int) -> u8 {
    if s == 0 {
        (v % 256) as u8
    } else if s == 1 {
        ((v / 256) % 256) as u8
    } else if s == 2 {
        ((v / 65536) % 256) as u8
    } else {
        (v / 16777216) as u8
    }
}

/// Byte `j` of the 96 bytes an entry is written as: the name padded with
/// NUL to 32 bytes, the arm padded to 16, then each field little-endian.
pub open spec fn image_byte(e: EntryImage, j: int) -> u8 {
    if j < 32 {
        if j < e.name.len() {
            e.name[j]
        } else {
            0
        }
    } else if j < 48 {
        if j - 32 < e.arm.len() {
            e.arm[j - 32]
        } else {
            0
        }
    } else {
        le_byte(e.fields[(j - 48) / 4], (j - 48) % 4)
    }
}

/// The 96 bytes an entry is written as.
pub open spec fn entry_image(e: EntryImage) -> Seq<u8> {
    Seq::new(96, |j: int| image_byte(e, j))
}

/// The entry a reader should get back for an image.
pub open spec fn image_view(e: EntryImage) -> ModelEntryView {
    ModelEntryView {
        name: utf8_lossy(e.name),
        arm: utf8_lossy(e.arm),
        offset: e.fields[0],
        size: e.fields[1],
        vocab: e.fields[2],
        d_model: e.fields[3],
        n_layers: e.fields[4],
        n_heads: e.fields[5],
        ffn_hidden: e.fields[6],
        ple_dim: e.fields[7],
        seq_len: e.fields[8],
        group: e.fields[9],
        val_ppl_bits: e.fields[10],
        params: e.fields[11],
    }
}

proof fn lemma_le_bytes_read_back(v: u32)
    ensures
        le_byte(v, 0) + le_byte(v, 1) * 256 + le_byte(v, 2) * 65536 + le_byte(v, 3) * 16777216 == v,
{
    let b0 = v % 256;
    let b1 = (v / 256) % 256;
    let b2 = (v / 65536) % 256;
    let b3 = v / 16777216;
    assert(b0 + b1 * 256 + b2 * 65536 + b3 * 16777216 == v) by (bit_vector)
        requires
            b0 == v % 256,
            b1 == (v / 256) % 256,
            b2 == (v / 65536) % 256,
            b3 == v / 16777216,
    ;
    assert(b3 < 256) by (bit_vector)
        requires
            b3 == v / 16777216,
    ;
}

/// A padded text field reads back as the text.
proof fn lemma_field_reads_back(field: Seq<u8>, text: Seq<u8>, n: int)
    requires
        field.len() == n,
        text.len() <= n,
        forall|k: int| 0 <= k < text.len() ==> #[trigger] text[k] != 0,
        forall|k: int| 0 <= k < n ==> #[trigger] field[k] == if k < text.len() { text[k] } else { 0u8 },
    ensures
        cstr(field) == text,
{
    assert forall|k: int| 0 <= k < text.len() implies field[k] != 0 by {
        assert(field[k] == text[k]);
    }
    lemma_nul_end(field, text.len() as int);
    assert(cstr(field) =~= text);
}

/// An entry image found at `base` reads back as the entry it was written
/// from.
proof fn lemma_entry_reads_back(b: Seq<u8>, base: int, e: EntryImage)
    requires
        image_ok(e),
        0 <= base,
        base + 96 <= b.len(),
        b.subrange(base, base + 96) == entry_image(e),
    ensures
        spec_entry(b, base) == image_view(e),
{
    let img = entry_image(e);
    assert forall|j: int| 0 <= j < 96 implies #[trigger] b[base + j] == image_byte(e, j) by {
        assert(b.subrange(base, base + 96)[j] == b[base + j]);
    }
    lemma_field_reads_back(b.subrange(base, base + 32), e.name, 32);
    let arm_field = b.subrange(base + 32, base + 48);
    assert forall|k: int| 0 <= k < 16 implies #[trigger] arm_field[k] == if k < e.arm.len() {
        e.arm[k]
    } else {
        0u8
    } by {
        assert(arm_field[k] == b[base + (32 + k)]);
    }
    lemma_field_reads_back(arm_field, e.arm, 16);
    assert forall|m: int| 0 <= m < 12 implies le_u32(b, base + 48 + 4 * m) == #[trigger] e.fields[m] by {
        let v = e.fields[m];
        lemma_le_bytes_read_back(v);
        assert(b[base + (48 + 4 * m)] == le_byte(v, 0));
        assert(b[base + (48 + 4 * m + 1)] == le_byte(v, 1));
        assert(b[base + (48 + 4 * m + 2)] == le_byte(v, 2));
        assert(b[base + (48 + 4 * m + 3)] == le_byte(v, 3));
    }
    assert(le_u32(b, base + 48) == e.fields[0]);
    assert(le_u32(b, base + 52) == e.fields[1]);
    assert(le_u32(b, base + 56) == e.fields[2]);
    assert(le_u32(b, base + 60) == e.fields[3]);
    assert(le_u32(b, base + 64) == e.fields[4]);
    assert(le_u32(b, base + 68) == e.fields[5]);
    assert(le_u32(b, base + 72) == e.fields[6]);
    assert(le_u32(b, base + 76) == e.fields[7]);
    assert(le_u32(b, base + 80) == e.fields[8]);
    assert(le_u32(b, base + 84) == e.fields[9]);
    assert(le_u32(b, base + 88) == e.fields[10]);
    assert(le_u32(b, base + 92) == e.fields[11]);
}

/// Law: a manifest whose entry `i` was written from `es[i]`, for each `i`,
/// reads back entry by entry as what was written: `parse_entries` gives for
/// entry `i` the name, arm and fields of `es[i]` and of no other entry.
pub proof fn lemma_manifest_reads_back(b: Seq<u8>, es: Seq<EntryImage>)
    requires
        es.len() * 96 <= b.len(),
        forall|i: int| 0 <= i < es.len() ==> image_ok(#[trigger] es[i]),
        forall|i: int|
            0 <= i < es.len() ==> b.subrange(i * 96, i * 96 + 96) == entry_image(#[trigger] es[i]),
    ensures
        forall|i: int| 0 <= i < es.len() ==> spec_entry(b, i * 96) == image_view(#[trigger] es[i]),
{
    assert forall|i: int| 0 <= i < es.len() implies spec_entry(b, i * 96) == image_view(#[trigger] es[i]) by {
        assert(i * 96 + 96 <= es.len() * 96) by (nonlinear_arith)
            requires
                i < es.len(),
        ;
        lemma_entry_reads_back(b, i * 96, es[i]);
    }
}

/// The flash address of an entry's model blob.
pub fn model_address(partition_offset: u32, entry: &ModelEntry) -> (a: u32)
    requires
        partition_offset + entry.offset <= u32::MAX,
    ensures
        a == partition_offset + entry.offset,
{
    partition_offset + entry.offset
}

/// Accepts a blob read for an entry only if it starts with the PLE1 magic.
pub fn check_model_blob(buf: Vec<u8>) -> (r: Option<Vec<u8>>)
    ensures
        r is Some <==> (buf@.len() >= 4 && le_u32(buf@, 0) == PLE1_MAGIC),
        r matches Some(v) ==> v@ == buf@,
{
    if buf.len() < 4 {
        return None;
    }
    let magic = rd_u32(buf.as_slice(), 0);
    if magic != PLE1_MAGIC {
        return None;
    }
    Some(buf)
}

/// The 4-byte-aligned window of a flash read: read `read_len` bytes at
/// `read_offset` and the requested bytes start `pad` bytes in.
#[derive(Clone, Copy, Debug, PartialEq, Eq)]
pub struct FlashWindow {
    pub read_offset: u32,
    pub read_len: u32,
    pub pad: u32,
}

/// How far `offset` lies past the 4-byte boundary below it.
pub open spec fn spec_pad(offset: u32) -> int {
    (offset % 4) as int
}

/// The read length for `len` bytes that start `pad` bytes into the window:
/// rounded up to a multiple of four.
pub open spec fn spec_read_len(len: int, pad: int) -> int {
    ((len + pad + 3) / 4) * 4
}

/// The window that covers `len` bytes at `offset`: the read starts at the
/// 4-byte boundary at or below `offset`, and its length, padding included,
/// is rounded up to a multiple of four. `None` when that length does not fit
/// a `u32` read.
pub fn flash_window(offset: u32, len: usize) -> (w: Option<FlashWindow>)
    ensures
        w is Some <==> len + spec_pad(offset) <= 4294967292,
        w matches Some(win) ==> {
            &&& win.pad == spec_pad(offset)
            &&& win.read_offset == offset - spec_pad(offset)
            &&& win.read_len == spec_read_len(len as int, spec_pad(offset))
        },
{
    let pad = offset % 4;
    if len > 4294967292 - pad as usize {
        return None;
    }
    let read_offset = offset - pad;
    let total = len + pad as usize + 3;
    let rounded = total & !3usize;
    assert(rounded == (total / 4) * 4) by (bit_vector)
        requires
            rounded == total & !3usize,
    ;
    Some(FlashWindow { read_offset, read_len: rounded as u32, pad })
}

/// Law: the window of a flash read starts on a 4-byte boundary, has a
/// length that is a multiple of four, and covers the requested bytes, which
/// start `pad` bytes into it.
pub proof fn lemma_flash_window_covers(offset: u32, len: int)
    requires
        0 <= len,
    ensures
        (offset - spec_pad(offset)) % 4 == 0,
        (offset - spec_pad(offset)) + spec_pad(offset) == offset,
        0 <= spec_pad(offset) < 4,
        spec_read_len(len, spec_pad(offset)) >= spec_pad(offset) + len,
        spec_read_len(len, spec_pad(offset)) % 4 == 0,
{
    let t = len + spec_pad(offset) + 3;
    assert((t / 4) * 4 >= t - 3) by (nonlinear_arith)
        requires
            t >= 0,
    ;
    assert(((t / 4) * 4) % 4 == 0) by (nonlinear_arith);
    assert((offset - offset % 4) % 4 == 0) by (nonlinear_arith);
}

} // verus!
