//! Framing of binary glTF (GLB) files: chunk padding and the container layout.
use vstd::prelude::*;

verus! {

/// The length that `len` is padded up to for `alignment`.
pub open spec fn padded_len(len: nat, alignment: nat) -> nat {
    if len % alignment == 0 {
        len
    } else {
        (len + alignment - len % alignment) as nat
    }
}

/// `bytes` extended with `value` up to the next multiple of `alignment`.
pub open spec fn padded(bytes: Seq<u8>, alignment: nat, value: u8) -> Seq<u8> {
    bytes + Seq::new((padded_len(bytes.len(), alignment) - bytes.len()) as nat, |_i: int| value)
}

/// Pads `bytes` with `value` up to the next multiple of `alignment`.
pub fn pad_bytes(bytes: &mut Vec<u8>, alignment: usize, value: u8)
    requires
        alignment > 0,
        old(bytes)@.len() + alignment <= usize::MAX,
    ensures
        final(bytes)@ == padded(old(bytes)@, alignment as nat, value),
{
    let remainder = bytes.len() % alignment;
    if remainder != 0 {
        let target = bytes.len() + alignment - remainder;
        let ghost start = bytes@;
        while bytes.len() < target
            invariant
                start.len() <= bytes@.len() <= target,
                target == start.len() + alignment - start.len() % (alignment as nat),
                bytes@.subrange(0, start.len() as int) == start,
                forall|k: int| start.len() <= k < bytes@.len() ==> bytes@[k] == value,
            decreases target - bytes.len(),
        {
            bytes.push(value);
        }
        assert(bytes@ =~= padded(start, alignment as nat, value));
    } else {
        assert(bytes@ =~= padded(bytes@, alignment as nat, value));
    }
}

/// The four little-endian bytes of `v`.
pub open spec fn le_u32(v: u32) -> Seq<u8> {
    seq![(v % 256) as u8, ((v / 256) % 256) as u8, ((v / 65536) % 256) as u8, (v / 16777216) as u8]
}

fn push_le_u32(out: &mut Vec<u8>, v: u32)
    ensures
        final(out)@ == old(out)@ + le_u32(v),
{
    let b0 = (v & 0xff) as u8;
    let b1 = ((v >> 8) & 0xff) as u8;
    let b2 = ((v >> 16) & 0xff) as u8;
    let b3 = (v >> 24) as u8;
    assert(b0 == (v % 256) as u8 && b1 == ((v / 256) % 256) as u8 && b2 == ((v / 65536) % 256) as u8 && b3 == (v
        / 16777216) as u8) by (bit_vector)
        requires
            b0 == (v & 0xff) as u8,
            b1 == ((v >> 8) & 0xff) as u8,
            b2 == ((v >> 16) & 0xff) as u8,
            b3 == (v >> 24) as u8,
    ;
    out.push(b0);
    out.push(b1);
    out.push(b2);
    out.push(b3);
    assert(out@ =~= old(out)@ + le_u32(v));
}

fn push_bytes(out: &mut Vec<u8>, src: &[u8])
    ensures
        final(out)@ == old(out)@ + src@,
{
    let ghost out0 = out@;
    let mut k: usize = 0;
    while k < src.len()
        invariant
            k <= src@.len(),
            out@ == out0 + src@.take(k as int),
        decreases src.len() - k,
    {
        out.push(src[k]);
        k = k + 1;
        assert(out@ =~= out0 + src@.take(k as int));
    }
    assert(src@.take(k as int) =~= src@);
}

/// The GLB file holding the JSON chunk `json` (padded with spaces to four bytes) and the
/// binary chunk `binary`: the `glTF` magic, version 2, the total length, then each chunk as
/// its length, its type (`JSON`, `BIN\0`) and its bytes. Lengths are written as 32-bit
/// little-endian numbers, cut to their low 32 bits.
pub open spec fn glb_of(json: Seq<u8>, binary: Seq<u8>) -> Seq<u8> {
    let j = padded(json, 4, 0x20);
    let total = 12 + 8 + j.len() + 8 + binary.len();
    seq![0x67u8, 0x6cu8, 0x54u8, 0x46u8] + le_u32(2) + le_u32(total as u32) + le_u32(j.len() as u32) + seq![
        0x4au8,
        0x53u8,
        0x4fu8,
        0x4eu8,
    ] + j + le_u32(binary.len() as u32) + seq![0x42u8, 0x49u8, 0x4eu8, 0x00u8] + binary
}

/// Assembles a GLB file from its JSON text and its binary buffer.
pub fn glb_container(json: &[u8], binary: &[u8]) -> (glb: Vec<u8>)
    requires
        json@.len() + binary@.len() + 32 <= usize::MAX,
    ensures
        glb@ == glb_of(json@, binary@),
{
    let mut json_bytes: Vec<u8> = Vec::new();
    push_bytes(&mut json_bytes, json);
    pad_bytes(&mut json_bytes, 4, 0x20);
    let total_length = 12 + 8 + json_bytes.len() + 8 + binary.len();
    let mut glb: Vec<u8> = Vec::new();
    glb.push(0x67);
    glb.push(0x6c);
    glb.push(0x54);
    glb.push(0x46);
    push_le_u32(&mut glb, 2);
    push_le_u32(&mut glb, total_length as u32);
    push_le_u32(&mut glb, json_bytes.len() as u32);
    glb.push(0x4a);
    glb.push(0x53);
    glb.push(0x4f);
    glb.push(0x4e);
    push_bytes(&mut glb, json_bytes.as_slice());
    push_le_u32(&mut glb, binary.len() as u32);
    glb.push(0x42);
    glb.push(0x49);
    glb.push(0x4e);
    glb.push(0x00);
    push_bytes(&mut glb, binary);
    assert(glb@ =~= glb_of(json@, binary@));
    glb
}

/// Law: padding reaches the next multiple of the alignment and adds fewer bytes than the
/// alignment.
pub proof fn law_padding_aligns(len: nat, alignment: nat)
    requires
        alignment > 0,
    ensures
        padded_len(len, alignment) % alignment == 0,
        len <= padded_len(len, alignment) < len + alignment,
{
    let a: int = alignment as int;
    let l: int = len as int;
    let q: int = l / a;
    let r: int = l % a;
    vstd::arithmetic::div_mod::lemma_fundamental_div_mod(l, a);
    if r != 0 {
        assert(l + a - r == (q + 1) * a) by (nonlinear_arith)
            requires
                l == a * q + r,
        ;
        vstd::arithmetic::div_mod::lemma_mod_multiples_basic(q + 1, a);
    }
}

/// Law: a GLB file is as long as its header says (where the length fits in 32 bits), and its
/// JSON chunk is padded to four bytes.
pub proof fn law_glb_length_matches_header(json: Seq<u8>, binary: Seq<u8>)
    ensures
        ({
            let glb = glb_of(json, binary);
            let j = padded(json, 4, 0x20);
            &&& glb.len() == 28 + j.len() + binary.len()
            &&& j.len() % 4 == 0
            &&& glb.subrange(0, 4) == seq![0x67u8, 0x6cu8, 0x54u8, 0x46u8]
            &&& (glb.len() <= u32::MAX ==> glb.subrange(8, 12) == le_u32(glb.len() as u32))
        }),
{
    law_padding_aligns(json.len(), 4);
    let glb = glb_of(json, binary);
    let j = padded(json, 4, 0x20);
    assert(j.len() == padded_len(json.len(), 4));
    assert(glb.subrange(0, 4) =~= seq![0x67u8, 0x6cu8, 0x54u8, 0x46u8]);
    let total = 12 + 8 + j.len() + 8 + binary.len();
    assert(glb.subrange(8, 12) =~= le_u32(total as u32));
}

/// Where one mesh's vertex data lies in the GLB binary chunk: its positions, then, from the
/// next multiple of four, its normals; each vertex three 4-byte floats.
#[derive(Clone, Copy, Debug, PartialEq, Eq, Structural)]
pub struct MeshLayout {
    pub position_offset: usize,
    /// The bytes from the positions' start to the normals' start.
    pub position_length: usize,
    pub normal_offset: usize,
    pub normal_length: usize,
}

/// Why no binary layout can be planned.
#[derive(Clone, Copy, Debug, PartialEq, Eq, Structural)]
pub enum GlbLayoutError {
    /// There are no meshes to export.
    NoMeshes,
    /// The vertex data does not fit in memory's address range.
    TooLarge,
}

/// The message of a layout error.
pub open spec fn layout_error_message(e: GlbLayoutError) -> Seq<char> {
    match e {
        GlbLayoutError::NoMeshes => "no meshes were provided for GLB export"@,
        GlbLayoutError::TooLarge => "GLB contents are too large"@,
    }
}

impl GlbLayoutError {
    /// The message of this error.
    pub fn message(&self) -> (m: &'static str)
        ensures
            m@ == layout_error_message(*self),
    {
        match self {
            GlbLayoutError::NoMeshes => "no meshes were provided for GLB export",
            GlbLayoutError::TooLarge => "GLB contents are too large",
        }
    }
}

/// The byte length of `count` vertices of three 4-byte floats.
pub open spec fn vertex_bytes(count: nat) -> nat {
    12 * count
}

/// Where the binary data of the first `n` meshes ends, each mesh given by its position and
/// normal counts: each block of positions and of normals starts at a multiple of four.
pub open spec fn layout_end(counts: Seq<(usize, usize)>, n: int) -> nat
    decreases n,
{
    if n <= 0 {
        0
    } else {
        let start = layout_end(counts, n - 1);
        let normals = padded_len(start + vertex_bytes(counts[n - 1].0 as nat), 4);
        padded_len(normals + vertex_bytes(counts[n - 1].1 as nat), 4)
    }
}

/// Whether `l` is the layout of mesh `i`.
pub open spec fn mesh_layout_matches(l: MeshLayout, counts: Seq<(usize, usize)>, i: int) -> bool {
    let start = layout_end(counts, i);
    let normals = padded_len(start + vertex_bytes(counts[i].0 as nat), 4);
    &&& l.position_offset == start
    &&& l.position_length == normals - start
    &&& l.normal_offset == normals
    &&& l.normal_length == vertex_bytes(counts[i].1 as nat)
}

proof fn lemma_padded_grows(len: nat)
    ensures
        len <= padded_len(len, 4) < len + 4,
{
    law_padding_aligns(len, 4);
}

proof fn lemma_layout_end_grows(counts: Seq<(usize, usize)>, m: int, n: int)
    requires
        0 <= m <= n <= counts.len(),
    ensures
        layout_end(counts, m) <= layout_end(counts, n),
    decreases n,
{
    if m < n {
        lemma_layout_end_grows(counts, m, n - 1);
        let start = layout_end(counts, n - 1);
        lemma_padded_grows(start + vertex_bytes(counts[n - 1].0 as nat));
        let normals = padded_len(start + vertex_bytes(counts[n - 1].0 as nat), 4);
        lemma_padded_grows(normals + vertex_bytes(counts[n - 1].1 as nat));
    }
}

fn pad4(x: usize) -> (r: Option<usize>)
    ensures
        match r {
            Some(v) => v == padded_len(x as nat, 4),
            None => padded_len(x as nat, 4) > usize::MAX,
        },
{
    let rem = x % 4;
    if rem == 0 {
        Some(x)
    } else {
        x.checked_add(4 - rem)
    }
}

fn vertex_len(count: usize) -> (r: Option<usize>)
    ensures
        match r {
            Some(v) => v == vertex_bytes(count as nat),
            None => vertex_bytes(count as nat) > usize::MAX,
        },
{
    count.checked_mul(12)
}

/// Plans the binary chunk of a GLB scene for meshes given by their position and normal
/// counts, in order: where each mesh's positions and normals lie, and the chunk's length.
/// There must be at least one mesh.
pub fn glb_mesh_layout(counts: &[(usize, usize)]) -> (r: Result<(Vec<MeshLayout>, usize), GlbLayoutError>)
    ensures
        match r {
            Ok((layouts, total)) => {
                &&& counts@.len() > 0
                &&& layout_end(counts@, counts@.len() as int) <= usize::MAX
                &&& total == layout_end(counts@, counts@.len() as int)
                &&& layouts@.len() == counts@.len()
                &&& forall|i: int| 0 <= i < counts@.len() ==> mesh_layout_matches(#[trigger] layouts@[i], counts@, i)
            },
            Err(GlbLayoutError::NoMeshes) => counts@.len() == 0,
            Err(GlbLayoutError::TooLarge) => counts@.len() > 0 && layout_end(counts@, counts@.len() as int)
                > usize::MAX,
        },
{
    if counts.len() == 0 {
        return Err(GlbLayoutError::NoMeshes);
    }
    let mut layouts: Vec<MeshLayout> = Vec::new();
    let mut offset: usize = 0;
    let mut i: usize = 0;
    while i < counts.len()
        invariant
            i <= counts@.len(),
            counts@.len() > 0,
            offset == layout_end(counts@, i as int),
            layouts@.len() == i,
            forall|k: int| 0 <= k < i ==> mesh_layout_matches(#[trigger] layouts@[k], counts@, k),
        decreases counts.len() - i,
    {
        let (positions, normals) = counts[i];
        let ghost start = offset as nat;
        let ghost pos_end = start + vertex_bytes(positions as nat);
        let ghost norm_start = padded_len(pos_end, 4);
        let ghost norm_end = norm_start + vertex_bytes(normals as nat);
        proof {
            lemma_padded_grows(pos_end);
            lemma_padded_grows(norm_end);
            lemma_layout_end_grows(counts@, i + 1, counts@.len() as int);
            assert(layout_end(counts@, i + 1) == padded_len(norm_end, 4));
        }
        let position_bytes = match vertex_len(positions) {
            Some(v) => v,
            None => return Err(GlbLayoutError::TooLarge),
        };
        let position_end = match offset.checked_add(position_bytes) {
            Some(v) => v,
            None => return Err(GlbLayoutError::TooLarge),
        };
        let normal_offset = match pad4(position_end) {
            Some(v) => v,
            None => return Err(GlbLayoutError::TooLarge),
        };
        let normal_bytes = match vertex_len(normals) {
            Some(v) => v,
            None => return Err(GlbLayoutError::TooLarge),
        };
        let normal_end = match normal_offset.checked_add(normal_bytes) {
            Some(v) => v,
            None => return Err(GlbLayoutError::TooLarge),
        };
        let next = match pad4(normal_end) {
            Some(v) => v,
            None => return Err(GlbLayoutError::TooLarge),
        };
        layouts.push(
            MeshLayout {
                position_offset: offset,
                position_length: normal_offset - offset,
                normal_offset,
                normal_length: normal_bytes,
            },
        );
        offset = next;
        i = i + 1;
    }
    Ok((layouts, offset))
}

} // verus!
