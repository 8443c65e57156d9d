//! The binary container: a fixed header, the zone labels of both axes and
//! the matrix cells, every number as four bytes, least significant first.

use vstd::endian::{endianness, Endian};
use vstd::prelude::*;

verus! {

/// The constant that opens every container.
pub const MAGIC: u32 = 0xC4D4_F1B2;

/// The version of the layout.
pub const VERSION: u32 = 1;

/// The tag of the cell type: single-precision numbers.
pub const TYPE_TAG: u32 = 1;

/// The number of axes.
pub const DIMENSIONS: u32 = 2;

/// The length of the header, in bytes.
pub const HEADER_LEN: usize = 24;

/// The four bytes of a word, least significant first.
pub open spec fn le_bytes(word: u32) -> Seq<u8> {
    seq![
        (word % 256) as u8,
        (word / 256 % 256) as u8,
        (word / 65536 % 256) as u8,
        (word / 16777216) as u8,
    ]
}

/// The four bytes of a word, most significant first.
pub open spec fn be_bytes(word: u32) -> Seq<u8> {
    seq![
        (word / 16777216) as u8,
        (word / 65536 % 256) as u8,
        (word / 256 % 256) as u8,
        (word % 256) as u8,
    ]
}

/// The word with the bits of `value` in two's complement.
pub open spec fn unsigned(value: i32) -> u32 {
    if value >= 0 {
        value as u32
    } else {
        (value + 0x1_0000_0000) as u32
    }
}

/// The words with the bits of zone identifiers.
pub open spec fn zone_words(zones: Seq<i32>) -> Seq<u32> {
    Seq::new(zones.len(), |i: int| unsigned(zones[i]))
}

/// The bytes of a run of words, each least significant byte first: byte `i`
/// is byte `i % 4` of word `i / 4`.
pub open spec fn le_stream(words: Seq<u32>) -> Seq<u8> {
    Seq::new(4 * words.len(), |i: int| le_bytes(words[i / 4])[i % 4])
}

/// The bytes of a run of words, each most significant byte first.
pub open spec fn be_stream(words: Seq<u32>) -> Seq<u8> {
    Seq::new(4 * words.len(), |i: int| be_bytes(words[i / 4])[i % 4])
}

/// The bytes that a run of words occupies in the memory of the machine that
/// runs the program.
pub open spec fn native_stream(words: Seq<u32>) -> Seq<u8> {
    match endianness() {
        Endian::Little => le_stream(words),
        Endian::Big => be_stream(words),
    }
}

/// What the header holds for a count of `n` zones: the low 32 bits of `n`.
pub open spec fn size_field(n: nat) -> u32 {
    (n % 0x1_0000_0000) as u32
}

/// The header of a container with `n` zones.
pub open spec fn header(n: nat) -> Seq<u8> {
    le_bytes(MAGIC) + le_bytes(VERSION) + le_bytes(TYPE_TAG) + le_bytes(DIMENSIONS) + le_bytes(
        size_field(n),
    ) + le_bytes(size_field(n))
}

/// The container for the zones `zones` and the cells `matrix`: the header,
/// the zones as labels of the origin axis, the same zones as labels of the
/// destination axis, and the cells in the order given.
pub open spec fn mtx_bytes(zones: Seq<i32>, matrix: Seq<u32>) -> Seq<u8> {
    header(zones.len()) + le_stream(zone_words(zones)) + le_stream(zone_words(zones)) + le_stream(
        matrix,
    )
}

/// The container as it comes out when labels and cells are copied from
/// memory as they lie there.
pub open spec fn mtx_bytes_native(zones: Seq<i32>, matrix: Seq<u32>) -> Seq<u8> {
    header(zones.len()) + native_stream(zone_words(zones)) + native_stream(zone_words(zones))
        + native_stream(matrix)
}

/// The shape of a container: a header of 24 bytes, four bytes for each label
/// of either axis and four bytes for each cell. Both size fields of the
/// header, at bytes 16 and 20, hold the number of zones.
pub proof fn law_container_shape(zones: Seq<i32>, matrix: Seq<u32>)
    ensures
        header(zones.len()).len() == HEADER_LEN,
        mtx_bytes(zones, matrix).len() == HEADER_LEN + 8 * zones.len() + 4 * matrix.len(),
        mtx_bytes(zones, matrix).subrange(0, 4) == le_bytes(MAGIC),
        mtx_bytes(zones, matrix).subrange(16, 20) == le_bytes(size_field(zones.len())),
        mtx_bytes(zones, matrix).subrange(20, 24) == le_bytes(size_field(zones.len())),
        zones.len() <= u32::MAX ==> size_field(zones.len()) == zones.len(),
{
}

/// On a machine that stores the least significant byte of a word first, the
/// path that copies from memory and the path that converts element by element
/// give the same bytes.
pub proof fn law_paths_agree(zones: Seq<i32>, matrix: Seq<u32>)
    requires
        endianness() is Little,
    ensures
        mtx_bytes_native(zones, matrix) == mtx_bytes(zones, matrix),
{
}

/// Calls `bytemuck::cast_slice` to view zone identifiers as the bytes they
/// occupy in memory. The cast to bytes neither fails nor copies. The contract
/// says that each identifier occupies four bytes, in two's complement and in
/// the byte order of the machine.
#[verifier::external_body]
fn zones_as_bytes(zones: &[i32]) -> (bytes: &[u8])
    ensures
        bytes@ == native_stream(zone_words(zones@)),
{
    bytemuck::cast_slice(zones)
}

/// Calls `bytemuck::cast_slice` to view words as the bytes they occupy in
/// memory. The cast to bytes neither fails nor copies. The contract says that
/// each word occupies four bytes, in the byte order of the machine.
#[verifier::external_body]
fn words_as_bytes(words: &[u32]) -> (bytes: &[u8])
    ensures
        bytes@ == native_stream(words@),
{
    bytemuck::cast_slice(words)
}

/// The word with the bits of `value`.
pub fn to_unsigned(value: i32) -> (word: u32)
    ensures
        word == unsigned(value),
{
    if value >= 0 {
        value as u32
    } else {
        ((value - i32::MIN) as u32) + 0x8000_0000
    }
}

/// Appends the bytes of `word`, least significant first.
pub fn push_word(out: &mut Vec<u8>, word: u32)
    ensures
        final(out)@ == old(out)@ + le_bytes(word),
{
    out.push((word % 256) as u8);
    out.push((word / 256 % 256) as u8);
    out.push((word / 65536 % 256) as u8);
    out.push((word / 16777216) as u8);
}

/// Appends the header of a container with `n` zones.
pub fn push_header(out: &mut Vec<u8>, n: usize)
    ensures
        final(out)@ == old(out)@ + header(n as nat),
{
    let size: u32 = (n as u64 % 0x1_0000_0000) as u32;
    push_word(out, MAGIC);
    push_word(out, VERSION);
    push_word(out, TYPE_TAG);
    push_word(out, DIMENSIONS);
    push_word(out, size);
    push_word(out, size);
}

/// Appends the bytes of `words`, word by word.
pub fn push_words(out: &mut Vec<u8>, words: &[u32])
    ensures
        final(out)@ == old(out)@ + le_stream(words@),
{
    let ghost before = out@;
    let mut i: usize = 0;
    while i < words.len()
        invariant
            i <= words.len(),
            out@ == before + le_stream(words@.take(i as int)),
        decreases words.len() - i,
    {
        push_word(out, words[i]);
        assert(le_stream(words@.take(i as int)) + le_bytes(words@[i as int]) =~= le_stream(
            words@.take(i + 1),
        ));
        i += 1;
    }
}

/// Appends the bytes of `zones`, identifier by identifier.
pub fn push_zones(out: &mut Vec<u8>, zones: &[i32])
    ensures
        final(out)@ == old(out)@ + le_stream(zone_words(zones@)),
{
    let ghost before = out@;
    let mut i: usize = 0;
    while i < zones.len()
        invariant
            i <= zones.len(),
            out@ == before + le_stream(zone_words(zones@.take(i as int))),
        decreases zones.len() - i,
    {
        push_word(out, to_unsigned(zones[i]));
        assert(le_stream(zone_words(zones@.take(i as int))) + le_bytes(unsigned(zones@[i as int]))
            =~= le_stream(zone_words(zones@.take(i + 1))));
        i += 1;
    }
}

/// Appends a copy of `bytes`.
pub fn push_bytes(out: &mut Vec<u8>, bytes: &[u8])
    ensures
        final(out)@ == old(out)@ + bytes@,
{
    out.extend_from_slice(bytes);
}

/// Lays out the container element by element. This path gives the same bytes
/// on every machine.
pub fn encode_portable(zones: &[i32], matrix: &[u32]) -> (out: Vec<u8>)
    ensures
        out@ == mtx_bytes(zones@, matrix@),
{
    let mut out: Vec<u8> = Vec::new();
    push_header(&mut out, zones.len());
    push_zones(&mut out, zones);
    push_zones(&mut out, zones);
    push_words(&mut out, matrix);
    out
}

/// Lays out the container by copying labels and cells from memory as they
/// lie there. On a machine that stores the least significant byte first
/// this gives the bytes of [`encode_portable`].
pub fn encode_native(zones: &[i32], matrix: &[u32]) -> (out: Vec<u8>)
    ensures
        out@ == mtx_bytes_native(zones@, matrix@),
        endianness() is Little ==> out@ == mtx_bytes(zones@, matrix@),
{
    let mut out: Vec<u8> = Vec::new();
    push_header(&mut out, zones.len());
    let labels = zones_as_bytes(zones);
    push_bytes(&mut out, labels);
    push_bytes(&mut out, labels);
    push_bytes(&mut out, words_as_bytes(matrix));
    out
}

/// Whether the machine that runs the program stores the least significant
/// byte of a word first.
pub fn host_is_little_endian() -> (little: bool)
    ensures
        little <==> endianness() is Little,
{
    let probe: Vec<u32> = vec![1u32];
    let bytes = words_as_bytes(probe.as_slice());
    bytes[0] == 1
}

/// Lays out the container, by the quicker path where that gives the right
/// bytes.
pub fn encode(zones: &[i32], matrix: &[u32]) -> (out: Vec<u8>)
    ensures
        out@ == mtx_bytes(zones@, matrix@),
{
    if host_is_little_endian() {
        encode_native(zones, matrix)
    } else {
        encode_portable(zones, matrix)
    }
}

} // verus!
