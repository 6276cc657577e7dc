use vstd::prelude::*;
use vstd::utf8::*;

use crate::crc::compute_crc;
use crate::crc::crc32;
use crate::stream::Stream;
use crate::stream::read_n;
use crate::stream::read_n_const;

verus! {

/// Errors of chunk parsing.
#[derive(Debug, Clone, Copy, PartialEq, Eq, Structural)]
pub enum Error {
    /// The chunk type is not valid UTF-8.
    InvalidChunkType,
    /// The stored CRC does not match the chunk.
    InvalidCrc,
}

/// The type of a chunk, from its four-byte name.
#[allow(non_camel_case_types)]
#[derive(Debug, PartialEq, Eq, Structural)]
pub enum ChunkType {
    ///Image header
    IHDR,
    ///Palette table
    PLTE,
    ///Image data chunks
    IDAT,
    ///Image trailer(last chunk of a png datastream)
    IEND,
    ///Transparency information
    tRNS,
    //Color space information
    cHRM,
    gAMA,
    iCCP,
    sBIT,
    sRGB,
    cICP,
    mDCv,
    ///International textual data
    iTXt,
    ///Textual data
    tEXt,
    ///Compressed textual data
    zTXt,
    //Misc information
    bKGD,
    hIST,
    pHYs,
    sPLT,
    eXIf,
    ///Time information
    tIME,
    //Animation information
    acTL,
    fcTL,
    fdAT,
    Unknown,
}

/// A chunk: its type and its data.
pub struct Chunk {
    pub chunk_type: ChunkType,
    pub data: Vec<u8>,
}

/// The chunk type named by `name`; names of no known type give `Unknown`.
pub open spec fn chunk_type_of(name: Seq<u8>) -> ChunkType {
    if name == seq!['I' as u8, 'H' as u8, 'D' as u8, 'R' as u8] {
        ChunkType::IHDR
    } else if name == seq!['P' as u8, 'L' as u8, 'T' as u8, 'E' as u8] {
        ChunkType::PLTE
    } else if name == seq!['I' as u8, 'D' as u8, 'A' as u8, 'T' as u8] {
        ChunkType::IDAT
    } else if name == seq!['I' as u8, 'E' as u8, 'N' as u8, 'D' as u8] {
        ChunkType::IEND
    } else if name == seq!['t' as u8, 'R' as u8, 'N' as u8, 'S' as u8] {
        ChunkType::tRNS
    } else if name == seq!['c' as u8, 'H' as u8, 'R' as u8, 'M' as u8] {
        ChunkType::cHRM
    } else if name == seq!['g' as u8, 'A' as u8, 'M' as u8, 'A' as u8] {
        ChunkType::gAMA
    } else if name == seq!['i' as u8, 'C' as u8, 'C' as u8, 'P' as u8] {
        ChunkType::iCCP
    } else if name == seq!['s' as u8, 'B' as u8, 'I' as u8, 'T' as u8] {
        ChunkType::sBIT
    } else if name == seq!['s' as u8, 'R' as u8, 'G' as u8, 'B' as u8] {
        ChunkType::sRGB
    } else if name == seq!['c' as u8, 'I' as u8, 'C' as u8, 'P' as u8] {
        ChunkType::cICP
    } else if name == seq!['m' as u8, 'D' as u8, 'C' as u8, 'v' as u8] {
        ChunkType::mDCv
    } else if name == seq!['i' as u8, 'T' as u8, 'X' as u8, 't' as u8] {
        ChunkType::iTXt
    } else if name == seq!['t' as u8, 'E' as u8, 'X' as u8, 't' as u8] {
        ChunkType::tEXt
    } else if name == seq!['z' as u8, 'T' as u8, 'X' as u8, 't' as u8] {
        ChunkType::zTXt
    } else if name == seq!['b' as u8, 'K' as u8, 'G' as u8, 'D' as u8] {
        ChunkType::bKGD
    } else if name == seq!['h' as u8, 'I' as u8, 'S' as u8, 'T' as u8] {
        ChunkType::hIST
    } else if name == seq!['p' as u8, 'H' as u8, 'Y' as u8, 's' as u8] {
        ChunkType::pHYs
    } else if name == seq!['s' as u8, 'P' as u8, 'L' as u8, 'T' as u8] {
        ChunkType::sPLT
    } else if name == seq!['e' as u8, 'X' as u8, 'I' as u8, 'f' as u8] {
        ChunkType::eXIf
    } else if name == seq!['t' as u8, 'I' as u8, 'M' as u8, 'E' as u8] {
        ChunkType::tIME
    } else if name == seq!['a' as u8, 'c' as u8, 'T' as u8, 'L' as u8] {
        ChunkType::acTL
    } else if name == seq!['f' as u8, 'c' as u8, 'T' as u8, 'L' as u8] {
        ChunkType::fcTL
    } else if name == seq!['f' as u8, 'd' as u8, 'A' as u8, 'T' as u8] {
        ChunkType::fdAT
    } else {
        ChunkType::Unknown
    }
}

/// `String::from_utf8`: true exactly when `bytes` is valid UTF-8.
#[verifier::external_body]
fn is_valid_utf8(bytes: Vec<u8>) -> (r: bool)
    ensures
        r == valid_utf8(bytes@),
{
    String::from_utf8(bytes).is_ok()
}

/// Bytes below `0x80` are each a character of their own in UTF-8.
pub proof fn ascii_is_valid_utf8(bytes: Seq<u8>)
    requires
        forall|i: int| 0 <= i < bytes.len() ==> bytes[i] < 0x80,
    ensures
        valid_utf8(bytes),
    decreases bytes.len(),
{
    if bytes.len() > 0 {
        let b = bytes[0];
        assert(codepoint_width_1(b) == b as u32) by (bit_vector)
            requires
                b < 0x80,
        ;
        assert(pop_first_scalar(bytes) =~= bytes.drop_first());
        ascii_is_valid_utf8(bytes.drop_first());
    }
}

fn same_name(a: &[u8; 4], b: &[u8; 4]) -> (r: bool)
    ensures
        r == (a@ == b@),
{
    let r = a[0] == b[0] && a[1] == b[1] && a[2] == b[2] && a[3] == b[3];
    if r {
        assert(a@ =~= b@);
    }
    r
}

/// The chunk type that the four bytes `data` name; any bytes that name no
/// known type give `Unknown`.
pub fn chunk_type_from_name(data: [u8; 4]) -> (r: ChunkType)
    ensures
        r == chunk_type_of(data@),
{
    if same_name(&data, &['I' as u8, 'H' as u8, 'D' as u8, 'R' as u8]) {
        ChunkType::IHDR
    } else if same_name(&data, &['P' as u8, 'L' as u8, 'T' as u8, 'E' as u8]) {
        ChunkType::PLTE
    } else if same_name(&data, &['I' as u8, 'D' as u8, 'A' as u8, 'T' as u8]) {
        ChunkType::IDAT
    } else if same_name(&data, &['I' as u8, 'E' as u8, 'N' as u8, 'D' as u8]) {
        ChunkType::IEND
    } else if same_name(&data, &['t' as u8, 'R' as u8, 'N' as u8, 'S' as u8]) {
        ChunkType::tRNS
    } else if same_name(&data, &['c' as u8, 'H' as u8, 'R' as u8, 'M' as u8]) {
        ChunkType::cHRM
    } else if same_name(&data, &['g' as u8, 'A' as u8, 'M' as u8, 'A' as u8]) {
        ChunkType::gAMA
    } else if same_name(&data, &['i' as u8, 'C' as u8, 'C' as u8, 'P' as u8]) {
        ChunkType::iCCP
    } else if same_name(&data, &['s' as u8, 'B' as u8, 'I' as u8, 'T' as u8]) {
        ChunkType::sBIT
    } else if same_name(&data, &['s' as u8, 'R' as u8, 'G' as u8, 'B' as u8]) {
        ChunkType::sRGB
    } else if same_name(&data, &['c' as u8, 'I' as u8, 'C' as u8, 'P' as u8]) {
        ChunkType::cICP
    } else if same_name(&data, &['m' as u8, 'D' as u8, 'C' as u8, 'v' as u8]) {
        ChunkType::mDCv
    } else if same_name(&data, &['i' as u8, 'T' as u8, 'X' as u8, 't' as u8]) {
        ChunkType::iTXt
    } else if same_name(&data, &['t' as u8, 'E' as u8, 'X' as u8, 't' as u8]) {
        ChunkType::tEXt
    } else if same_name(&data, &['z' as u8, 'T' as u8, 'X' as u8, 't' as u8]) {
        ChunkType::zTXt
    } else if same_name(&data, &['b' as u8, 'K' as u8, 'G' as u8, 'D' as u8]) {
        ChunkType::bKGD
    } else if same_name(&data, &['h' as u8, 'I' as u8, 'S' as u8, 'T' as u8]) {
        ChunkType::hIST
    } else if same_name(&data, &['p' as u8, 'H' as u8, 'Y' as u8, 's' as u8]) {
        ChunkType::pHYs
    } else if same_name(&data, &['s' as u8, 'P' as u8, 'L' as u8, 'T' as u8]) {
        ChunkType::sPLT
    } else if same_name(&data, &['e' as u8, 'X' as u8, 'I' as u8, 'f' as u8]) {
        ChunkType::eXIf
    } else if same_name(&data, &['t' as u8, 'I' as u8, 'M' as u8, 'E' as u8]) {
        ChunkType::tIME
    } else if same_name(&data, &['a' as u8, 'c' as u8, 'T' as u8, 'L' as u8]) {
        ChunkType::acTL
    } else if same_name(&data, &['f' as u8, 'c' as u8, 'T' as u8, 'L' as u8]) {
        ChunkType::fcTL
    } else if same_name(&data, &['f' as u8, 'd' as u8, 'A' as u8, 'T' as u8]) {
        ChunkType::fdAT
    } else {
        ChunkType::Unknown
    }
}

/// The chunk type named by `data`, or `InvalidChunkType` when `data` is not
/// valid UTF-8.
pub fn get_chunk_type(data: [u8; 4]) -> (r: Result<ChunkType, Error>)
    ensures
        r == (if valid_utf8(data@) {
            Ok(chunk_type_of(data@))
        } else {
            Err(Error::InvalidChunkType)
        }),
{
    let bytes = vstd::slice::slice_to_vec(data.as_slice());
    if !is_valid_utf8(bytes) {
        return Err(Error::InvalidChunkType);
    }
    Ok(chunk_type_from_name(data))
}


/// The big-endian value of the first four bytes of `b`.
pub open spec fn be_value(b: Seq<u8>) -> int {
    b[0] * 0x100_0000 + b[1] * 0x1_0000 + b[2] * 0x100 + b[3]
}

fn u32_from_be_bytes(b: [u8; 4]) -> (r: u32)
    ensures
        r == be_value(b@),
{
    let (b0, b1, b2, b3) = (b[0], b[1], b[2], b[3]);
    let r = ((b0 as u32) << 24) | ((b1 as u32) << 16) | ((b2 as u32) << 8) | (b3 as u32);
    assert(((b0 as u32) << 24) | ((b1 as u32) << 16) | ((b2 as u32) << 8) | (b3 as u32) == b0
        * 0x100_0000 + b1 * 0x1_0000 + b2 * 0x100 + b3) by (bit_vector);
    r
}

/// The length field of the chunk at the front of `s`.
pub open spec fn chunk_length(s: Seq<u8>) -> int {
    be_value(s.take(4))
}

/// The name of the chunk at the front of `s`.
pub open spec fn chunk_name(s: Seq<u8>) -> Seq<u8> {
    s.subrange(4, 8)
}

/// The data of the chunk at the front of `s`.
pub open spec fn chunk_data(s: Seq<u8>) -> Seq<u8> {
    s.subrange(8, 8 + chunk_length(s))
}

/// Name and data of the chunk at the front of `s`: what its CRC covers.
pub open spec fn chunk_body(s: Seq<u8>) -> Seq<u8> {
    s.subrange(4, 8 + chunk_length(s))
}

/// The CRC stored after the chunk at the front of `s`.
pub open spec fn chunk_stored_crc(s: Seq<u8>) -> int {
    be_value(s.subrange(8 + chunk_length(s), 12 + chunk_length(s)))
}

/// The stored CRC of the chunk at the front of `s` matches its name and data.
pub open spec fn chunk_crc_ok(s: Seq<u8>) -> bool {
    chunk_stored_crc(s) == crc32(chunk_body(s))
}

/// `s` begins with a whole chunk (length, name, data, CRC) whose length plus
/// four fits in 32 bits, and whose name is valid UTF-8 if its CRC matches.
pub open spec fn chunk_readable(s: Seq<u8>) -> bool {
    &&& s.len() >= 4
    &&& chunk_length(s) + 4 <= u32::MAX
    &&& s.len() >= chunk_length(s) + 12
    &&& chunk_crc_ok(s) ==> valid_utf8(chunk_name(s))
}

/// Reads one chunk from the stream: its length, name and data, and CRC.
pub fn parse_chunk(stream: &mut Stream<u8>) -> (r: Result<Chunk, Error>)
    requires
        chunk_readable(old(stream)@),
    ensures
        final(stream)@ == old(stream)@.skip(chunk_length(old(stream)@) + 12),
        chunk_crc_ok(old(stream)@) ==> (r matches Ok(c) && c.chunk_type == chunk_type_of(
            chunk_name(old(stream)@),
        ) && c.data@ == chunk_data(old(stream)@)),
        !chunk_crc_ok(old(stream)@) ==> r == Err::<Chunk, Error>(Error::InvalidCrc),
{
    let ghost s = stream@;
    let length_bytes: [u8; 4] = read_n_const(stream);
    let length = u32_from_be_bytes(length_bytes);
    assert(length_bytes@ == s.take(4));
    //Read type + data
    let mut data = read_n(stream, length + 4);
    assert(data@ =~= chunk_body(s));
    assert(stream@ =~= s.skip(8 + length));

    let computed_crc = compute_crc(data.as_slice());
    let crc: [u8; 4] = read_n_const(stream);
    assert(crc@ =~= s.subrange(8 + length, 12 + length));
    assert(stream@ =~= s.skip(12 + length));

    if u32_from_be_bytes(crc) != computed_crc {
        return Err(Error::InvalidCrc);
    }

    let mut chunk_type = [0u8; 4];
    let mut i: usize = 0;
    while i < 4
        invariant
            i <= 4,
            length + 4 == chunk_body(s).len(),
            data@ == chunk_body(s).skip(i as int),
            chunk_type@.take(i as int) == chunk_body(s).take(i as int),
        decreases 4 - i,
    {
        let ghost prev = chunk_type@;
        let d = data.remove(0);
        chunk_type[i] = d;
        assert(chunk_type@.take(i + 1) =~= prev.take(i as int).push(d));
        assert(chunk_body(s).take(i + 1) =~= chunk_body(s).take(i as int).push(d));
        assert(chunk_body(s).skip(i as int).remove(0) =~= chunk_body(s).skip(i + 1));
        i += 1;
    }
    assert(chunk_type@.take(4) =~= chunk_type@);
    assert(chunk_body(s).take(4) =~= chunk_name(s));
    assert(chunk_type@ =~= chunk_name(s));
    assert(data@ =~= chunk_data(s));

    let chunk_type = get_chunk_type(chunk_type).unwrap();

    Ok(Chunk { chunk_type, data })
}

/// The four big-endian bytes of `x`.
pub open spec fn be_bytes(x: u32) -> Seq<u8> {
    seq![(x >> 24) as u8, (x >> 16) as u8, (x >> 8) as u8, x as u8]
}

/// A chunk as it is stored: length, name, data, and the CRC of name and data.
pub open spec fn chunk_bytes(name: Seq<u8>, data: Seq<u8>) -> Seq<u8> {
    be_bytes(data.len() as u32) + name + data + be_bytes(crc32(name + data))
}

proof fn lemma_be_value_of_bytes(x: u32)
    ensures
        be_value(be_bytes(x)) == x,
{
    let b = be_bytes(x);
    assert(((x >> 24) as u8) * 0x100_0000 + ((x >> 16) as u8) * 0x1_0000 + ((x >> 8) as u8) * 0x100
        + (x as u8) == x) by (bit_vector);
}

/// A chunk stored with its length and CRC is read back as its type and its
/// data, and the stream is left just after it.
pub proof fn stored_chunk_reads_back(name: Seq<u8>, data: Seq<u8>, rest: Seq<u8>)
    requires
        name.len() == 4,
        valid_utf8(name),
        data.len() + 4 <= u32::MAX,
    ensures
        ({
            let s = chunk_bytes(name, data) + rest;
            &&& chunk_readable(s)
            &&& chunk_crc_ok(s)
            &&& chunk_length(s) == data.len()
            &&& chunk_name(s) == name
            &&& chunk_data(s) == data
            &&& s.skip(chunk_length(s) + 12) == rest
        }),
{
    let s = chunk_bytes(name, data) + rest;
    let n: int = data.len() as int;
    lemma_be_value_of_bytes(n as u32);
    lemma_be_value_of_bytes(crc32(name + data));
    assert(s.take(4) =~= be_bytes(n as u32));
    assert(chunk_name(s) =~= name);
    assert(chunk_data(s) =~= data);
    assert(chunk_body(s) =~= name + data);
    assert(s.subrange(8 + n, 12 + n) =~= be_bytes(crc32(name + data)));
    assert(s.skip(n + 12) =~= rest);
}

/// The four-byte name of each known chunk type (`Unknown` has none).
pub open spec fn chunk_type_name(t: ChunkType) -> Seq<u8> {
    match t {
        ChunkType::IHDR => seq!['I' as u8, 'H' as u8, 'D' as u8, 'R' as u8],
        ChunkType::PLTE => seq!['P' as u8, 'L' as u8, 'T' as u8, 'E' as u8],
        ChunkType::IDAT => seq!['I' as u8, 'D' as u8, 'A' as u8, 'T' as u8],
        ChunkType::IEND => seq!['I' as u8, 'E' as u8, 'N' as u8, 'D' as u8],
        ChunkType::tRNS => seq!['t' as u8, 'R' as u8, 'N' as u8, 'S' as u8],
        ChunkType::cHRM => seq!['c' as u8, 'H' as u8, 'R' as u8, 'M' as u8],
        ChunkType::gAMA => seq!['g' as u8, 'A' as u8, 'M' as u8, 'A' as u8],
        ChunkType::iCCP => seq!['i' as u8, 'C' as u8, 'C' as u8, 'P' as u8],
        ChunkType::sBIT => seq!['s' as u8, 'B' as u8, 'I' as u8, 'T' as u8],
        ChunkType::sRGB => seq!['s' as u8, 'R' as u8, 'G' as u8, 'B' as u8],
        ChunkType::cICP => seq!['c' as u8, 'I' as u8, 'C' as u8, 'P' as u8],
        ChunkType::mDCv => seq!['m' as u8, 'D' as u8, 'C' as u8, 'v' as u8],
        ChunkType::iTXt => seq!['i' as u8, 'T' as u8, 'X' as u8, 't' as u8],
        ChunkType::tEXt => seq!['t' as u8, 'E' as u8, 'X' as u8, 't' as u8],
        ChunkType::zTXt => seq!['z' as u8, 'T' as u8, 'X' as u8, 't' as u8],
        ChunkType::bKGD => seq!['b' as u8, 'K' as u8, 'G' as u8, 'D' as u8],
        ChunkType::hIST => seq!['h' as u8, 'I' as u8, 'S' as u8, 'T' as u8],
        ChunkType::pHYs => seq!['p' as u8, 'H' as u8, 'Y' as u8, 's' as u8],
        ChunkType::sPLT => seq!['s' as u8, 'P' as u8, 'L' as u8, 'T' as u8],
        ChunkType::eXIf => seq!['e' as u8, 'X' as u8, 'I' as u8, 'f' as u8],
        ChunkType::tIME => seq!['t' as u8, 'I' as u8, 'M' as u8, 'E' as u8],
        ChunkType::acTL => seq!['a' as u8, 'c' as u8, 'T' as u8, 'L' as u8],
        ChunkType::fcTL => seq!['f' as u8, 'c' as u8, 'T' as u8, 'L' as u8],
        ChunkType::fdAT => seq!['f' as u8, 'd' as u8, 'A' as u8, 'T' as u8],
        ChunkType::Unknown => Seq::empty(),
    }
}

/// Names and known chunk types correspond one to one: the name of each known
/// type is read as that type, and a name read as a known type is that type's
/// name; every other name is read as `Unknown`.
pub proof fn chunk_names_identify_types(t: ChunkType, name: Seq<u8>)
    ensures
        t != ChunkType::Unknown ==> chunk_type_of(chunk_type_name(t)) == t,
        chunk_type_of(name) != ChunkType::Unknown ==> name == chunk_type_name(
            chunk_type_of(name),
        ),
{
}
} // verus!
