//! The image record exchanged with the clipboard collaborator, and the byte
//! codec used to pipe it to the helper process.
//!
//! The record is framed as a fixed 16-byte header — width and height, each as
//! eight little-endian bytes — followed by the raw RGBA pixel bytes. The
//! decoder accepts exactly the frames whose pixel payload length matches
//! `width * height * 4`; everything else is rejected, and the helper process
//! then skips the clipboard write.

use vstd::prelude::*;

verus! {

/// An exported image: dimensions plus an RGBA pixel buffer in row-major
/// order, four bytes per pixel.
#[derive(Debug, Clone, PartialEq)]
pub struct Image {
    pub width: usize,
    pub height: usize,
    pub bytes: Vec<u8>,
}

impl Image {
    /// The buffer holds exactly four bytes for every pixel.
    pub open spec fn wf(self) -> bool {
        self.bytes@.len() == self.width * self.height * 4
    }
}

/// The eight little-endian bytes of a 64-bit value, least significant first.
pub open spec fn u64_le_bytes(v: u64) -> Seq<u8> {
    seq![
        (v & 0xff) as u8,
        ((v >> 8) & 0xff) as u8,
        ((v >> 16) & 0xff) as u8,
        ((v >> 24) & 0xff) as u8,
        ((v >> 32) & 0xff) as u8,
        ((v >> 40) & 0xff) as u8,
        ((v >> 48) & 0xff) as u8,
        ((v >> 56) & 0xff) as u8,
    ]
}

/// The 64-bit value recombined from eight little-endian bytes.
pub open spec fn u64_from_le_bytes(s: Seq<u8>) -> u64 {
    (s[0] as u64) | ((s[1] as u64) << 8) | ((s[2] as u64) << 16) | ((s[3] as u64) << 24)
        | ((s[4] as u64) << 32) | ((s[5] as u64) << 40) | ((s[6] as u64) << 48)
        | ((s[7] as u64) << 56)
}

/// The encoded frame: width header, height header, then the pixel bytes.
pub open spec fn encode_spec(width: usize, height: usize, bytes: Seq<u8>) -> Seq<u8> {
    u64_le_bytes(width as u64) + u64_le_bytes(height as u64) + bytes
}

/// What decoding yields: the dimensions and payload of a well-formed frame,
/// or nothing when the frame is short, a dimension does not fit the platform,
/// or the payload length disagrees with the dimensions.
pub open spec fn decode_spec(s: Seq<u8>) -> Option<(usize, usize, Seq<u8>)> {
    if s.len() < 16 {
        None
    } else {
        let w = u64_from_le_bytes(s.subrange(0, 8));
        let h = u64_from_le_bytes(s.subrange(8, 16));
        if w <= usize::MAX as u64 && h <= usize::MAX as u64
            && (w as int) * (h as int) * 4 == s.len() - 16 {
            Some(((w as usize), (h as usize), s.subrange(16, s.len() as int)))
        } else {
            None
        }
    }
}

/// Recombining the little-endian bytes of a value gives the value back.
pub proof fn lemma_u64_le_round_trip(v: u64)
    ensures
        u64_from_le_bytes(u64_le_bytes(v)) == v,
{
    let s = u64_le_bytes(v);
    assert(
        (((v & 0xff) as u8) as u64)
        | (((((v >> 8) & 0xff) as u8) as u64) << 8)
        | (((((v >> 16) & 0xff) as u8) as u64) << 16)
        | (((((v >> 24) & 0xff) as u8) as u64) << 24)
        | (((((v >> 32) & 0xff) as u8) as u64) << 32)
        | (((((v >> 40) & 0xff) as u8) as u64) << 40)
        | (((((v >> 48) & 0xff) as u8) as u64) << 48)
        | (((((v >> 56) & 0xff) as u8) as u64) << 56)
        == v
    ) by (bit_vector);
}

/// Appends the eight little-endian bytes of `v`.
fn push_u64_le(out: &mut Vec<u8>, v: u64)
    ensures
        final(out)@ == old(out)@ + u64_le_bytes(v),
{
    assert(
        v & 0xff < 256 && (v >> 8) & 0xff < 256 && (v >> 16) & 0xff < 256
        && (v >> 24) & 0xff < 256 && (v >> 32) & 0xff < 256 && (v >> 40) & 0xff < 256
        && (v >> 48) & 0xff < 256 && (v >> 56) & 0xff < 256
    ) by (bit_vector);
    out.push((v & 0xff) as u8);
    out.push(((v >> 8) & 0xff) as u8);
    out.push(((v >> 16) & 0xff) as u8);
    out.push(((v >> 24) & 0xff) as u8);
    out.push(((v >> 32) & 0xff) as u8);
    out.push(((v >> 40) & 0xff) as u8);
    out.push(((v >> 48) & 0xff) as u8);
    out.push(((v >> 56) & 0xff) as u8);
    assert(out@ =~= old(out)@ + u64_le_bytes(v));
}

/// Serializes the record for the cross-process hand-off.
pub fn encode_image(img: &Image) -> (r: Vec<u8>)
    ensures
        r@ == encode_spec(img.width, img.height, img.bytes@),
{
    let mut out: Vec<u8> = Vec::new();
    push_u64_le(&mut out, img.width as u64);
    push_u64_le(&mut out, img.height as u64);
    let mut i: usize = 0;
    while i < img.bytes.len()
        invariant
            i <= img.bytes.len(),
            out@ == u64_le_bytes(img.width as u64) + u64_le_bytes(img.height as u64)
                + img.bytes@.subrange(0, i as int),
        decreases img.bytes.len() - i,
    {
        out.push(img.bytes[i]);
        i = i + 1;
        assert(out@ =~= u64_le_bytes(img.width as u64) + u64_le_bytes(img.height as u64)
            + img.bytes@.subrange(0, i as int));
    }
    assert(img.bytes@.subrange(0, img.bytes@.len() as int) =~= img.bytes@);
    out
}

/// Deserializes a record, accepting exactly the well-formed frames.
pub fn decode_image(data: &Vec<u8>) -> (r: Option<Image>)
    ensures
        r is Some <==> decode_spec(data@) is Some,
        r is Some ==> {
            let (w, h, b) = decode_spec(data@).unwrap();
            r.unwrap().width == w && r.unwrap().height == h && r.unwrap().bytes@ == b
        },
        r is Some ==> r.unwrap().wf(),
{
    if data.len() < 16 {
        return None;
    }
    let w64: u64 = (data[0] as u64) | ((data[1] as u64) << 8) | ((data[2] as u64) << 16)
        | ((data[3] as u64) << 24) | ((data[4] as u64) << 32) | ((data[5] as u64) << 40)
        | ((data[6] as u64) << 48) | ((data[7] as u64) << 56);
    let h64: u64 = (data[8] as u64) | ((data[9] as u64) << 8) | ((data[10] as u64) << 16)
        | ((data[11] as u64) << 24) | ((data[12] as u64) << 32) | ((data[13] as u64) << 40)
        | ((data[14] as u64) << 48) | ((data[15] as u64) << 56);
    assert(w64 == u64_from_le_bytes(data@.subrange(0, 8)));
    assert(h64 == u64_from_le_bytes(data@.subrange(8, 16)));
    if w64 > usize::MAX as u64 || h64 > usize::MAX as u64 {
        return None;
    }
    let payload_len: u128 = (data.len() - 16) as u128;
    let wl: u128 = w64 as u128;
    let hl: u128 = h64 as u128;
    proof {
        assert(wl * hl <= 0xffffffffffffffff * 0xffffffffffffffff) by (nonlinear_arith)
            requires
                wl <= 0xffffffffffffffff,
                hl <= 0xffffffffffffffff,
        ;
    }
    if payload_len % 4 != 0 || wl * hl != payload_len / 4 {
        assert((w64 as int) * (h64 as int) * 4 != data@.len() - 16);
        return None;
    }
    assert((w64 as int) * (h64 as int) * 4 == data@.len() - 16);
    let width = w64 as usize;
    let height = h64 as usize;
    let mut bytes: Vec<u8> = Vec::new();
    let mut i: usize = 16;
    while i < data.len()
        invariant
            16 <= i <= data.len(),
            bytes@ == data@.subrange(16, i as int),
        decreases data.len() - i,
    {
        bytes.push(data[i]);
        i = i + 1;
        assert(bytes@ =~= data@.subrange(16, i as int));
    }
    assert(width * height * 4 == bytes@.len()) by {
        assert((w64 as int) * (h64 as int) == (width as int) * (height as int));
    }
    Some(Image { width, height, bytes })
}

/// Round trip of the cross-process image record: a well-formed record,
/// serialized and then deserialized, comes back equal.
pub proof fn lemma_record_round_trip(width: usize, height: usize, bytes: Seq<u8>)
    requires
        bytes.len() == width * height * 4,
    ensures
        decode_spec(encode_spec(width, height, bytes)) == Some((width, height, bytes)),
{
    let e = encode_spec(width, height, bytes);
    assert(e.len() == 16 + bytes.len());
    assert(e.subrange(0, 8) =~= u64_le_bytes(width as u64));
    assert(e.subrange(8, 16) =~= u64_le_bytes(height as u64));
    lemma_u64_le_round_trip(width as u64);
    lemma_u64_le_round_trip(height as u64);
    let w = u64_from_le_bytes(e.subrange(0, 8));
    let h = u64_from_le_bytes(e.subrange(8, 16));
    assert(w == width as u64 && h == height as u64);
    assert((w as int) * (h as int) * 4 == e.len() - 16);
    assert(e.subrange(16, e.len() as int) =~= bytes);
}

} // verus!
