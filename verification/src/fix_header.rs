//! The header-fixup operation and its byte-level model.
//!
//! The model is the spec function [`fixed_image`]: for any starting image and
//! any field values it gives the exact byte sequence the image must hold after
//! a fixup. The executable [`fix_header`] promises to leave the image equal to
//! that sequence, and the public lemmas state the properties the loader relies
//! on: preservation outside the header region, field placement, the constant
//! bytes, the preserved device-type bit, the checksum formula and idempotence.

use vstd::prelude::*;

verus! {

/// First byte of the header region the fixup may touch.
pub const HEADER_START: usize = 0xA0;

/// First byte past the header region; an image must reach this length.
pub const HEADER_END: usize = 0xC0;

/// Offset of the device-type byte whose top bit is preserved.
pub const DEVICE_TYPE_OFFSET: usize = 0xB4;

/// Offset of the derived checksum byte.
pub const CHECKSUM_OFFSET: usize = 0xBD;

/// The image as the underlying byte store sees it once the header region has
/// been written: a store extends itself with zero bytes up to the write
/// position, so an image shorter than `HEADER_END` grows to exactly that
/// length and a longer one keeps its length.
pub open spec fn zero_extended(s: Seq<u8>) -> Seq<u8> {
    if s.len() >= HEADER_END {
        s
    } else {
        s + Seq::new((HEADER_END - s.len()) as nat, |i: int| 0u8)
    }
}

/// The device-type byte the fixup writes back: bit 7 of the byte currently at
/// `DEVICE_TYPE_OFFSET`, with the low seven bits forced to zero.
pub open spec fn preserved_device_bit(s: Seq<u8>) -> u8 {
    zero_extended(s)[DEVICE_TYPE_OFFSET as int] & 0x80
}

/// Sum of a byte sequence as an unbounded integer.
pub open spec fn sum_bytes(s: Seq<u8>) -> int
    decreases s.len(),
{
    if s.len() == 0 {
        0
    } else {
        sum_bytes(s.drop_last()) + s.last()
    }
}

/// Sum of the header bytes `[0xA0, 0xBD)` after every field has been written:
/// the three code buffers, the fixed marker `0x96`, the preserved device bit
/// and the version byte; every other byte in that range is zero.
pub open spec fn header_sum(
    title: Seq<u8>,
    game_code: Seq<u8>,
    maker_code: Seq<u8>,
    version: u8,
    device: u8,
) -> int {
    sum_bytes(title) + sum_bytes(game_code) + sum_bytes(maker_code) + 0x96 + device + version
}

/// The checksum byte the loader expects: the one-byte two's-complement
/// negation of the header sum plus `0x19`, taken modulo 256.
pub open spec fn complement_checksum(sum: int) -> u8 {
    ((0x100 - ((sum + 0x19) % 0x100)) % 0x100) as u8
}

/// Byte `i` of the rewritten header region, relative to `HEADER_START`.
pub open spec fn header_byte(
    title: Seq<u8>,
    game_code: Seq<u8>,
    maker_code: Seq<u8>,
    version: u8,
    device: u8,
    i: int,
) -> u8 {
    if 0 <= i < 0x0C {
        title[i]
    } else if i < 0x10 {
        game_code[i - 0x0C]
    } else if i < 0x12 {
        maker_code[i - 0x10]
    } else if i == 0x12 {
        0x96
    } else if i == 0x13 {
        0x00
    } else if i == 0x14 {
        device
    } else if i < 0x1C {
        0x00
    } else if i == 0x1C {
        version
    } else if i == 0x1D {
        complement_checksum(header_sum(title, game_code, maker_code, version, device))
    } else {
        0x00
    }
}

/// The 0x20 bytes that replace the region `[HEADER_START, HEADER_END)`.
pub open spec fn header_region(
    title: Seq<u8>,
    game_code: Seq<u8>,
    maker_code: Seq<u8>,
    version: u8,
    device: u8,
) -> Seq<u8> {
    Seq::new((HEADER_END - HEADER_START) as nat, |i: int| header_byte(title, game_code, maker_code, version, device, i))
}

/// The whole image after a fixup: unchanged up to `HEADER_START`, the
/// rewritten header region, and the rest of the (zero-extended) image
/// unchanged after `HEADER_END`.
pub open spec fn fixed_image(
    s: Seq<u8>,
    title: Seq<u8>,
    game_code: Seq<u8>,
    maker_code: Seq<u8>,
    version: u8,
) -> Seq<u8> {
    let z = zero_extended(s);
    z.subrange(0, HEADER_START as int)
        + header_region(title, game_code, maker_code, version, preserved_device_bit(s))
        + z.subrange(HEADER_END as int, z.len() as int)
}

/// The one failure kind of a fixup: an error of the underlying byte store.
/// An in-memory image never produces one; the shape stays so that callers
/// staging the image through a file can treat the fixup's result like any
/// other step of the stream's lifecycle.
#[derive(Clone, Copy, Debug, PartialEq, Eq, Structural)]
pub enum HeaderError {
    /// A seek, read or write on the byte store failed.
    Io,
}

/// Packs the rewritten header region: the three field buffers, the constant
/// and reserved bytes, the device byte handed in, the version, and the
/// checksum derived from everything before it.
fn build_header_region(
    title: &[u8; 12],
    game_code: &[u8; 4],
    maker_code: &[u8; 2],
    version: u8,
    device: u8,
) -> (header: Vec<u8>)
    ensures
        header@ == header_region(title@, game_code@, maker_code@, version, device),
{
    let ghost model = header_region(title@, game_code@, maker_code@, version, device);
    let mut header: Vec<u8> = Vec::new();
    let mut i: usize = 0;
    while i < 12
        invariant
            i <= 12,
            header@.len() == i,
            forall|j: int| 0 <= j < i ==> header@[j] == title@[j],
        decreases 12 - i,
    {
        header.push(title[i]);
        i += 1;
    }
    i = 0;
    while i < 4
        invariant
            i <= 4,
            header@.len() == 12 + i,
            forall|j: int| 0 <= j < 12 ==> header@[j] == title@[j],
            forall|j: int| 12 <= j < 12 + i ==> #[trigger] header@[j] == game_code@[j - 12],
        decreases 4 - i,
    {
        header.push(game_code[i]);
        i += 1;
    }
    i = 0;
    while i < 2
        invariant
            i <= 2,
            header@.len() == 0x10 + i,
            forall|j: int| 0 <= j < 12 ==> header@[j] == title@[j],
            forall|j: int| 12 <= j < 0x10 ==> #[trigger] header@[j] == game_code@[j - 12],
            forall|j: int| 0x10 <= j < 0x10 + i ==> #[trigger] header@[j] == maker_code@[j - 0x10],
        decreases 2 - i,
    {
        header.push(maker_code[i]);
        i += 1;
    }
    header.push(0x96);
    header.push(0x00);
    header.push(device);
    i = 0;
    while i < 7
        invariant
            i <= 7,
            header@.len() == 0x15 + i,
            forall|j: int| 0 <= j < 12 ==> header@[j] == title@[j],
            forall|j: int| 12 <= j < 0x10 ==> #[trigger] header@[j] == game_code@[j - 12],
            forall|j: int| 0x10 <= j < 0x12 ==> #[trigger] header@[j] == maker_code@[j - 0x10],
            header@[0x12] == 0x96u8,
            header@[0x13] == 0x00u8,
            header@[0x14] == device,
            forall|j: int| 0x15 <= j < 0x15 + i ==> #[trigger] header@[j] == 0u8,
        decreases 7 - i,
    {
        header.push(0x00);
        i += 1;
    }
    header.push(version);
    proof {
        assert(header@ =~= model.take(0x1D));
        lemma_header_region_sum(title@, game_code@, maker_code@, version, device);
        lemma_sum_bytes_bounds(header@);
    }
    let ghost packed = header@;
    let mut sum: u32 = 0;
    let mut j: usize = 0;
    while j < header.len()
        invariant
            header@ == packed,
            packed.len() == 0x1D,
            j <= 0x1D,
            sum == sum_bytes(packed.take(j as int)),
            sum <= 255 * j,
        decreases header@.len() - j,
    {
        proof {
            assert(packed.take(j + 1).drop_last() =~= packed.take(j as int));
            lemma_sum_bytes_bounds(packed.take(j as int));
        }
        sum = sum + header[j] as u32;
        j += 1;
    }
    proof {
        assert(packed.take(0x1D) =~= packed);
    }
    let checksum: u32 = (0x100 - ((sum + 0x19) % 0x100)) % 0x100;
    header.push(checksum as u8);
    header.push(0x00);
    header.push(0x00);
    proof {
        assert(header@ =~= model);
    }
    header
}

/// Rewrites the header region of the image held in `stream`, exactly as the
/// model [`fixed_image`] describes: the caller's fields and the constant
/// bytes land at their offsets, the top bit of the device-type byte is kept,
/// the checksum is derived from the freshly written bytes, and nothing
/// outside `[HEADER_START, HEADER_END)` changes. An image shorter than
/// `HEADER_END` first grows with zero bytes to that length, as writing past
/// the end of a byte store extends it. On an in-memory image nothing can
/// fail, so the result is always `Ok`.
pub fn fix_header(
    stream: &mut Vec<u8>,
    title: &[u8; 12],
    game_code: &[u8; 4],
    maker_code: &[u8; 2],
    version: u8,
) -> (result: Result<(), HeaderError>)
    ensures
        result is Ok,
        final(stream)@ == fixed_image(old(stream)@, title@, game_code@, maker_code@, version),
{
    let ghost orig = stream@;
    while stream.len() < HEADER_END
        invariant
            orig.len() <= stream@.len() <= zero_extended(orig).len(),
            stream@ == zero_extended(orig).take(stream@.len() as int),
        decreases HEADER_END - stream@.len(),
    {
        proof {
            assert(zero_extended(orig).take(stream@.len() as int + 1).drop_last() =~= zero_extended(
                orig,
            ).take(stream@.len() as int));
        }
        stream.push(0x00);
        proof {
            assert(stream@ =~= zero_extended(orig).take(stream@.len() as int));
        }
    }
    proof {
        assert(stream@ =~= zero_extended(orig));
    }
    let device = stream[DEVICE_TYPE_OFFSET] & 0x80;
    let header = build_header_region(title, game_code, maker_code, version, device);
    let ghost z = zero_extended(orig);
    let mut i: usize = 0;
    while i < HEADER_END - HEADER_START
        invariant
            i <= 0x20,
            stream@.len() == z.len(),
            z.len() >= 0xC0,
            header@.len() == 0x20,
            forall|j: int|
                0 <= j < stream@.len() && !(0xA0 <= j < 0xA0 + i) ==> stream@[j] == z[j],
            forall|j: int| 0 <= j < i ==> stream@[0xA0 + j] == header@[j],
        decreases 0x20 - i,
    {
        stream.set(HEADER_START + i, header[i]);
        i += 1;
    }
    proof {
        assert(stream@ =~= fixed_image(orig, title@, game_code@, maker_code@, version));
    }
    Ok(())
}

/// Preservation: on an image at least `HEADER_END` bytes long, a fixup keeps
/// the image's length and leaves every byte below `HEADER_START` and every
/// byte at or above `HEADER_END` exactly as it was.
pub proof fn lemma_preservation(
    s: Seq<u8>,
    title: Seq<u8>,
    game_code: Seq<u8>,
    maker_code: Seq<u8>,
    version: u8,
)
    requires
        s.len() >= HEADER_END,
        title.len() == 12,
        game_code.len() == 4,
        maker_code.len() == 2,
    ensures
        fixed_image(s, title, game_code, maker_code, version).len() == s.len(),
        forall|i: int|
            0 <= i < 0xA0 ==> #[trigger] fixed_image(s, title, game_code, maker_code, version)[i]
                == s[i],
        forall|i: int|
            0xC0 <= i < s.len() ==> #[trigger] fixed_image(
                s,
                title,
                game_code,
                maker_code,
                version,
            )[i] == s[i],
{
}

/// Field fidelity: after a fixup the title, game code, maker code and version
/// stand at their exact offsets, byte for byte.
pub proof fn lemma_field_fidelity(
    s: Seq<u8>,
    title: Seq<u8>,
    game_code: Seq<u8>,
    maker_code: Seq<u8>,
    version: u8,
)
    requires
        s.len() >= HEADER_END,
        title.len() == 12,
        game_code.len() == 4,
        maker_code.len() == 2,
    ensures
        fixed_image(s, title, game_code, maker_code, version).subrange(0xA0, 0xAC) == title,
        fixed_image(s, title, game_code, maker_code, version).subrange(0xAC, 0xB0) == game_code,
        fixed_image(s, title, game_code, maker_code, version).subrange(0xB0, 0xB2) == maker_code,
        fixed_image(s, title, game_code, maker_code, version)[0xBC] == version,
{
    assert(fixed_image(s, title, game_code, maker_code, version).subrange(0xA0, 0xAC) =~= title);
    assert(fixed_image(s, title, game_code, maker_code, version).subrange(0xAC, 0xB0)
        =~= game_code);
    assert(fixed_image(s, title, game_code, maker_code, version).subrange(0xB0, 0xB2)
        =~= maker_code);
}

/// Constants: after a fixup the fixed marker and main-unit bytes hold their
/// required values and both reserved runs are all zero.
pub proof fn lemma_constants(
    s: Seq<u8>,
    title: Seq<u8>,
    game_code: Seq<u8>,
    maker_code: Seq<u8>,
    version: u8,
)
    requires
        s.len() >= HEADER_END,
        title.len() == 12,
        game_code.len() == 4,
        maker_code.len() == 2,
    ensures
        fixed_image(s, title, game_code, maker_code, version)[0xB2] == 0x96u8,
        fixed_image(s, title, game_code, maker_code, version)[0xB3] == 0x00u8,
        forall|i: int|
            0xB5 <= i < 0xBC ==> #[trigger] fixed_image(s, title, game_code, maker_code, version)[i]
                == 0x00u8,
        fixed_image(s, title, game_code, maker_code, version)[0xBE] == 0x00u8,
        fixed_image(s, title, game_code, maker_code, version)[0xBF] == 0x00u8,
{
}

/// Device-type bit: the fixup carries bit 7 of the old device-type byte over
/// unchanged and forces the low seven bits to zero, whatever the byte held.
pub proof fn lemma_device_type_bit(
    s: Seq<u8>,
    title: Seq<u8>,
    game_code: Seq<u8>,
    maker_code: Seq<u8>,
    version: u8,
)
    requires
        s.len() >= HEADER_END,
        title.len() == 12,
        game_code.len() == 4,
        maker_code.len() == 2,
    ensures
        s[0xB4] & 0x80 == 0x80 ==> fixed_image(s, title, game_code, maker_code, version)[0xB4]
            == 0x80u8,
        s[0xB4] & 0x80 == 0x00 ==> fixed_image(s, title, game_code, maker_code, version)[0xB4]
            == 0x00u8,
        fixed_image(s, title, game_code, maker_code, version)[0xB4] & 0x7F == 0x00,
{
    let b = s[0xB4];
    assert(fixed_image(s, title, game_code, maker_code, version)[0xB4] == b & 0x80);
    assert((b & 0x80) & 0x7F == 0) by (bit_vector);
}

/// Checksum: the byte at `CHECKSUM_OFFSET` is the complement checksum of the
/// header bytes `[0xA0, 0xBD)` as they stand in the fixed-up image, not as
/// they stood before the call.
pub proof fn lemma_checksum(
    s: Seq<u8>,
    title: Seq<u8>,
    game_code: Seq<u8>,
    maker_code: Seq<u8>,
    version: u8,
)
    requires
        s.len() >= HEADER_END,
        title.len() == 12,
        game_code.len() == 4,
        maker_code.len() == 2,
    ensures
        fixed_image(s, title, game_code, maker_code, version)[CHECKSUM_OFFSET as int]
            == complement_checksum(
            sum_bytes(fixed_image(s, title, game_code, maker_code, version).subrange(0xA0, 0xBD)),
        ),
{
    let device = preserved_device_bit(s);
    assert(fixed_image(s, title, game_code, maker_code, version).subrange(0xA0, 0xBD)
        =~= header_region(title, game_code, maker_code, version, device).take(0x1D));
    lemma_header_region_sum(title, game_code, maker_code, version, device);
}

/// Idempotence: fixing an image up twice with the same inputs gives the same
/// bytes as fixing it up once, whatever length the image started with.
pub proof fn lemma_idempotent(
    s: Seq<u8>,
    title: Seq<u8>,
    game_code: Seq<u8>,
    maker_code: Seq<u8>,
    version: u8,
)
    requires
        title.len() == 12,
        game_code.len() == 4,
        maker_code.len() == 2,
    ensures
        fixed_image(
            fixed_image(s, title, game_code, maker_code, version),
            title,
            game_code,
            maker_code,
            version,
        ) == fixed_image(s, title, game_code, maker_code, version),
{
    let f1 = fixed_image(s, title, game_code, maker_code, version);
    assert(zero_extended(f1) =~= f1);
    let b = zero_extended(s)[0xB4];
    assert(f1[0xB4] == b & 0x80);
    assert((b & 0x80) & 0x80 == b & 0x80) by (bit_vector);
    assert(preserved_device_bit(f1) == preserved_device_bit(s));
    assert(fixed_image(f1, title, game_code, maker_code, version) =~= f1);
}

/// The 29 header bytes `[0xA0, 0xBD)` that feed the checksum sum to exactly
/// the header sum: the field buffers, the fixed marker, the device byte and
/// the version, with every reserved byte contributing nothing.
proof fn lemma_header_region_sum(
    title: Seq<u8>,
    game_code: Seq<u8>,
    maker_code: Seq<u8>,
    version: u8,
    device: u8,
)
    requires
        title.len() == 12,
        game_code.len() == 4,
        maker_code.len() == 2,
    ensures
        sum_bytes(header_region(title, game_code, maker_code, version, device).take(0x1D))
            == header_sum(title, game_code, maker_code, version, device),
{
    let fixed3 = seq![0x96u8, 0x00u8, device];
    let zeros7 = Seq::new(7, |k: int| 0u8);
    let last1 = seq![version];
    let p1 = title + game_code;
    let p2 = p1 + maker_code;
    let p3 = p2 + fixed3;
    let p4 = p3 + zeros7;
    let p5 = p4 + last1;
    assert(header_region(title, game_code, maker_code, version, device).take(0x1D) =~= p5);
    lemma_sum_bytes_append(title, game_code);
    lemma_sum_bytes_append(p1, maker_code);
    lemma_sum_bytes_append(p2, fixed3);
    lemma_sum_bytes_append(p3, zeros7);
    lemma_sum_bytes_append(p4, last1);
    lemma_sum_bytes_zeros(7);
    let s1 = seq![0x96u8];
    let s2 = seq![0x96u8, 0x00u8];
    assert(sum_bytes(Seq::<u8>::empty()) == 0);
    assert(s1.drop_last() =~= Seq::<u8>::empty());
    assert(sum_bytes(s1) == 0x96);
    assert(s2.drop_last() =~= s1);
    assert(sum_bytes(s2) == 0x96);
    assert(fixed3.drop_last() =~= s2);
    assert(sum_bytes(fixed3) == 0x96 + device);
    assert(last1.drop_last() =~= Seq::<u8>::empty());
    assert(sum_bytes(last1) == version);
}

/// A sequence of zero bytes sums to zero.
proof fn lemma_sum_bytes_zeros(n: nat)
    ensures
        sum_bytes(Seq::new(n, |i: int| 0u8)) == 0,
    decreases n,
{
    if n > 0 {
        assert(Seq::new(n, |i: int| 0u8).drop_last() =~= Seq::new((n - 1) as nat, |i: int| 0u8));
        lemma_sum_bytes_zeros((n - 1) as nat);
    }
}

/// Summing distributes over concatenation.
proof fn lemma_sum_bytes_append(a: Seq<u8>, b: Seq<u8>)
    ensures
        sum_bytes(a + b) == sum_bytes(a) + sum_bytes(b),
    decreases b.len(),
{
    if b.len() == 0 {
        assert(a + b =~= a);
    } else {
        lemma_sum_bytes_append(a, b.drop_last());
        assert((a + b).drop_last() =~= a + b.drop_last());
    }
}

/// A byte sum lies between zero and 255 per byte.
proof fn lemma_sum_bytes_bounds(s: Seq<u8>)
    ensures
        0 <= sum_bytes(s) <= 255 * s.len(),
    decreases s.len(),
{
    if s.len() > 0 {
        lemma_sum_bytes_bounds(s.drop_last());
    }
}

} // verus!
