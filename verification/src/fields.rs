//! Validation and packing of the caller-supplied header fields.
//!
//! The command line hands the fixup human-typed strings; before they reach the
//! header they are checked against the loader's character rules and packed
//! into the fixed-size byte buffers the header layout asks for.

use crate::fix_header::fix_header;
use crate::fix_header::fixed_image;
use crate::fix_header::HeaderError;
use vstd::prelude::*;
use vstd::string::StringSliceAdditionalSpecFns;

verus! {

/// A field's bytes followed by zero bytes up to the field's width.
pub open spec fn zero_padded(bytes: Seq<u8>, width: nat) -> Seq<u8> {
    bytes + Seq::new((width - bytes.len()) as nat, |i: int| 0u8)
}

/// Packs a validated field into its fixed-width buffer: the field's bytes
/// first, any unused tail zero, as the header layout asks.
pub fn field_buffer<const N: usize>(field: &str) -> (buf: [u8; N])
    requires
        field.spec_bytes().len() <= N,
    ensures
        buf@ == zero_padded(field.spec_bytes(), N as nat),
{
    let bytes = field.as_bytes();
    let mut buf = [0u8; N];
    let mut i: usize = 0;
    while i < bytes.len()
        invariant
            bytes@ == field.spec_bytes(),
            bytes@.len() <= N,
            i <= bytes@.len(),
            forall|j: int| 0 <= j < i ==> buf@[j] == bytes@[j],
            forall|j: int| i <= j < N ==> buf@[j] == 0u8,
        decreases bytes@.len() - i,
    {
        buf[i] = bytes[i];
        i += 1;
    }
    proof {
        assert(buf@ =~= zero_padded(field.spec_bytes(), N as nat));
    }
    buf
}

/// Fixes the header of the in-memory image up from command-line fields: the
/// already-validated title, game code and maker code are packed into their
/// fixed-width buffers (the title zero-padded to its twelve bytes) and the
/// header region is rewritten as [`fixed_image`] describes.
pub fn fix_header_for_fields(
    stream: &mut Vec<u8>,
    title: &str,
    game_code: &str,
    maker_code: &str,
    version: u8,
) -> (result: Result<(), HeaderError>)
    requires
        title.spec_bytes().len() <= 12,
        game_code.spec_bytes().len() == 4,
        maker_code.spec_bytes().len() == 2,
    ensures
        result is Ok,
        final(stream)@ == fixed_image(
            old(stream)@,
            zero_padded(title.spec_bytes(), 12),
            game_code.spec_bytes(),
            maker_code.spec_bytes(),
            version,
        ),
{
    let title_buf: [u8; 12] = field_buffer(title);
    let game_code_buf: [u8; 4] = field_buffer(game_code);
    let maker_code_buf: [u8; 2] = field_buffer(maker_code);
    proof {
        assert(game_code_buf@ =~= game_code.spec_bytes());
        assert(maker_code_buf@ =~= maker_code.spec_bytes());
    }
    fix_header(stream, &title_buf, &game_code_buf, &maker_code_buf, version)
}

/// Checks a header field typed on the command line: at most `max_chars`
/// bytes, exactly `max_chars` unless `okay_less_than_max`, and nothing but
/// capital ASCII letters.
pub fn validate_header_field(s: &str, max_chars: usize, okay_less_than_max: bool) -> (r: Result<
    (),
    String,
>)
    ensures
        r is Ok <==> {
            &&& s.spec_bytes().len() <= max_chars
            &&& (okay_less_than_max || s.spec_bytes().len() == max_chars)
            &&& forall|i: int|
                0 <= i < s.spec_bytes().len() ==> 0x41 <= #[trigger] s.spec_bytes()[i] <= 0x5A
        },
        s.spec_bytes().len() > max_chars ==> r is Err && r->Err_0@ == "too many characters"@,
        s.spec_bytes().len() <= max_chars && !okay_less_than_max && s.spec_bytes().len()
            < max_chars ==> r is Err && r->Err_0@ == "too few characters"@,
        s.spec_bytes().len() <= max_chars && (okay_less_than_max || s.spec_bytes().len()
            == max_chars) && (exists|i: int|
            0 <= i < s.spec_bytes().len() && !(0x41 <= #[trigger] s.spec_bytes()[i] <= 0x5A))
            ==> r is Err && r->Err_0@ == "all characters must be capital letters"@,
{
    let bytes = s.as_bytes();
    if bytes.len() > max_chars {
        return Err("too many characters".to_owned());
    }
    if !okay_less_than_max && bytes.len() < max_chars {
        return Err("too few characters".to_owned());
    }
    let mut i: usize = 0;
    while i < bytes.len()
        invariant
            bytes@ == s.spec_bytes(),
            bytes@.len() <= max_chars,
            okay_less_than_max || bytes@.len() == max_chars,
            i <= bytes@.len(),
            forall|j: int| 0 <= j < i ==> 0x41 <= #[trigger] bytes@[j] <= 0x5A,
        decreases bytes@.len() - i,
    {
        if bytes[i] < 0x41 || bytes[i] > 0x5A {
            return Err("all characters must be capital letters".to_owned());
        }
        i += 1;
    }
    Ok(())
}

} // verus!
