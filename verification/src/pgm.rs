//! Binary PGM (`P5`) images with 16-bit samples, as byte strings.
use vstd::prelude::*;
use vstd::utf8::*;
use vstd::string::*;
use crate::bytes::{read_u16s, read_u16s_at};
use crate::text::{parse_usize, parse_usize_spec, str_from_utf8, str_trim, text_is, trim};

verus! {

/// Why bytes could not be read as a PGM image.
#[derive(Clone, Copy, Debug, PartialEq, Eq, Structural)]
pub enum PgmError {
    /// A header line is not valid UTF-8.
    InvalidText,
    /// The first line is not `P5`.
    BadMagic,
    /// The width or the height is not a number.
    InvalidNumber,
    /// The largest sample value is not `65535`.
    BadMaxValue,
    /// The width times the height does not fit in a `usize`.
    TooLarge,
    /// The bytes end before the last sample does.
    Truncated,
}

/// The end of the field that starts at `pos`: just past the first `delim`
/// at or after `pos`, or the end of `data` where there is none.
pub open spec fn field_end(data: Seq<u8>, pos: nat, delim: u8) -> nat
    decreases data.len() - pos,
{
    if pos >= data.len() {
        pos
    } else if data[pos as int] == delim {
        pos + 1
    } else {
        field_end(data, pos + 1, delim)
    }
}

/// The bytes `65535`.
pub open spec fn max_value_bytes() -> Seq<u8> {
    seq![0x36u8, 0x35u8, 0x35u8, 0x33u8, 0x35u8]
}

/// The number that the field `f` holds once trimmed.
pub open spec fn field_number(f: Seq<u8>) -> Option<usize> {
    parse_usize_spec(encode_utf8(trim(decode_utf8(f))))
}

/// Reading a PGM image: the line `P5`, the width up to a space, the height
/// up to the end of the line, the largest sample value, which must be
/// `65535`, on a line of its own, then width times height samples of two
/// bytes each, most significant first.
pub open spec fn read_spec(data: Seq<u8>) -> Result<(usize, usize, Seq<u16>), PgmError> {
    let e1 = field_end(data, 0, 0x0a);
    let magic = data.subrange(0, e1 as int);
    let e2 = field_end(data, e1, 0x20);
    let w = data.subrange(e1 as int, e2 as int);
    let e3 = field_end(data, e2, 0x0a);
    let h = data.subrange(e2 as int, e3 as int);
    let e4 = field_end(data, e3, 0x0a);
    let m = data.subrange(e3 as int, e4 as int);
    if !valid_utf8(magic) {
        Err(PgmError::InvalidText)
    } else if magic != seq![0x50u8, 0x35u8, 0x0au8] {
        Err(PgmError::BadMagic)
    } else if !valid_utf8(w) || !valid_utf8(h) || !valid_utf8(m) {
        Err(PgmError::InvalidText)
    } else {
        match field_number(w) {
            None => Err(PgmError::InvalidNumber),
            Some(width) => match field_number(h) {
                None => Err(PgmError::InvalidNumber),
                Some(height) => if encode_utf8(trim(decode_utf8(m))) != max_value_bytes() {
                    Err(PgmError::BadMaxValue)
                } else if width * height > usize::MAX {
                    Err(PgmError::TooLarge)
                } else if e4 + 2 * (width * height) > data.len() {
                    Err(PgmError::Truncated)
                } else {
                    Ok((width, height, read_u16s(data.skip(e4 as int), (width * height) as nat)))
                },
            },
        }
    }
}

proof fn lemma_field_end(data: Seq<u8>, pos: nat, delim: u8)
    requires
        pos <= data.len(),
    ensures
        pos <= field_end(data, pos, delim) <= data.len(),
    decreases data.len() - pos,
{
    if pos < data.len() && data[pos as int] != delim {
        lemma_field_end(data, pos + 1, delim);
    }
}

/// The text from `pos` up to and including the first `delim`, or up to the
/// end of `data` where there is none, and the position after it.
pub fn read_until(data: &[u8], pos: usize, delim: u8) -> (res: Result<(String, usize), PgmError>)
    requires
        pos <= data@.len(),
    ensures
        ({
            let end = field_end(data@, pos as nat, delim);
            let field = data@.subrange(pos as int, end as int);
            match res {
                Ok((s, e)) => valid_utf8(field) && e == end && s@ == decode_utf8(field),
                Err(err) => !valid_utf8(field) && err == PgmError::InvalidText,
            }
        }),
{
    let len = data.len();
    let mut end = pos;
    while end < len && data[end] != delim
        invariant
            len == data@.len(),
            pos <= end <= len,
            field_end(data@, pos as nat, delim) == field_end(data@, end as nat, delim),
            forall|k: int| pos <= k < end ==> data@[k] != delim,
        decreases len - end,
    {
        end = end + 1;
    }
    if end < len {
        end = end + 1;
    }
    proof {
        lemma_field_end(data@, pos as nat, delim);
    }
    match str_from_utf8(&data[pos..end]) {
        Some(s) => {
            proof {
                assert(data@.subrange(pos as int, end as int) == s.spec_bytes());
                encode_utf8_decode_utf8(s@);
            }
            Ok((s.to_owned(), end))
        },
        None => Err(PgmError::InvalidText),
    }
}

/// Reads a binary PGM image with 16-bit samples: its width, its height and
/// its samples, row by row.
pub fn read(data: &[u8]) -> (res: Result<(usize, usize, Vec<u16>), PgmError>)
    ensures
        match res {
            Ok((w, h, px)) => read_spec(data@) == Ok::<(usize, usize, Seq<u16>), PgmError>((w, h, px@)),
            Err(e) => read_spec(data@) == Err::<(usize, usize, Seq<u16>), PgmError>(e),
        },
{
    proof {
        lemma_field_end(data@, 0, 0x0a);
    }
    let (magic, e1) = match read_until(data, 0, 0x0a) {
        Ok(r) => r,
        Err(e) => {
            return Err(e);
        },
    };
    let magic_bytes: [u8; 3] = [0x50u8, 0x35u8, 0x0au8];
    proof {
        encode_utf8_decode_utf8(magic@);
        decode_utf8_encode_utf8(data@.subrange(0, e1 as int));
        assert(magic_bytes@ =~= seq![0x50u8, 0x35u8, 0x0au8]);
    }
    if !text_is(magic.as_str(), &magic_bytes) {
        return Err(PgmError::BadMagic);
    }
    proof {
        lemma_field_end(data@, e1 as nat, 0x20);
    }
    let (w, e2) = match read_until(data, e1, 0x20) {
        Ok(r) => r,
        Err(e) => {
            return Err(e);
        },
    };
    proof {
        lemma_field_end(data@, e2 as nat, 0x0a);
    }
    let (h, e3) = match read_until(data, e2, 0x0a) {
        Ok(r) => r,
        Err(e) => {
            return Err(e);
        },
    };
    proof {
        lemma_field_end(data@, e3 as nat, 0x0a);
    }
    let (max_val, e4) = match read_until(data, e3, 0x0a) {
        Ok(r) => r,
        Err(e) => {
            return Err(e);
        },
    };
    let width = match parse_usize(str_trim(w.as_str())) {
        Some(n) => n,
        None => {
            return Err(PgmError::InvalidNumber);
        },
    };
    let height = match parse_usize(str_trim(h.as_str())) {
        Some(n) => n,
        None => {
            return Err(PgmError::InvalidNumber);
        },
    };
    let max_bytes: [u8; 5] = [0x36u8, 0x35u8, 0x35u8, 0x33u8, 0x35u8];
    assert(max_bytes@ =~= max_value_bytes());
    if !text_is(str_trim(max_val.as_str()), &max_bytes) {
        return Err(PgmError::BadMaxValue);
    }
    let n = match width.checked_mul(height) {
        Some(n) => n,
        None => {
            return Err(PgmError::TooLarge);
        },
    };
    if n > (data.len() - e4) / 2 {
        return Err(PgmError::Truncated);
    }
    Ok((width, height, read_u16s_at(data, e4, n)))
}

} // verus!
