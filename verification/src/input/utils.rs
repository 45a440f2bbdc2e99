//! From the input as it arrives to the octets to decode.

use crate::input::base64::base64_decode;
use crate::input::base64::base64_standard;
use crate::input::base64::is_valid_base64;
use crate::input::base64::spec_is_valid_base64;
use crate::input::error::InputError;
use crate::input::hex::hex_decode;
use crate::input::hex::hex_value;
use crate::input::hex::is_valid_hex;
use crate::input::hex::spec_is_valid_hex;
use crate::text::utf8_text;
use vstd::prelude::*;
use vstd::slice::slice_to_vec;
use vstd::utf8::valid_utf8;

verus! {

/// The octets that an input stands for: what it decodes to as base64 where
/// that is something other than the input itself, else what it decodes to as
/// hexadecimal digits where it is made of those, else the input as it is.
pub open spec fn spec_raw_data(input: Seq<u8>) -> Seq<u8> {
    if spec_is_valid_base64(input) {
        base64_standard(input).unwrap()
    } else if spec_is_valid_hex(input) {
        hex_value(input)
    } else {
        input
    }
}

/// The octets that an input stands for. Each decoder is called only on an
/// input that it accepts, so this never fails.
pub fn get_raw_data(input: Vec<u8>) -> (r: Result<Vec<u8>, InputError>)
    ensures
        r matches Ok(bytes) && bytes@ == spec_raw_data(input@),
{
    if is_valid_base64(slice_to_vec(input.as_slice())) {
        return match base64_decode(input) {
            Ok(bytes) => Ok(bytes),
            Err(e) => Err(InputError::DecodeBase64Error(e)),
        };
    }
    if is_valid_hex(input.as_slice()) {
        return match hex_decode(input) {
            Ok(bytes) => Ok(bytes),
            Err(e) => Err(InputError::DecodeHexError(e)),
        };
    }
    Ok(input)
}

/// The position of the first line feed at or after `from`, or the length of
/// the text where none follows.
pub open spec fn line_end(data: Seq<u8>, from: int) -> int
    decreases data.len() - from,
{
    if from < 0 || from >= data.len() || data[from] == 0x0a {
        from
    } else {
        line_end(data, from + 1)
    }
}

/// The line that starts at `from` and ends before `end`, where `end` is
/// the place of its line feed or the end of the text. A carriage return
/// before the line feed is no part of the line.
pub open spec fn line_at(data: Seq<u8>, from: int, end: int) -> Seq<u8> {
    if from < end < data.len() && data[end - 1] == 0x0d {
        data.subrange(from, end - 1)
    } else {
        data.subrange(from, end)
    }
}

/// Whether a line starts with four dashes, as the lines around armored text
/// do.
pub open spec fn is_banner(line: Seq<u8>) -> bool {
    line.len() >= 4 && line[0] == 0x2d && line[1] == 0x2d && line[2] == 0x2d && line[3] == 0x2d
}

/// The lines of the text from `from` on, joined without their line ends,
/// the banner lines left out.
pub open spec fn joined_lines(data: Seq<u8>, from: int) -> Seq<u8>
    decreases data.len() - from,
{
    if from < 0 || from >= data.len() {
        Seq::empty()
    } else {
        let end = line_end(data, from);
        let line = line_at(data, from, end);
        let kept = if is_banner(line) {
            Seq::empty()
        } else {
            line
        };
        if from <= end < data.len() {
            kept + joined_lines(data, end + 1)
        } else {
            kept
        }
    }
}

/// Takes a text apart into lines, drops the lines that start with four
/// dashes, and joins the rest without their line ends. Gives nothing where
/// the octets are not text in UTF-8.
pub fn process_text_content(data: &[u8]) -> (r: Option<Vec<u8>>)
    ensures
        match r {
            Some(out) => valid_utf8(data@) && out@ == joined_lines(data@, 0),
            None => !valid_utf8(data@),
        },
{
    match utf8_text(data) {
        Some(_) => {},
        None => {
            return None;
        },
    }
    let mut out: Vec<u8> = Vec::new();
    let mut from: usize = 0;
    assert(out@ + joined_lines(data@, 0) =~= joined_lines(data@, 0));
    while from < data.len()
        invariant
            from <= data.len(),
            joined_lines(data@, 0) == out@ + joined_lines(data@, from as int),
        decreases data.len() - from,
    {
        let mut end: usize = from;
        while end < data.len() && data[end] != 0x0a
            invariant
                from <= end <= data.len(),
                line_end(data@, from as int) == line_end(data@, end as int),
            decreases data.len() - end,
        {
            end = end + 1;
        }
        let stop: usize = if from < end && end < data.len() && data[end - 1] == 0x0d {
            end - 1
        } else {
            end
        };
        let ghost line = line_at(data@, from as int, end as int);
        let banner = stop - from >= 4 && data[from] == 0x2d && data[from + 1] == 0x2d && data[from
            + 2] == 0x2d && data[from + 3] == 0x2d;
        assert(banner == is_banner(line));
        let ghost before = out@;
        if !banner {
            let mut i: usize = from;
            while i < stop
                invariant
                    from <= i <= stop <= data.len(),
                    out@ == before + data@.subrange(from as int, i as int),
                decreases stop - i,
            {
                out.push(data[i]);
                i = i + 1;
                assert(out@ =~= before + data@.subrange(from as int, i as int));
            }
        }
        proof {
            let rest = joined_lines(data@, end + 1);
            let kept = if banner {
                Seq::<u8>::empty()
            } else {
                line
            };
            assert(out@ =~= before + kept);
            assert(before + (kept + rest) =~= (before + kept) + rest);
            assert(before + kept =~= (before + kept) + Seq::<u8>::empty());
        }
        if end == data.len() {
            from = end;
        } else {
            from = end + 1;
        }
    }
    assert(out@ + Seq::<u8>::empty() =~= out@);
    Some(out)
}

} // verus!
