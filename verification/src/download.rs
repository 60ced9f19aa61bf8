//! Planning of one download response: status, byte window and headers.
//!
//! A request with no `Range` header is served whole with status 200; a
//! satisfiable single range is served with status 206 and a
//! `Content-Range` header; anything else is refused as unsatisfiable. The
//! response always carries a `Content-Disposition` with two filename
//! forms: an ASCII-sanitized fallback and a percent-encoded UTF-8 extended
//! parameter.

use vstd::prelude::*;

use crate::encoding::{
    push_char, spec_decimal, spec_hex_digit_upper, u64_to_decimal, hex_digit_upper,
};
use crate::errors::TransferError;
use crate::range::{parse_range_header, spec_parse_range, spec_is_whitespace, spec_trim,
    is_whitespace_char};

verus! {

/// The character standing in for anything unsafe in the ASCII fallback
/// filename's place.
pub open spec fn spec_fallback_char(c: char) -> char {
    let u = c as u32;
    if u < 0x80 && !(u < 0x20 || u == 0x7f) && c != '"' && c != '\\' && c != '/' && c != ':' && c
        != '*' && c != '?' && c != '|' && c != '<' && c != '>' {
        c
    } else {
        '_'
    }
}

/// The name mapped character by character into safe ASCII.
pub open spec fn spec_fallback_mapped(s: Seq<char>) -> Seq<char> {
    Seq::new(s.len(), |i: int| spec_fallback_char(s[i]))
}

/// What `ascii_filename_fallback` returns: the sanitized name, or the
/// generic default where sanitizing left only placeholders or only
/// whitespace.
pub open spec fn spec_ascii_filename_fallback(s: Seq<char>) -> Seq<char> {
    let m = spec_fallback_mapped(s);
    if spec_trim(m).len() == 0 || (forall|i: int| 0 <= i < m.len() ==> m[i] == '_') {
        "download"@
    } else {
        m
    }
}

/// Replaces non-ASCII, control and quoting-relevant characters of a
/// filename with underscores; a name reduced to placeholders alone, or to
/// whitespace, becomes `download`.
pub fn ascii_filename_fallback(name: &str) -> (r: String)
    ensures
        r@ == spec_ascii_filename_fallback(name@),
{
    let len = name.unicode_len();
    let mut out = String::new();
    let mut has_visible = false;
    let mut all_underscore = true;
    let mut first_vis: usize = 0;
    let mut last_vis: usize = 0;
    let ghost m = spec_fallback_mapped(name@);
    let mut i: usize = 0;
    while i < len
        invariant
            i <= len,
            len == name@.len(),
            m == spec_fallback_mapped(name@),
            out@.len() == i,
            forall|k: int| 0 <= k < i ==> out@[k] == m[k],
            all_underscore ==> forall|k: int| 0 <= k < i ==> (#[trigger] m[k]) == '_',
            !all_underscore ==> exists|k: int| 0 <= k < i && (#[trigger] m[k]) != '_',
            !has_visible ==> forall|k: int| 0 <= k < i ==> spec_is_whitespace(#[trigger] m[k]),
            has_visible ==> {
                &&& first_vis < i
                &&& !spec_is_whitespace(m[first_vis as int])
                &&& forall|k: int| 0 <= k < first_vis ==> spec_is_whitespace(#[trigger] m[k])
                &&& last_vis < i
                &&& !spec_is_whitespace(m[last_vis as int])
                &&& forall|k: int| last_vis < k < i ==> spec_is_whitespace(#[trigger] m[k])
            },
        decreases len - i,
    {
        let c = name.get_char(i);
        let u = c as u32;
        let mapped: char = if u < 0x80 && !(u < 0x20 || u == 0x7f) && c != '"' && c != '\\' && c
            != '/' && c != ':' && c != '*' && c != '?' && c != '|' && c != '<' && c != '>' {
            c
        } else {
            '_'
        };
        push_char(&mut out, mapped);
        if mapped != '_' {
            proof {
                assert(m[i as int] == spec_fallback_char(name@[i as int]));
                assert(m[i as int] != '_');
            }
            all_underscore = false;
        }
        if !is_whitespace_char(mapped) {
            if !has_visible {
                first_vis = i;
            }
            has_visible = true;
            last_vis = i;
        }
        i = i + 1;
    }
    proof {
        assert(out@ =~= m);
    }
    if !has_visible {
        proof {
            crate::range::lemma_trim_all_whitespace(m);
        }
        return "download".to_owned();
    }
    if all_underscore {
        return "download".to_owned();
    }
    proof {
        crate::range::lemma_trim_keeps_visible(m, first_vis as int, last_vis as int);
        assert(!(forall|k: int| 0 <= k < m.len() ==> m[k] == '_')) by {
            let w = choose|k: int| 0 <= k < m.len() && (#[trigger] m[k]) != '_';
            assert(m[w] != '_');
        }
    }
    out
}

/// Whether a byte of the UTF-8 filename is percent-encoded in the
/// extended filename parameter: every non-ASCII byte, the C0 controls and
/// DEL, and the characters the encode set singles out.
pub open spec fn spec_filename_byte_escaped(b: u8) -> bool {
    ||| b >= 0x80
    ||| b <= 0x1f
    ||| b == 0x7f
    ||| b == 0x22
    ||| b == 0x25
    ||| b == 0x27
    ||| b == 0x28
    ||| b == 0x29
    ||| b == 0x3b
    ||| b == 0x3d
    ||| b == 0x40
    ||| b == 0x5b
    ||| b == 0x5d
    ||| b == 0x7b
    ||| b == 0x7d
    ||| b == 0x3c
    ||| b == 0x3e
    ||| b == 0x2f
    ||| b == 0x3f
    ||| b == 0x3a
    ||| b == 0x5c
    ||| b == 0x7c
    ||| b == 0x2a
    ||| b == 0x26
    ||| b == 0x23
    ||| b == 0x2b
    ||| b == 0x5e
    ||| b == 0x60
    ||| b == 0x24
}

/// The percent-encoded form of a UTF-8 byte string: escaped bytes become
/// `%` and two uppercase hexadecimal digits, the rest stay themselves.
pub open spec fn spec_percent_encoded(bytes: Seq<u8>) -> Seq<char>
    decreases bytes.len(),
{
    if bytes.len() == 0 {
        Seq::empty()
    } else {
        spec_percent_encoded(bytes.drop_last()) + (if spec_filename_byte_escaped(bytes.last()) {
            seq![
                '%',
                spec_hex_digit_upper((bytes.last() / 16) as u8),
                spec_hex_digit_upper((bytes.last() % 16) as u8),
            ]
        } else {
            seq![bytes.last() as char]
        })
    }
}

/// Percent-encodes a filename's UTF-8 bytes for the extended
/// `filename*` parameter.
pub fn percent_encode_filename(name: &str) -> (r: String)
    ensures
        r@ == spec_percent_encoded(vstd::utf8::encode_utf8(name@)),
{
    let bytes = name.as_bytes_vec();
    let mut out = String::new();
    let mut i: usize = 0;
    while i < bytes.len()
        invariant
            i <= bytes@.len(),
            out@ == spec_percent_encoded(bytes@.take(i as int)),
        decreases bytes@.len() - i,
    {
        let b = bytes[i];
        let escaped = b >= 0x80 || b <= 0x1f || b == 0x7f || b == 0x22 || b == 0x25 || b == 0x27
            || b == 0x28 || b == 0x29 || b == 0x3b || b == 0x3d || b == 0x40 || b == 0x5b || b
            == 0x5d || b == 0x7b || b == 0x7d || b == 0x3c || b == 0x3e || b == 0x2f || b == 0x3f
            || b == 0x3a || b == 0x5c || b == 0x7c || b == 0x2a || b == 0x26 || b == 0x23 || b
            == 0x2b || b == 0x5e || b == 0x60 || b == 0x24;
        if escaped {
            push_char(&mut out, '%');
            push_char(&mut out, hex_digit_upper(b / 16));
            push_char(&mut out, hex_digit_upper(b % 16));
        } else {
            push_char(&mut out, b as char);
        }
        proof {
            assert(bytes@.take(i + 1 as int).drop_last() =~= bytes@.take(i as int));
            assert(bytes@.take(i + 1 as int).last() == bytes@[i as int]);
            assert(out@ =~= spec_percent_encoded(bytes@.take(i + 1 as int)));
        }
        i = i + 1;
    }
    proof {
        assert(bytes@.take(bytes@.len() as int) =~= bytes@);
    }
    out
}

/// What the `Content-Disposition` header carries: the ASCII fallback in
/// quotes, then the percent-encoded UTF-8 form.
pub open spec fn spec_content_disposition(name: Seq<char>) -> Seq<char> {
    "attachment; filename=\""@ + spec_ascii_filename_fallback(name)
        + "\"; filename*=UTF-8''"@ + spec_percent_encoded(vstd::utf8::encode_utf8(name))
}

/// Builds the `Content-Disposition` value for a download of this file
/// name.
pub fn content_disposition(name: &str) -> (r: String)
    ensures
        r@ == spec_content_disposition(name@),
{
    let mut out = String::new();
    out.append("attachment; filename=\"");
    let fallback = ascii_filename_fallback(name);
    out.append(fallback.as_str());
    out.append("\"; filename*=UTF-8''");
    let encoded = percent_encode_filename(name);
    out.append(encoded.as_str());
    proof {
        assert(out@ =~= spec_content_disposition(name@));
    }
    out
}

/// The byte window a download serves: the whole file, or the single range
/// the header asked for.
pub struct DownloadPlan {
    /// 200 for a whole-file answer, 206 for a partial one.
    pub status: u16,
    /// First byte offset served.
    pub start: u64,
    /// Last byte offset served (inclusive); zero for an empty file.
    pub end: u64,
    /// How many bytes the body carries.
    pub bytes_to_read: u64,
    /// The `Content-Range` value, present exactly on a partial answer.
    pub content_range: Option<String>,
}

/// The `Content-Range` value for a served window of a file.
pub open spec fn spec_content_range(start: u64, end: u64, total: u64) -> Seq<char> {
    "bytes "@ + spec_decimal(start as nat) + "-"@ + spec_decimal(end as nat) + "/"@ + spec_decimal(
        total as nat,
    )
}

/// The window served for a file of `size` bytes under an optional `Range`
/// header: `(status, start, end, bytes)`, or `None` for an unsatisfiable
/// request.
pub open spec fn spec_download_window(size: u64, header: Option<Seq<char>>) -> Option<
    (u16, u64, u64, u64),
> {
    let whole_end: u64 = if size == 0 {
        0
    } else {
        (size - 1) as u64
    };
    let parsed = match header {
        Some(h) => spec_parse_range(h, size),
        None => Ok(None),
    };
    match parsed {
        Err(_) => None,
        Ok(None) => Some(
            (200u16, 0u64, whole_end, (if size == 0 {
                0
            } else {
                (whole_end + 1) as u64
            }) as u64),
        ),
        Ok(Some((s, e))) => Some(
            (206u16, s, e, (if size == 0 {
                0
            } else {
                (e - s + 1) as u64
            }) as u64),
        ),
    }
}

/// Plans a download answer for a file of `size` bytes: whole file with
/// status 200 when no range is asked, the requested window with status 206
/// and a `Content-Range` value when the single range is satisfiable, and a
/// protocol violation — HTTP 416 — otherwise.
pub fn plan_download(size: u64, range_header: Option<&str>) -> (r: Result<
    DownloadPlan,
    TransferError,
>)
    ensures
        match r {
            Ok(plan) => {
                &&& spec_download_window(
                    size,
                    match range_header {
                        Some(h) => Some(h@),
                        None => None,
                    },
                ) matches Some(w)
                &&& plan.status == w.0
                &&& plan.start == w.1
                &&& plan.end == w.2
                &&& plan.bytes_to_read == w.3
                &&& (plan.status == 206 <==> plan.content_range is Some)
                &&& plan.content_range matches Some(cr) ==> cr@ == spec_content_range(
                    plan.start,
                    plan.end,
                    size,
                )
            },
            Err(e) => e == TransferError::ProtocolViolation && spec_download_window(
                size,
                match range_header {
                    Some(h) => Some(h@),
                    None => None,
                },
            ) is None,
        },
{
    let mut status: u16 = 200;
    let mut start: u64 = 0;
    let mut end: u64 = if size == 0 {
        0
    } else {
        size - 1
    };
    if let Some(h) = range_header {
        match parse_range_header(h, size) {
            Ok(Some((s, e))) => {
                start = s;
                end = e;
                status = 206;
            },
            Ok(None) => {},
            Err(_) => {
                return Err(TransferError::ProtocolViolation);
            },
        }
    }
    let bytes_to_read: u64 = if size == 0 {
        0
    } else {
        end - start + 1
    };
    let content_range: Option<String> = if status == 206 {
        let mut cr = String::new();
        cr.append("bytes ");
        let s_text = u64_to_decimal(start);
        cr.append(s_text.as_str());
        cr.append("-");
        let e_text = u64_to_decimal(end);
        cr.append(e_text.as_str());
        cr.append("/");
        let t_text = u64_to_decimal(size);
        cr.append(t_text.as_str());
        proof {
            assert(cr@ =~= spec_content_range(start, end, size));
        }
        Some(cr)
    } else {
        None
    };
    Ok(DownloadPlan { status, start, end, bytes_to_read, content_range })
}

} // verus!
