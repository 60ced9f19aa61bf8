use fluxshare::download::{
    ascii_filename_fallback, content_disposition, percent_encode_filename, plan_download,
};
use fluxshare::errors::TransferError;
use fluxshare::range::parse_range_header;
use percent_encoding::{utf8_percent_encode, AsciiSet, CONTROLS};

#[test]
fn first_byte_range() {
    let total = 1000u64;
    assert_eq!(parse_range_header("bytes=0-0", total), Ok(Some((0, 0))));
    let plan = plan_download(total, Some("bytes=0-0")).unwrap();
    assert_eq!(plan.status, 206);
    assert_eq!(plan.bytes_to_read, 1);
    assert_eq!(plan.content_range.as_deref(), Some("bytes 0-0/1000"));
}

#[test]
fn suffix_range_returns_last_bytes() {
    let total = 1000u64;
    assert_eq!(parse_range_header("bytes=-10", total), Ok(Some((990, 999))));
    let plan = plan_download(total, Some("bytes=-10")).unwrap();
    assert_eq!(plan.status, 206);
    assert_eq!(plan.start, 990);
    assert_eq!(plan.end, 999);
    assert_eq!(plan.bytes_to_read, 10);
}

#[test]
fn range_past_end_is_unsatisfiable() {
    let total = 100u64;
    assert_eq!(parse_range_header("bytes=100-100", total), Err(()));
    assert!(matches!(
        plan_download(total, Some("bytes=100-100")),
        Err(TransferError::ProtocolViolation)
    ));
}

#[test]
fn multi_range_is_rejected() {
    assert_eq!(parse_range_header("bytes=0-1,3-4", 100), Err(()));
}

#[test]
fn no_header_serves_whole_body() {
    let plan = plan_download(1000, None).unwrap();
    assert_eq!(plan.status, 200);
    assert_eq!(plan.start, 0);
    assert_eq!(plan.end, 999);
    assert_eq!(plan.bytes_to_read, 1000);
    assert!(plan.content_range.is_none());
}

#[test]
fn open_ended_and_odd_ranges() {
    assert_eq!(parse_range_header("bytes=5-", 100), Ok(Some((5, 99))));
    assert_eq!(parse_range_header("  bytes=1-2  ", 100), Ok(Some((1, 2))));
    assert_eq!(parse_range_header("bytes=+3-+4", 100), Ok(Some((3, 4))));
    assert_eq!(parse_range_header("bytes=", 100), Err(()));
    assert_eq!(parse_range_header("bytes=-0", 100), Err(()));
    assert_eq!(parse_range_header("bytes=-200", 100), Ok(Some((0, 99))));
    assert_eq!(parse_range_header("bytes=abc", 100), Err(()));
    assert_eq!(parse_range_header("bytes=2-1", 100), Err(()));
    assert_eq!(parse_range_header("octets=0-1", 100), Err(()));
    assert_eq!(parse_range_header("bytes=0-0", 0), Err(()));
    assert_eq!(
        parse_range_header("bytes=18446744073709551616-", 100),
        Err(())
    );
}

#[test]
fn parser_agrees_with_reference_parser() {
    // The same grammar once more, over plain string handling, as a
    // cross-check.
    fn reference(value: &str, total_size: u64) -> Result<Option<(u64, u64)>, ()> {
        let trimmed = value.trim();
        if !trimmed.starts_with("bytes=") {
            return Err(());
        }
        let ranges = &trimmed[6..];
        if ranges.contains(',') || ranges.is_empty() || total_size == 0 {
            return Err(());
        }
        if let Some(rest) = ranges.strip_prefix('-') {
            let suffix: u64 = rest.parse().map_err(|_| ())?;
            if suffix == 0 {
                return Err(());
            }
            let length = suffix.min(total_size);
            return Ok(Some((total_size - length, total_size - 1)));
        }
        let (start_str, end_str) = ranges.split_once('-').ok_or(())?;
        let start: u64 = start_str.parse().map_err(|_| ())?;
        let end: u64 = if end_str.is_empty() {
            total_size.checked_sub(1).ok_or(())?
        } else {
            end_str.parse().map_err(|_| ())?
        };
        if start > end || end >= total_size {
            return Err(());
        }
        Ok(Some((start, end)))
    }
    let headers = [
        "bytes=0-0",
        "bytes=1-",
        "bytes=-5",
        "bytes=-0",
        "bytes= 1-2",
        " bytes=3-9 ",
        "bytes=4-4,6-7",
        "bytes=9-2",
        "bytes=0-99",
        "bytes=0-100",
        "bytes=+1-2",
        "bytes=x-2",
        "bite=0-1",
        "bytes=--3",
        "bytes=-",
    ];
    for header in headers {
        for total in [0u64, 1, 10, 100] {
            assert_eq!(
                parse_range_header(header, total),
                reference(header, total),
                "header {header:?} total {total}"
            );
        }
    }
}

#[test]
fn fallback_filename_sanitizes() {
    assert_eq!(ascii_filename_fallback("plain.txt"), "plain.txt");
    assert_eq!(ascii_filename_fallback("relat\u{f3}rio.pdf"), "relat_rio.pdf");
    assert_eq!(ascii_filename_fallback("a/b\\c:d*e?f|g<h>i\"j"), "a_b_c_d_e_f_g_h_i_j");
    assert_eq!(ascii_filename_fallback("tab\there"), "tab_here");
    assert_eq!(ascii_filename_fallback("   "), "download");
    assert_eq!(ascii_filename_fallback(""), "download");
    assert_eq!(ascii_filename_fallback("///"), "download");
    assert_eq!(ascii_filename_fallback("\u{e9}\u{e9}"), "download");
    assert_eq!(ascii_filename_fallback(" a "), " a ");
}

#[test]
fn percent_encoding_matches_reference_crate() {
    let set: &'static AsciiSet = Box::leak(Box::new(CONTROLS
        .add(b'\0')
        .add(b'"')
        .add(b'%')
        .add(b'\'')
        .add(b'(')
        .add(b')')
        .add(b';')
        .add(b'=')
        .add(b'@')
        .add(b'[')
        .add(b']')
        .add(b'{')
        .add(b'}')
        .add(b'<')
        .add(b'>')
        .add(b'/')
        .add(b'?')
        .add(b':')
        .add(b'\\')
        .add(b'|')
        .add(b'*')
        .add(b'&')
        .add(b'#')
        .add(b'+')
        .add(b'^')
        .add(b'`')
        .add(b'$')));
    let names = [
        "plain.txt",
        "relat\u{f3}rio (1).pdf",
        "a b%c\"d'e;f=g@h[i]j{k}l",
        "\u{1f600} emoji & more",
        "tab\tnewline\n",
    ];
    for name in names {
        assert_eq!(
            percent_encode_filename(name),
            utf8_percent_encode(name, set).to_string(),
            "name {name:?}"
        );
    }
}

#[test]
fn disposition_carries_both_filename_forms() {
    let d = content_disposition("relat\u{f3}rio.pdf");
    assert_eq!(
        d,
        "attachment; filename=\"relat_rio.pdf\"; filename*=UTF-8''relat%C3%B3rio.pdf"
    );
}
