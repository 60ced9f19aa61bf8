//! Parsing of the HTTP `Range` request header, single range only.
//!
//! The grammar accepted is `bytes=start-end`, `bytes=start-` and
//! `bytes=-suffixLength`, after trimming surrounding whitespace.
//! Comma-separated (multi-range) headers, an empty range set, a zero
//! suffix length, `start > end`, `end` past the file and any malformed
//! number are all rejected; the rejection maps to HTTP 416.

use vstd::prelude::*;

use crate::encoding::{parse_decimal_u64, spec_parse_u64};

verus! {

/// The White_Space property of Unicode, as `char::is_whitespace` tests it.
pub open spec fn spec_is_whitespace(c: char) -> bool {
    let u = c as u32;
    ||| (9 <= u <= 13)
    ||| u == 32
    ||| u == 0x85
    ||| u == 0xa0
    ||| u == 0x1680
    ||| (0x2000 <= u <= 0x200a)
    ||| u == 0x2028
    ||| u == 0x2029
    ||| u == 0x202f
    ||| u == 0x205f
    ||| u == 0x3000
}

/// Tests the White_Space property, the set of characters `str::trim`
/// strips.
pub fn is_whitespace_char(c: char) -> (r: bool)
    ensures
        r == spec_is_whitespace(c),
{
    let u = c as u32;
    (9 <= u && u <= 13) || u == 32 || u == 0x85 || u == 0xa0 || u == 0x1680 || (0x2000 <= u && u
        <= 0x200a) || u == 0x2028 || u == 0x2029 || u == 0x202f || u == 0x205f || u == 0x3000
}

/// The string with leading whitespace removed.
pub open spec fn spec_trim_start(s: Seq<char>) -> Seq<char>
    decreases s.len(),
{
    if s.len() == 0 {
        s
    } else if spec_is_whitespace(s[0]) {
        spec_trim_start(s.drop_first())
    } else {
        s
    }
}

/// The string with trailing whitespace removed.
pub open spec fn spec_trim_end(s: Seq<char>) -> Seq<char>
    decreases s.len(),
{
    if s.len() == 0 {
        s
    } else if spec_is_whitespace(s.last()) {
        spec_trim_end(s.drop_last())
    } else {
        s
    }
}

/// What `str::trim` returns: the string without leading and trailing
/// whitespace.
pub open spec fn spec_trim(s: Seq<char>) -> Seq<char> {
    spec_trim_end(spec_trim_start(s))
}

/// Skipping a whitespace prefix computes `spec_trim_start`.
proof fn lemma_trim_start_skip(s: Seq<char>, i: int)
    requires
        0 <= i <= s.len(),
        forall|k: int| 0 <= k < i ==> spec_is_whitespace(#[trigger] s[k]),
        i == s.len() || !spec_is_whitespace(s[i]),
    ensures
        spec_trim_start(s) == s.skip(i),
    decreases i,
{
    if i == 0 {
        assert(s.skip(0) =~= s);
    } else {
        assert(spec_is_whitespace(s[0]));
        lemma_trim_start_skip(s.drop_first(), i - 1);
        assert(s.drop_first().skip(i - 1) =~= s.skip(i));
    }
}

/// Taking everything before a whitespace suffix computes `spec_trim_end`.
proof fn lemma_trim_end_take(s: Seq<char>, j: int)
    requires
        0 <= j <= s.len(),
        forall|k: int| j <= k < s.len() ==> spec_is_whitespace(#[trigger] s[k]),
        j == 0 || !spec_is_whitespace(s[j - 1]),
    ensures
        spec_trim_end(s) == s.take(j),
    decreases s.len(),
{
    if j == s.len() {
        if s.len() == 0 {
            assert(s.take(0) =~= s);
        } else {
            assert(s.take(j) =~= s);
        }
    } else {
        assert(spec_is_whitespace(s.last()));
        lemma_trim_end_take(s.drop_last(), j);
        assert(s.drop_last().take(j) =~= s.take(j));
    }
}

/// Whether the string holds the character anywhere.
pub open spec fn spec_contains_char(s: Seq<char>, c: char) -> bool {
    exists|i: int| 0 <= i < s.len() && s[i] == c
}

/// The position of the first occurrence of the character.
pub open spec fn spec_index_of(s: Seq<char>, c: char) -> int
    decreases s.len(),
{
    if s.len() == 0 {
        0
    } else if s[0] == c {
        0
    } else {
        1 + spec_index_of(s.drop_first(), c)
    }
}

/// A first occurrence found by scanning is `spec_index_of`.
proof fn lemma_index_of_at(s: Seq<char>, c: char, i: int)
    requires
        0 <= i < s.len(),
        s[i] == c,
        forall|k: int| 0 <= k < i ==> s[k] != c,
    ensures
        spec_index_of(s, c) == i,
    decreases i,
{
    if i > 0 {
        lemma_index_of_at(s.drop_first(), c, i - 1);
    }
}

/// What `parse_range_header` accepts and returns, over the header text and
/// the file size.
pub open spec fn spec_parse_range(value: Seq<char>, total: u64) -> Result<Option<(u64, u64)>, ()> {
    let t = spec_trim(value);
    if !(t.len() >= 6 && t.subrange(0, 6) == "bytes="@) {
        Err(())
    } else {
        let ranges = t.skip(6);
        if spec_contains_char(ranges, ',') {
            Err(())
        } else if ranges.len() == 0 {
            Err(())
        } else if total == 0 {
            Err(())
        } else if ranges[0] == '-' {
            match spec_parse_u64(ranges.skip(1)) {
                Some(suffix) => if suffix == 0 {
                    Err(())
                } else {
                    let length = if suffix <= total {
                        suffix
                    } else {
                        total
                    };
                    Ok(Some(((total - length) as u64, (total - 1) as u64)))
                },
                None => Err(()),
            }
        } else if !spec_contains_char(ranges, '-') {
            Err(())
        } else {
            let cut = spec_index_of(ranges, '-');
            match spec_parse_u64(ranges.take(cut)) {
                Some(start) => {
                    let end_part = ranges.skip(cut + 1);
                    let end_val = if end_part.len() == 0 {
                        Some((total - 1) as u64)
                    } else {
                        spec_parse_u64(end_part)
                    };
                    match end_val {
                        Some(end) => if start > end || end >= total {
                            Err(())
                        } else {
                            Ok(Some((start, end)))
                        },
                        None => Err(()),
                    }
                },
                None => Err(()),
            }
        }
    }
}

/// Parses a `Range` header against a file of `total_size` bytes. Returns
/// the inclusive byte range to serve; every malformed or unsatisfiable
/// header is rejected, exactly as `spec_parse_range` lays out.
pub fn parse_range_header(value: &str, total_size: u64) -> (r: Result<Option<(u64, u64)>, ()>)
    ensures
        r == spec_parse_range(value@, total_size),
{
    let len = value.unicode_len();
    let mut lo: usize = 0;
    while lo < len && is_whitespace_char(value.get_char(lo))
        invariant
            lo <= len,
            len == value@.len(),
            forall|k: int| 0 <= k < lo ==> spec_is_whitespace(#[trigger] value@[k]),
        decreases len - lo,
    {
        lo = lo + 1;
    }
    let mut hi: usize = len;
    while hi > lo && is_whitespace_char(value.get_char(hi - 1))
        invariant
            lo <= hi <= len,
            len == value@.len(),
            forall|k: int| 0 <= k < lo ==> spec_is_whitespace(#[trigger] value@[k]),
            forall|k: int| hi <= k < len ==> spec_is_whitespace(#[trigger] value@[k]),
        decreases hi,
    {
        hi = hi - 1;
    }
    let trimmed = value.substring_char(lo, hi);
    proof {
        lemma_trim_start_skip(value@, lo as int);
        lemma_trim_end_take(value@.skip(lo as int), hi - lo);
        assert(value@.skip(lo as int).take(hi - lo) =~= value@.subrange(lo as int, hi as int));
        assert(trimmed@ == spec_trim(value@));
    }
    let tlen = hi - lo;
    if tlen < 6 {
        proof {
            assert(spec_parse_range(value@, total_size) is Err);
        }
        return Err(());
    }
    proof {
        reveal_strlit("bytes=");
    }
    if !(trimmed.get_char(0) == 'b' && trimmed.get_char(1) == 'y' && trimmed.get_char(2) == 't'
        && trimmed.get_char(3) == 'e' && trimmed.get_char(4) == 's' && trimmed.get_char(5)
        == '=') {
        proof {
            if trimmed@.subrange(0, 6) == "bytes="@ {
                assert(trimmed@.subrange(0, 6)[0] == trimmed@[0]);
                assert(trimmed@.subrange(0, 6)[1] == trimmed@[1]);
                assert(trimmed@.subrange(0, 6)[2] == trimmed@[2]);
                assert(trimmed@.subrange(0, 6)[3] == trimmed@[3]);
                assert(trimmed@.subrange(0, 6)[4] == trimmed@[4]);
                assert(trimmed@.subrange(0, 6)[5] == trimmed@[5]);
                assert(false);
            }
        }
        return Err(());
    }
    proof {
        assert(trimmed@.subrange(0, 6) =~= "bytes="@);
    }
    let ranges = trimmed.substring_char(6, tlen);
    let ghost gr = spec_trim(value@).skip(6);
    proof {
        assert(ranges@ =~= gr);
    }
    let rlen = tlen - 6;
    let mut has_comma = false;
    let mut i: usize = 0;
    while i < rlen
        invariant
            i <= rlen,
            rlen == ranges@.len(),
            !has_comma ==> forall|k: int| 0 <= k < i ==> ranges@[k] != ',',
            has_comma ==> spec_contains_char(ranges@, ','),
        decreases rlen - i,
    {
        if ranges.get_char(i) == ',' {
            has_comma = true;
        }
        i = i + 1;
    }
    if has_comma {
        assert(spec_contains_char(gr, ','));
        return Err(());
    }
    assert(!spec_contains_char(gr, ','));
    if rlen == 0 {
        return Err(());
    }
    if total_size == 0 {
        return Err(());
    }
    if ranges.get_char(0) == '-' {
        let rest = ranges.substring_char(1, rlen);
        proof {
            assert(rest@ =~= gr.skip(1));
        }
        let suffix = match parse_decimal_u64(rest) {
            Some(s) => s,
            None => {
                return Err(());
            },
        };
        if suffix == 0 {
            return Err(());
        }
        let length = if suffix <= total_size {
            suffix
        } else {
            total_size
        };
        return Ok(Some((total_size - length, total_size - 1)));
    }
    let mut cut: usize = 0;
    let mut found = false;
    while cut < rlen && !found
        invariant
            cut <= rlen,
            rlen == ranges@.len(),
            !found ==> forall|k: int| 0 <= k < cut ==> ranges@[k] != '-',
            found ==> cut < rlen && ranges@[cut as int] == '-' && (forall|k: int|
                0 <= k < cut ==> ranges@[k] != '-'),
        decreases rlen - cut, (if found { 0int } else { 1int }),
    {
        if ranges.get_char(cut) == '-' {
            found = true;
        } else {
            cut = cut + 1;
        }
    }
    if !found {
        assert(!spec_contains_char(gr, '-'));
        return Err(());
    }
    proof {
        lemma_index_of_at(gr, '-', cut as int);
    }
    let start_part = ranges.substring_char(0, cut);
    proof {
        assert(start_part@ =~= gr.take(cut as int));
    }
    let start = match parse_decimal_u64(start_part) {
        Some(s) => s,
        None => {
            return Err(());
        },
    };
    let end_part = ranges.substring_char(cut + 1, rlen);
    proof {
        assert(end_part@ =~= gr.skip(cut + 1));
    }
    let end: u64 = if cut + 1 == rlen {
        total_size - 1
    } else {
        match parse_decimal_u64(end_part) {
            Some(e) => e,
            None => {
                return Err(());
            },
        }
    };
    if start > end || end >= total_size {
        return Err(());
    }
    Ok(Some((start, end)))
}


/// A string of only whitespace trims to nothing.
pub proof fn lemma_trim_all_whitespace(s: Seq<char>)
    requires
        forall|k: int| 0 <= k < s.len() ==> spec_is_whitespace(#[trigger] s[k]),
    ensures
        spec_trim(s).len() == 0,
{
    lemma_trim_start_skip(s, s.len() as int);
    assert(s.skip(s.len() as int) =~= Seq::<char>::empty());
}

/// A string with a visible character somewhere keeps text through
/// trimming.
pub proof fn lemma_trim_keeps_visible(s: Seq<char>, first: int, last: int)
    requires
        0 <= first <= last < s.len(),
        !spec_is_whitespace(s[first]),
        !spec_is_whitespace(s[last]),
        forall|k: int| 0 <= k < first ==> spec_is_whitespace(#[trigger] s[k]),
        forall|k: int| last < k < s.len() ==> spec_is_whitespace(#[trigger] s[k]),
    ensures
        spec_trim(s).len() > 0,
{
    lemma_trim_start_skip(s, first);
    let t = s.skip(first);
    assert(t[last - first] == s[last]);
    assert forall|k: int| last + 1 - first <= k < t.len() implies spec_is_whitespace(
        #[trigger] t[k],
    ) by {
        assert(t[k] == s[first + k]);
    }
    lemma_trim_end_take(t, last + 1 - first);
    assert(t.take(last + 1 - first).len() == last + 1 - first);
}

} // verus!
