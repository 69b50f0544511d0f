//! The local HTTP server that lets the `<video>` element load a file: the
//! reading of a request's `Range` header and the response headers.
use vstd::prelude::*;
use vstd::string::StringExecFns;
use crate::downloader::{
    decimal_string, owned,
};
use crate::text::{
    chars_of, copy_range, decimal, find_char, find_seq, index_of_char, index_of_seq, lines,
    lowercase, parse_u64, parse_u64_spec, split_lines, starts_with, starts_with_chars, string_of,
    to_lowercase, trim, trim_chars,
};

verus! {

broadcast use vstd::string::group_string_axioms;

/// The first line whose lowercase form starts with `"range:"`.
pub open spec fn range_line(ls: Seq<Seq<char>>) -> Option<Seq<char>>
    decreases ls.len(),
{
    if ls.len() == 0 {
        None
    } else if starts_with(lowercase(ls[0]), "range:"@) {
        Some(ls[0])
    } else {
        range_line(ls.drop_first())
    }
}

/// The text between the first `"bytes="` of `l` and the next one (or the
/// end), as the second piece of `split("bytes=")`.
pub open spec fn after_bytes(l: Seq<char>) -> Option<Seq<char>> {
    match index_of_seq(l, "bytes="@) {
        None => None,
        Some(k) => {
            let r = l.skip(k + 6);
            match index_of_seq(r, "bytes="@) {
                Some(j) => Some(r.take(j)),
                None => Some(r),
            }
        },
    }
}

/// The text before the first `'-'`, or all of it.
pub open spec fn before_dash(s: Seq<char>) -> Seq<char> {
    match index_of_char(s, '-') {
        Some(k) => s.take(k),
        None => s,
    }
}

/// The first byte that a `Range` header line asks for: the number after
/// `"bytes="` and before `'-'`, trimmed.
pub open spec fn range_value_spec(l: Seq<char>) -> Option<u64> {
    match after_bytes(l) {
        None => None,
        Some(p) => parse_u64_spec(trim(before_dash(p))),
    }
}

/// The first byte a request asks for: from its first `Range:` header line
/// (matched in any case), the number after `"bytes="` and before `'-'`.
/// Lines are cut at `'\n'`; a `'\r'` before it is trimmed with the rest of
/// the whitespace.
pub open spec fn range_start_spec(request: Seq<char>) -> Option<u64> {
    match range_line(lines(request)) {
        None => None,
        Some(l) => range_value_spec(l),
    }
}

fn after_bytes_exec(l: &Vec<char>) -> (r: Option<Vec<char>>)
    ensures
        r matches Some(p) ==> after_bytes(l@) == Some(p@),
        r is None ==> after_bytes(l@) is None,
{
    let key = chars_of("bytes=");
    proof {
        reveal_strlit("bytes=");
    }
    assert(l@.skip(0) =~= l@);
    match find_seq(l, 0, &key) {
        None => None,
        Some(k) => {
            let rest = copy_range(l, k + 6, l.len());
            assert(rest@ =~= l@.skip(k + 6));
            assert(rest@.skip(0) =~= rest@);
            match find_seq(&rest, 0, &key) {
                Some(j) => Some(copy_range(&rest, 0, j)),
                None => Some(rest),
            }
        },
    }
}

fn range_value_chars(l: &Vec<char>) -> (r: Option<u64>)
    ensures
        r == range_value_spec(l@),
{
    match after_bytes_exec(l) {
        None => None,
        Some(p) => {
            assert(p@.skip(0) =~= p@);
            let before = match find_char(&p, 0, '-') {
                Some(k) => copy_range(&p, 0, k),
                None => copy_range(&p, 0, p.len()),
            };
            assert(before@ =~= before_dash(p@));
            let t = trim_chars(&before);
            parse_u64(&t)
        },
    }
}

/// The first byte that a `Range` header line such as
/// `"Range: bytes=1024-"` asks for.
pub fn range_value(line: &str) -> (r: Option<u64>)
    ensures
        r == range_value_spec(line@),
{
    range_value_chars(&chars_of(line))
}

/// The first byte a request asks for with its `Range` header, if any.
pub fn range_start(request: &str) -> (r: Option<u64>)
    ensures
        r == range_start_spec(request@),
{
    let v = chars_of(request);
    let ls = split_lines(&v);
    let ghost lv = ls@.map_values(|l: Vec<char>| l@);
    let key = chars_of("range:");
    let mut i: usize = 0;
    assert(lv.skip(0) =~= lv);
    while i < ls.len()
        invariant
            i <= ls.len(),
            lv == ls@.map_values(|l: Vec<char>| l@),
            lv == lines(request@),
            key@ == "range:"@,
            range_line(lv) == range_line(lv.skip(i as int)),
        decreases ls.len() - i,
    {
        let line = string_of(&ls[i]);
        let lower = to_lowercase(line.as_str());
        let lc = chars_of(lower.as_str());
        assert(lv.skip(i as int)[0] == ls[i as int]@);
        if starts_with_chars(&lc, &key) {
            return range_value_chars(&ls[i]);
        }
        assert(lv.skip(i as int).drop_first() =~= lv.skip(i + 1));
        i = i + 1;
    }
    None
}

/// The headers of a `206 Partial Content` reply that sends a file of
/// `size` bytes from byte `start` to its end.
pub open spec fn partial_header(start: nat, size: nat) -> Seq<char> {
    "HTTP/1.1 206 Partial Content\r\nContent-Type: video/mp4\r\nContent-Range: bytes "@ + decimal(
        start,
    ) + "-"@ + decimal((size - 1) as nat) + "/"@ + decimal(size) + "\r\nContent-Length: "@
        + decimal((size - start) as nat) + "\r\nAccept-Ranges: bytes\r\n\r\n"@
}

/// The headers of a `200 OK` reply that sends a whole file of `size` bytes.
pub open spec fn full_header(size: nat) -> Seq<char> {
    "HTTP/1.1 200 OK\r\nContent-Type: video/mp4\r\nContent-Length: "@ + decimal(size)
        + "\r\nAccept-Ranges: bytes\r\n\r\n"@
}

/// A reply to a range request: its headers and how many bytes of the file follow them.
pub struct RangeReply {
    pub header: String,
    pub length: u64,
}

/// The reply to a request for a file of `file_size` bytes from byte `start`:
/// the headers, and the number of bytes to send.
pub fn partial_reply(start: u64, file_size: u64) -> (r: RangeReply)
    requires
        1 <= file_size,
        start <= file_size,
    ensures
        r.header@ == partial_header(start as nat, file_size as nat),
        r.length == file_size - start,
{
    let end = file_size - 1;
    let clen = file_size - start;
    let mut h = owned(
        "HTTP/1.1 206 Partial Content\r\nContent-Type: video/mp4\r\nContent-Range: bytes ",
    );
    h.append(decimal_string(start).as_str());
    h.append("-");
    h.append(decimal_string(end).as_str());
    h.append("/");
    h.append(decimal_string(file_size).as_str());
    h.append("\r\nContent-Length: ");
    h.append(decimal_string(clen).as_str());
    h.append("\r\nAccept-Ranges: bytes\r\n\r\n");
    RangeReply { header: h, length: clen }
}

/// The headers of a reply that sends a whole file of `file_size` bytes.
pub fn full_reply_header(file_size: u64) -> (r: String)
    ensures
        r@ == full_header(file_size as nat),
{
    let mut h = owned("HTTP/1.1 200 OK\r\nContent-Type: video/mp4\r\nContent-Length: ");
    h.append(decimal_string(file_size).as_str());
    h.append("\r\nAccept-Ranges: bytes\r\n\r\n");
    h
}

/// The address at which the server on `port` serves the file.
pub fn served_url(port: u16) -> (r: String)
    ensures
        r@ == "http://127.0.0.1:"@ + decimal(port as nat),
{
    let mut u = owned("http://127.0.0.1:");
    u.append(decimal_string(port as u64).as_str());
    u
}

} // verus!
