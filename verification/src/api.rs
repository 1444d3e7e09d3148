//! The local HTTP/JSON API: request framing limits, request-line and header
//! parsing, URL decoding, routing of paths to endpoints, and response framing.

use vstd::prelude::*;

use crate::runs::{error_text, RunError};
use crate::text::{
    same_text, starts_with, starts_with_chars, ascii_lower, chars_eq, copy_span, collect_some, concat3, copy_string, decimal_string, decimal_text,
    find_char, first_index, flatten, lemma_first_index_bounds, lemma_collect_some_step, line_spans, lines, parse_u64_radix,
    parse_usize, parsed_u64, parsed_usize, spans_of, split_on, split_spans, string_of,
    to_ascii_lower, to_chars, trim, trim_span, utf8_text, word_spans, words,
};

verus! {

/// Where the daemon listens for API requests.
pub const DEFAULT_API_SOCKET: &'static str = "/run/simaai-sentinel/api.sock";

/// Largest accepted request, header and body together.
pub const MAX_REQUEST_BYTES: usize = 65536;

/// An HTTP status with the message returned as `{"error": message}`.
#[derive(Debug)]
pub struct ApiError {
    pub status: u16,
    pub message: String,
}

pub open spec fn api_error_view(e: ApiError) -> (u16, Seq<char>) {
    (e.status, e.message@)
}

pub fn bad_request(message: &str) -> (r: ApiError)
    ensures
        api_error_view(r) == (400u16, message@),
{
    ApiError { status: 400, message: copy_string(message) }
}

pub fn conflict(message: &str) -> (r: ApiError)
    ensures
        api_error_view(r) == (409u16, message@),
{
    ApiError { status: 409, message: copy_string(message) }
}

pub fn not_found(message: &str) -> (r: ApiError)
    ensures
        api_error_view(r) == (404u16, message@),
{
    ApiError { status: 404, message: copy_string(message) }
}

pub fn internal(message: &str) -> (r: ApiError)
    ensures
        api_error_view(r) == (500u16, message@),
{
    ApiError { status: 500, message: copy_string(message) }
}

/// The request exceeds the size limit (413).
pub fn payload_too_large() -> (r: ApiError)
    ensures
        api_error_view(r) == (413u16, "request exceeds 64 KiB"@),
{
    ApiError { status: 413, message: copy_string("request exceeds 64 KiB") }
}

/// The kind of API request that a run-store refusal answers: starting or
/// stopping a trace, or looking runs up.
#[derive(Debug, Clone, Copy, PartialEq, Eq, Structural)]
pub enum RunRequest {
    Lifecycle,
    Lookup,
}

/// The HTTP status of a refused run-store operation: an invalid checkpoint
/// name is an invalid request (400); any other refusal of a trace start or
/// stop conflicts with the store's state (409), and any other refusal of a
/// lookup names no run (404).
pub open spec fn run_error_status_of(e: RunError, request: RunRequest) -> u16 {
    match e {
        RunError::EmptyName | RunError::NameTooLong | RunError::NameControl => 400,
        _ => match request {
            RunRequest::Lifecycle => 409,
            RunRequest::Lookup => 404,
        },
    }
}

pub fn run_error_status(e: &RunError, request: RunRequest) -> (s: u16)
    ensures
        s == run_error_status_of(*e, request),
{
    match e {
        RunError::EmptyName | RunError::NameTooLong | RunError::NameControl => 400,
        _ => match request {
            RunRequest::Lifecycle => 409,
            RunRequest::Lookup => 404,
        },
    }
}

/// The API error answering a refused run-store operation: its status and
/// the refusal's message.
pub fn run_refusal(e: &RunError, request: RunRequest) -> (r: ApiError)
    ensures
        api_error_view(r) == (run_error_status_of(*e, request), error_text(*e)),
{
    ApiError { status: run_error_status(e, request), message: e.message() }
}

/// `needle` occurs in `haystack` at `i`.
pub open spec fn bytes_at(haystack: Seq<u8>, needle: Seq<u8>, i: int) -> bool {
    0 <= i && i + needle.len() <= haystack.len() && haystack.subrange(i, i + needle.len()) == needle
}

/// The first position of `needle` in `haystack`.
pub open spec fn first_bytes(haystack: Seq<u8>, needle: Seq<u8>, from: int) -> Option<int>
    decreases haystack.len() + 1 - from,
{
    if from < 0 || from + needle.len() > haystack.len() {
        None
    } else if bytes_at(haystack, needle, from) {
        Some(from)
    } else {
        first_bytes(haystack, needle, from + 1)
    }
}

/// The first window of `haystack` equal to `needle` (a non-empty needle,
/// as `slice::windows` demands).
pub fn find_bytes(haystack: &[u8], needle: &[u8]) -> (r: Option<usize>)
    requires
        needle@.len() > 0,
    ensures
        match r {
            Some(i) => first_bytes(haystack@, needle@, 0) == Some(i as int),
            None => first_bytes(haystack@, needle@, 0) is None,
        },
{
    let n = haystack.len();
    let mut i: usize = 0;
    while i <= n && n - i >= needle.len()
        invariant
            n == haystack@.len(),
            first_bytes(haystack@, needle@, 0) == first_bytes(haystack@, needle@, i as int),
        decreases n + 1 - i,
    {
        let mut k: usize = 0;
        let mut same = true;
        while same && k < needle.len()
            invariant
                n == haystack@.len(),
                i + needle@.len() <= n,
                k <= needle@.len(),
                forall|j: int| 0 <= j < k ==> haystack@[i + j] == needle@[j],
                !same ==> k < needle@.len() && haystack@[i + k] != needle@[k as int],
            decreases needle@.len() - k, if same { 1int } else { 0int },
        {
            if haystack[i + k] == needle[k] {
                k = k + 1;
            } else {
                same = false;
            }
        }
        if same {
            assert(haystack@.subrange(i as int, i + needle@.len()) =~= needle@);
            return Some(i);
        }
        assert(haystack@.subrange(i as int, i + needle@.len())[k as int] != needle@[k as int]);
        i = i + 1;
    }
    None
}

pub open spec fn header_terminator() -> Seq<u8> {
    seq![13u8, 10u8, 13u8, 10u8]
}

/// The length of the request head: everything through the first blank line.
pub fn header_end(data: &[u8]) -> (r: Option<usize>)
    ensures
        match r {
            Some(end) => first_bytes(data@, header_terminator(), 0) == Some(end - 4) && 4 <= end
                <= data@.len(),
            None => first_bytes(data@, header_terminator(), 0) is None,
        },
{
    let n = data.len();
    let needle: Vec<u8> = vec![13u8, 10u8, 13u8, 10u8];
    assert(needle@ =~= header_terminator());
    match find_bytes(data, needle.as_slice()) {
        Some(i) => {
            proof {
                lemma_first_bytes_found(data@, header_terminator(), 0);
            }
            Some(i + 4)
        },
        None => None,
    }
}

proof fn lemma_first_bytes_found(h: Seq<u8>, n: Seq<u8>, from: int)
    ensures
        first_bytes(h, n, from) matches Some(i) ==> bytes_at(h, n, i) && from <= i,
    decreases h.len() + 1 - from,
{
    if !(from < 0 || from + n.len() > h.len()) && !bytes_at(h, n, from) {
        lemma_first_bytes_found(h, n, from + 1);
    }
}

/// The value of a `%XX` escape: both bytes ASCII and the pair a hexadecimal
/// `u8` (as `u8::from_str_radix` reads it, so an optional `+` is allowed).
pub open spec fn hex_pair(x: u8, y: u8) -> Option<u8> {
    if x < 0x80 && y < 0x80 {
        match parsed_u64(seq![x as char, y as char], 16) {
            Some(v) => if v <= 255 {
                Some(v as u8)
            } else {
                None
            },
            None => None,
        }
    } else {
        None
    }
}

/// URL-decoded bytes of `b` from `i` on, appended to `acc`: `%XX` escapes
/// (when two bytes follow the `%`), `+` as a space, other bytes as they are.
pub open spec fn url_decoded_bytes(b: Seq<u8>, i: int, acc: Seq<u8>) -> Option<Seq<u8>>
    decreases b.len() - i,
{
    if i < 0 || i >= b.len() {
        Some(acc)
    } else if b[i] == 0x25 && i + 2 < b.len() {
        match hex_pair(b[i + 1], b[i + 2]) {
            Some(v) => url_decoded_bytes(b, i + 3, acc.push(v)),
            None => None,
        }
    } else if b[i] == 0x2B {
        url_decoded_bytes(b, i + 1, acc.push(0x20))
    } else {
        url_decoded_bytes(b, i + 1, acc.push(b[i]))
    }
}

/// A URL component decoded, or the 400 error that rejects it.
pub open spec fn url_decoded(value: Seq<char>) -> Result<Seq<char>, (u16, Seq<char>)> {
    match url_decoded_bytes(vstd::utf8::encode_utf8(value), 0, seq![]) {
        None => Err((400u16, "invalid URL encoding"@)),
        Some(bytes) => if vstd::utf8::valid_utf8(bytes) {
            Ok(vstd::utf8::decode_utf8(bytes))
        } else {
            Err((400u16, "URL is not UTF-8"@))
        },
    }
}

fn hex_pair_of(x: u8, y: u8) -> (r: Option<u8>)
    ensures
        r == hex_pair(x, y),
{
    if x < 0x80 && y < 0x80 {
        let pair: Vec<char> = vec![x as char, y as char];
        assert(pair@ =~= seq![x as char, y as char]);
        match parse_u64_radix(pair.as_slice(), 16) {
            Some(v) => if v <= 255 {
                Some(v as u8)
            } else {
                None
            },
            None => None,
        }
    } else {
        None
    }
}

/// Decodes a URL component.
pub fn percent_decode(value: &str) -> (r: Result<String, ApiError>)
    ensures
        match r {
            Ok(s) => url_decoded(value@) == Ok::<Seq<char>, (u16, Seq<char>)>(s@),
            Err(e) => url_decoded(value@) == Err::<Seq<char>, (u16, Seq<char>)>(api_error_view(e)),
        },
{
    let bytes = value.as_bytes();
    let n = bytes.len();
    let ghost b = bytes@;
    let mut output: Vec<u8> = Vec::new();
    let mut index: usize = 0;
    while index < n
        invariant
            b == bytes@,
            b == vstd::utf8::encode_utf8(value@),
            n == b.len(),
            index <= b.len(),
            url_decoded_bytes(b, 0, seq![]) == url_decoded_bytes(b, index as int, output@),
        decreases b.len() - index,
    {
        if bytes[index] == 0x25 && n - index > 2 {
            match hex_pair_of(bytes[index + 1], bytes[index + 2]) {
                Some(v) => {
                    output.push(v);
                    index = index + 3;
                },
                None => {
                    assert(url_decoded_bytes(b, index as int, output@) is None);
                    return Err(bad_request("invalid URL encoding"));
                },
            }
        } else if bytes[index] == 0x2B {
            output.push(0x20);
            index = index + 1;
        } else {
            output.push(bytes[index]);
            index = index + 1;
        }
    }
    match utf8_text(output.as_slice()) {
        Some(text) => Ok(text),
        None => Err(bad_request("URL is not UTF-8")),
    }
}

/// What one `name=value` part of a query gives for `key`: the decoded text
/// after its first `=` when the text before it is `key`; nothing for a part
/// without `=`, for another name, or for a value that does not decode.
pub open spec fn query_part_value(part: Seq<char>, key: Seq<char>) -> Option<Seq<char>> {
    match first_index(part, '=') {
        Some(i) => if part.subrange(0, i) == key {
            match url_decoded(part.subrange(i + 1, part.len() as int)) {
                Ok(v) => Some(v),
                Err(_) => None,
            }
        } else {
            None
        },
        None => None,
    }
}

/// The non-empty texts of `items`, in order.
pub open spec fn non_empty(items: Seq<Seq<char>>) -> Seq<Seq<char>>
    decreases items.len(),
{
    if items.len() == 0 {
        seq![]
    } else if items.last().len() > 0 {
        non_empty(items.drop_last()).push(items.last())
    } else {
        non_empty(items.drop_last())
    }
}

/// The non-empty comma-separated items of one value.
pub open spec fn list_items(value: Seq<char>) -> Seq<Seq<char>> {
    non_empty(split_on(value, ','))
}

/// Every value given for `key` in a query string (`a=1&b=2`), each split at
/// commas, empty items dropped, in order of appearance.
pub open spec fn query_values_of(query: Seq<char>, key: Seq<char>) -> Seq<Seq<char>> {
    flatten(
        collect_some(split_on(query, '&'), |part: Seq<char>| query_part_value(part, key)).map_values(
            |v: Seq<char>| list_items(v),
        ),
    )
}

pub open spec fn texts_view(v: Seq<String>) -> Seq<Seq<char>> {
    v.map_values(|s: String| s@)
}

proof fn lemma_flatten_push<T>(s: Seq<Seq<T>>, x: Seq<T>)
    ensures
        flatten(s.push(x)) == flatten(s) + x,
{
    assert(s.push(x).drop_last() =~= s);
}

/// Appends the non-empty comma-separated items of `value` to `out`.
fn push_list_items(out: &mut Vec<String>, value: &[char])
    ensures
        texts_view(final(out)@) == texts_view(old(out)@) + list_items(value@),
{
    let spans = split_spans(value, ',');
    let ghost pieces = split_on(value@, ',');
    let ghost base = texts_view(out@);
    let mut j: usize = 0;
    while j < spans.len()
        invariant
            spans_of(value@, spans@, pieces),
            pieces == split_on(value@, ','),
            j <= spans@.len(),
            texts_view(out@) == base + non_empty(pieces.take(j as int)),
        decreases spans@.len() - j,
    {
        let (a, b) = spans[j];
        let ghost before = out@;
        assert(pieces.take(j + 1).drop_last() =~= pieces.take(j as int));
        if a < b {
            let item = string_of(&value[a..b]);
            assert(value@.subrange(a as int, b as int) == pieces[j as int]);
            out.push(item);
            assert(texts_view(out@) =~= texts_view(before).push(item@));
        }
        j = j + 1;
    }
    assert(pieces.take(spans@.len() as int) =~= pieces);
}

/// All values given for `key` in `query`, split at commas, without empty
/// items.
pub fn query_values(query: &str, key: &str) -> (r: Vec<String>)
    ensures
        texts_view(r@) == query_values_of(query@, key@),
{
    let q = to_chars(query);
    let k = to_chars(key);
    let parts = split_spans(q.as_slice(), '&');
    let ghost all = split_on(q@, '&');
    let ghost f = |part: Seq<char>| query_part_value(part, key@);
    let ghost g = |v: Seq<char>| list_items(v);
    let mut out: Vec<String> = Vec::new();
    let mut i: usize = 0;
    while i < parts.len()
        invariant
            q@ == query@,
            k@ == key@,
            spans_of(q@, parts@, all),
            all == split_on(query@, '&'),
            f == (|part: Seq<char>| query_part_value(part, key@)),
            g == (|v: Seq<char>| list_items(v)),
            i <= parts@.len(),
            texts_view(out@) == flatten(collect_some(all.take(i as int), f).map_values(g)),
        decreases parts@.len() - i,
    {
        let (a, b) = parts[i];
        let part = &q[a..b];
        let ghost prev = collect_some(all.take(i as int), f);
        proof {
            lemma_collect_some_step(all, i as int, f);
        }
        assert(part@ == all[i as int]);
        match find_char(part, '=') {
            Some(eq) => {
                let name = &part[0..eq];
                assert(name@ == part@.subrange(0, eq as int));
                if chars_eq(name, k.as_slice()) {
                    let raw = string_of(&part[eq + 1..part.len()]);
                    assert(raw@ == part@.subrange(eq + 1, part@.len() as int));
                    match percent_decode(raw.as_str()) {
                        Ok(decoded) => {
                            let dchars = to_chars(decoded.as_str());
                            push_list_items(&mut out, dchars.as_slice());
                            proof {
                                assert(f(all[i as int]) == Some(decoded@));
                                assert(prev.push(decoded@).map_values(g) =~= prev.map_values(
                                    g,
                                ).push(g(decoded@)));
                                lemma_flatten_push(prev.map_values(g), g(decoded@));
                            }
                        },
                        Err(_) => {
                            assert(f(all[i as int]) is None);
                        },
                    }
                } else {
                    assert(f(all[i as int]) is None);
                }
            },
            None => {
                assert(f(all[i as int]) is None);
            },
        }
        i = i + 1;
    }
    assert(all.take(parts@.len() as int) =~= all);
    out
}

/// The request line and framing header of a request.
#[derive(Debug)]
pub struct RequestHead {
    pub method: String,
    pub path: String,
    pub query: String,
    pub content_length: usize,
}

pub open spec fn request_head_view(h: RequestHead) -> (Seq<char>, Seq<char>, Seq<char>, usize) {
    (h.method@, h.path@, h.query@, h.content_length)
}

/// The `i`-th whitespace-separated word of `line`, or nothing.
pub open spec fn word_or_empty(line: Seq<char>, i: int) -> Seq<char> {
    if 0 <= i < words(line).len() {
        words(line)[i]
    } else {
        seq![]
    }
}

/// A header line whose name (the text before its first `:`) is
/// `Content-Length` in any ASCII case.
pub open spec fn is_content_length(line: Seq<char>) -> bool {
    match first_index(line, ':') {
        Some(i) => ascii_lower(line.subrange(0, i)) == "content-length"@,
        None => false,
    }
}

/// The index of the first `Content-Length` line at or after `from`.
pub open spec fn content_length_line(ls: Seq<Seq<char>>, from: int) -> Option<int>
    decreases ls.len() - from,
{
    if from < 0 || from >= ls.len() {
        None
    } else if is_content_length(ls[from]) {
        Some(from)
    } else {
        content_length_line(ls, from + 1)
    }
}

/// The value after the first `:` of a header line, trimmed.
pub open spec fn header_value(line: Seq<char>) -> Seq<char> {
    match first_index(line, ':') {
        Some(i) => trim(line.subrange(i + 1, line.len() as int)),
        None => seq![],
    }
}

/// The request target split at its first `?` into path and query.
pub open spec fn target_parts(target: Seq<char>) -> (Seq<char>, Seq<char>) {
    match first_index(target, '?') {
        Some(i) => (target.subrange(0, i), target.subrange(i + 1, target.len() as int)),
        None => (target, seq![]),
    }
}

/// The head of a request (its bytes through the blank line) read as
/// method, path, query and body length, or the 400 error that rejects it.
/// The body length comes from the first `Content-Length` header after the
/// request line and is 0 without one.
pub open spec fn head_of(bytes: Seq<u8>) -> Result<(Seq<char>, Seq<char>, Seq<char>, usize), (u16, Seq<char>)> {
    if !vstd::utf8::valid_utf8(bytes) {
        Err((400u16, "invalid HTTP header"@))
    } else {
        let ls = lines(vstd::utf8::decode_utf8(bytes));
        if ls.len() == 0 {
            Err((400u16, "missing request line"@))
        } else {
            let method = word_or_empty(ls[0], 0);
            let target = word_or_empty(ls[0], 1);
            if method.len() == 0 || target.len() == 0 {
                Err((400u16, "invalid request line"@))
            } else {
                let length = match content_length_line(ls, 1) {
                    Some(k) => parsed_usize(header_value(ls[k])),
                    None => Some(0usize),
                };
                match length {
                    Some(n) => Ok((method, target_parts(target).0, target_parts(target).1, n)),
                    None => Err((400u16, "invalid Content-Length"@)),
                }
            }
        }
    }
}

/// Whether a header line names `Content-Length`.
fn content_length_header(line: &[char]) -> (r: Option<usize>)
    ensures
        match r {
            Some(i) => is_content_length(line@) && first_index(line@, ':') == Some(i as int),
            None => !is_content_length(line@),
        },
{
    match find_char(line, ':') {
        Some(i) => {
            let name = &line[0..i];
            assert(name@ == line@.subrange(0, i as int));
            let lower = to_ascii_lower(name);
            let expected = to_chars("content-length");
            proof {
                reveal_strlit("content-length");
            }
            if chars_eq(lower.as_slice(), expected.as_slice()) {
                Some(i)
            } else {
                None
            }
        },
        None => None,
    }
}

/// Reads the request line and the `Content-Length` header of a request head.
pub fn parse_request_head(head: &[u8]) -> (r: Result<RequestHead, ApiError>)
    ensures
        match r {
            Ok(h) => head_of(head@) == Ok::<(Seq<char>, Seq<char>, Seq<char>, usize), (u16, Seq<char>)>(request_head_view(h)),
            Err(e) => head_of(head@) == Err::<(Seq<char>, Seq<char>, Seq<char>, usize), (u16, Seq<char>)>(api_error_view(e)),
        },
{
    let text = match utf8_text(head) {
        Some(t) => t,
        None => {
            return Err(bad_request("invalid HTTP header"));
        },
    };
    let chars = to_chars(text.as_str());
    let spans = line_spans(chars.as_slice());
    let ghost ls = lines(chars@);
    if spans.len() == 0 {
        return Err(bad_request("missing request line"));
    }
    let (a, b) = spans[0];
    let first = &chars[a..b];
    assert(first@ == ls[0]);
    let ws = word_spans(first);
    let method_chars = if ws.len() > 0 {
        copy_span(first, ws[0].0, ws[0].1)
    } else {
        Vec::new()
    };
    let target = if ws.len() > 1 {
        copy_span(first, ws[1].0, ws[1].1)
    } else {
        Vec::new()
    };
    assert(method_chars@ == word_or_empty(ls[0], 0));
    assert(target@ == word_or_empty(ls[0], 1));
    if method_chars.len() == 0 || target.len() == 0 {
        return Err(bad_request("invalid request line"));
    }
    let method = string_of(method_chars.as_slice());
    let mut k: usize = 1;
    let mut found: Option<(usize, usize)> = None;
    while found.is_none() && k < spans.len()
        invariant
            spans_of(chars@, spans@, ls),
            1 <= k <= spans@.len(),
            match found {
                None => content_length_line(ls, 1) == content_length_line(ls, k as int),
                Some((kk, i)) => content_length_line(ls, 1) == Some(kk as int) && kk < spans@.len()
                    && first_index(ls[kk as int], ':') == Some(i as int),
            },
        decreases spans@.len() - k + if found is None { 1int } else { 0int },
    {
        let (la, lb) = spans[k];
        let line = &chars[la..lb];
        assert(line@ == ls[k as int]);
        match content_length_header(line) {
            Some(i) => {
                found = Some((k, i));
            },
            None => {
                k = k + 1;
            },
        }
    }
    let length: Option<usize> = match found {
        Some((k, i)) => {
            proof {
                lemma_first_index_bounds(ls[k as int], ':');
            }
            let (la, lb) = spans[k];
            let line = &chars[la..lb];
            let value = &line[i + 1..line.len()];
            let (ta, tb) = trim_span(value);
            parse_usize(&value[ta..tb])
        },
        None => Some(0),
    };
    let content_length = match length {
        Some(n) => n,
        None => {
            return Err(bad_request("invalid Content-Length"));
        },
    };
    let (path, query) = match find_char(target.as_slice(), '?') {
        Some(q) => (string_of(&target[0..q]), string_of(&target[q + 1..target.len()])),
        None => (string_of(target.as_slice()), String::new()),
    };
    Ok(RequestHead { method, path, query, content_length })
}

/// The operation a request asks for.
#[derive(Debug)]
pub enum Endpoint {
    Health,
    Cache,
    Metrics,
    LatestSample,
    ActiveTrace,
    StartTrace,
    StopTrace,
    Runs,
    Compare { selectors: Vec<String>, include_raw: bool },
    Run { selector: String },
}

pub enum EndpointView {
    Health,
    Cache,
    Metrics,
    LatestSample,
    ActiveTrace,
    StartTrace,
    StopTrace,
    Runs,
    Compare(Seq<Seq<char>>, bool),
    Run(Seq<char>),
}

impl View for Endpoint {
    type V = EndpointView;

    open spec fn view(&self) -> EndpointView {
        match self {
            Endpoint::Health => EndpointView::Health,
            Endpoint::Cache => EndpointView::Cache,
            Endpoint::Metrics => EndpointView::Metrics,
            Endpoint::LatestSample => EndpointView::LatestSample,
            Endpoint::ActiveTrace => EndpointView::ActiveTrace,
            Endpoint::StartTrace => EndpointView::StartTrace,
            Endpoint::StopTrace => EndpointView::StopTrace,
            Endpoint::Runs => EndpointView::Runs,
            Endpoint::Compare { selectors, include_raw } => EndpointView::Compare(
                texts_view(selectors@),
                *include_raw,
            ),
            Endpoint::Run { selector } => EndpointView::Run(selector@),
        }
    }
}

/// The first `raw` query value asks for full samples (`1` or `true`).
pub open spec fn raw_requested(query: Seq<char>) -> bool {
    let v = query_values_of(query, "raw"@);
    v.len() > 0 && (v[0] == "1"@ || v[0] == "true"@)
}

/// The comparison of the runs named by the `runs` query values; fewer than
/// two selectors is a bad request.
pub open spec fn compare_route(query: Seq<char>) -> Result<EndpointView, (u16, Seq<char>)> {
    let selectors = query_values_of(query, "runs"@);
    if selectors.len() < 2 {
        Err((400u16, "compare requires at least two runs parameters"@))
    } else {
        Ok(EndpointView::Compare(selectors, raw_requested(query)))
    }
}

pub open spec fn unknown_endpoint() -> (u16, Seq<char>) {
    (404u16, "unknown Sentinel API endpoint"@)
}

/// The endpoint for a method, path and query string, or the error answered.
pub open spec fn route_of(method: Seq<char>, path: Seq<char>, query: Seq<char>) -> Result<EndpointView, (u16, Seq<char>)> {
    if method == "GET"@ {
        if path == "/v1/health"@ {
            Ok(EndpointView::Health)
        } else if path == "/v1/cache"@ {
            Ok(EndpointView::Cache)
        } else if path == "/v1/metrics"@ {
            Ok(EndpointView::Metrics)
        } else if path == "/v1/samples/latest"@ {
            Ok(EndpointView::LatestSample)
        } else if path == "/v1/traces/active"@ {
            Ok(EndpointView::ActiveTrace)
        } else if path == "/v1/runs"@ {
            Ok(EndpointView::Runs)
        } else if path == "/v1/compare"@ {
            compare_route(query)
        } else if starts_with(path, "/v1/runs/"@) {
            match url_decoded(path.subrange(9, path.len() as int)) {
                Ok(selector) => Ok(EndpointView::Run(selector)),
                Err(e) => Err(e),
            }
        } else {
            Err(unknown_endpoint())
        }
    } else if method == "POST"@ && path == "/v1/traces"@ {
        Ok(EndpointView::StartTrace)
    } else if method == "POST"@ && path == "/v1/traces/stop"@ {
        Ok(EndpointView::StopTrace)
    } else {
        Err(unknown_endpoint())
    }
}

fn compare_endpoint(query: &str) -> (r: Result<Endpoint, ApiError>)
    ensures
        match r {
            Ok(e) => compare_route(query@) == Ok::<EndpointView, (u16, Seq<char>)>(e@),
            Err(e) => compare_route(query@) == Err::<EndpointView, (u16, Seq<char>)>(api_error_view(e)),
        },
{
    let selectors = query_values(query, "runs");
    if selectors.len() < 2 {
        return Err(bad_request("compare requires at least two runs parameters"));
    }
    let raw = query_values(query, "raw");
    let include_raw = raw.len() > 0 && (same_text(raw[0].as_str(), "1") || same_text(
        raw[0].as_str(),
        "true",
    ));
    Ok(Endpoint::Compare { selectors, include_raw })
}

/// Which endpoint a request addresses (`GET`/`POST` and the path), with the
/// compare selectors and the run selector decoded from the URL.
pub fn route(method: &str, path: &str, query: &str) -> (r: Result<Endpoint, ApiError>)
    ensures
        match r {
            Ok(e) => route_of(method@, path@, query@) == Ok::<EndpointView, (u16, Seq<char>)>(e@),
            Err(e) => route_of(method@, path@, query@) == Err::<EndpointView, (u16, Seq<char>)>(
                api_error_view(e),
            ),
        },
{
    if same_text(method, "GET") {
        if same_text(path, "/v1/health") {
            Ok(Endpoint::Health)
        } else if same_text(path, "/v1/cache") {
            Ok(Endpoint::Cache)
        } else if same_text(path, "/v1/metrics") {
            Ok(Endpoint::Metrics)
        } else if same_text(path, "/v1/samples/latest") {
            Ok(Endpoint::LatestSample)
        } else if same_text(path, "/v1/traces/active") {
            Ok(Endpoint::ActiveTrace)
        } else if same_text(path, "/v1/runs") {
            Ok(Endpoint::Runs)
        } else if same_text(path, "/v1/compare") {
            compare_endpoint(query)
        } else {
            let chars = to_chars(path);
            let prefix = to_chars("/v1/runs/");
            proof {
                reveal_strlit("/v1/runs/");
            }
            if starts_with_chars(chars.as_slice(), prefix.as_slice()) {
                let rest = string_of(&chars[9..chars.len()]);
                match percent_decode(rest.as_str()) {
                    Ok(selector) => Ok(Endpoint::Run { selector }),
                    Err(e) => Err(e),
                }
            } else {
                Err(not_found("unknown Sentinel API endpoint"))
            }
        }
    } else if same_text(method, "POST") && same_text(path, "/v1/traces") {
        Ok(Endpoint::StartTrace)
    } else if same_text(method, "POST") && same_text(path, "/v1/traces/stop") {
        Ok(Endpoint::StopTrace)
    } else {
        Err(not_found("unknown Sentinel API endpoint"))
    }
}

/// A complete request: method, path, query string and body.
#[derive(Debug)]
pub struct Request {
    pub method: String,
    pub path: String,
    pub query: String,
    pub body: Vec<u8>,
}

/// What reading a request has come to after some bytes arrived.
#[derive(Debug)]
pub enum ReadStep {
    More,
    Done(Request),
    Failed(ApiError),
}

pub enum StepView {
    More,
    Done(Seq<char>, Seq<char>, Seq<char>, Seq<u8>),
    Failed(u16, Seq<char>),
}

pub open spec fn step_view(s: ReadStep) -> StepView {
    match s {
        ReadStep::More => StepView::More,
        ReadStep::Done(r) => StepView::Done(r.method@, r.path@, r.query@, r.body@),
        ReadStep::Failed(e) => StepView::Failed(e.status, e.message@),
    }
}

pub open spec fn too_large() -> (u16, Seq<char>) {
    (413u16, "request exceeds 64 KiB"@)
}

/// Once the head (ending at `end`) is known, the request is complete when
/// its whole body has arrived.
pub open spec fn completed(h: (Seq<char>, Seq<char>, Seq<char>, usize), end: int, d: Seq<u8>) -> StepView {
    if d.len() >= end + h.3 {
        StepView::Done(h.0, h.1, h.2, d.subrange(end, end + h.3))
    } else {
        StepView::More
    }
}

/// One step of request reading: `chunk` arrives after `d0`, with the head
/// already parsed (and where it ends) or not. Until the head is complete the
/// bytes held may not exceed the limit; a parsed head whose body would
/// exceed it is refused too.
pub open spec fn reader_step(
    d0: Seq<u8>,
    head: Option<((Seq<char>, Seq<char>, Seq<char>, usize), int)>,
    chunk: Seq<u8>,
) -> (Option<((Seq<char>, Seq<char>, Seq<char>, usize), int)>, StepView) {
    let d = d0 + chunk;
    match head {
        Some((h, end)) => (head, completed(h, end, d)),
        None => if d.len() > MAX_REQUEST_BYTES {
            (None, StepView::Failed(too_large().0, too_large().1))
        } else {
            match first_bytes(d, header_terminator(), 0) {
                None => (None, StepView::More),
                Some(i) => match head_of(d.subrange(0, i + 4)) {
                    Err(e) => (None, StepView::Failed(e.0, e.1)),
                    Ok(h) => if i + 4 + h.3 > MAX_REQUEST_BYTES {
                        (None, StepView::Failed(too_large().0, too_large().1))
                    } else {
                        (Some((h, i + 4)), completed(h, i + 4, d))
                    },
                },
            }
        },
    }
}

/// Collects the bytes of one request as they arrive from a connection.
pub struct RequestReader {
    data: Vec<u8>,
    head: Option<(RequestHead, usize)>,
}

impl RequestReader {
    /// The bytes received so far.
    pub closed spec fn received(&self) -> Seq<u8> {
        self.data@
    }

    /// The parsed head and the offset where the body starts, once known.
    pub closed spec fn parsed(&self) -> Option<((Seq<char>, Seq<char>, Seq<char>, usize), int)> {
        match self.head {
            Some((h, end)) => Some((request_head_view(h), end as int)),
            None => None,
        }
    }

    /// A parsed head ends within the bytes received, and head and body fit
    /// the limit.
    pub closed spec fn wf(&self) -> bool {
        match self.head {
            Some((h, end)) => end <= self.data@.len() && end + h.content_length
                <= MAX_REQUEST_BYTES,
            None => true,
        }
    }

    pub fn new() -> (r: RequestReader)
        ensures
            r.wf(),
            r.received() == Seq::<u8>::empty(),
            r.parsed() is None,
    {
        RequestReader { data: Vec::new(), head: None }
    }

    /// Takes the next bytes read from the connection.
    pub fn receive(&mut self, chunk: &[u8]) -> (r: ReadStep)
        requires
            old(self).wf(),
        ensures
            final(self).wf(),
            final(self).received() == old(self).received() + chunk@,
            (final(self).parsed(), step_view(r)) == reader_step(
                old(self).received(),
                old(self).parsed(),
                chunk@,
            ),
    {
        self.data.extend_from_slice(chunk);
        let ghost d = self.data@;
        assert(d == old(self).data@ + chunk@);
        match &self.head {
            Some((h, end)) => {
                let end = *end;
                let total = end + h.content_length;
                if self.data.len() >= total {
                    let body = vstd::slice::slice_to_vec(&self.data[end..total]);
                    ReadStep::Done(
                        Request {
                            method: copy_string(h.method.as_str()),
                            path: copy_string(h.path.as_str()),
                            query: copy_string(h.query.as_str()),
                            body,
                        },
                    )
                } else {
                    ReadStep::More
                }
            },
            None => {
                if self.data.len() > MAX_REQUEST_BYTES {
                    return ReadStep::Failed(payload_too_large());
                }
                match header_end(self.data.as_slice()) {
                    None => ReadStep::More,
                    Some(end) => {
                        match parse_request_head(&self.data[0..end]) {
                            Err(e) => ReadStep::Failed(e),
                            Ok(h) => {
                                if h.content_length > MAX_REQUEST_BYTES - end {
                                    return ReadStep::Failed(payload_too_large());
                                }
                                let total = end + h.content_length;
                                let step = if self.data.len() >= total {
                                    let body = vstd::slice::slice_to_vec(&self.data[end..total]);
                                    ReadStep::Done(
                                        Request {
                                            method: copy_string(h.method.as_str()),
                                            path: copy_string(h.path.as_str()),
                                            query: copy_string(h.query.as_str()),
                                            body,
                                        },
                                    )
                                } else {
                                    ReadStep::More
                                };
                                self.head = Some((h, end));
                                step
                            },
                        }
                    },
                }
            },
        }
    }

    /// The error answered when the connection ends before the request is
    /// complete.
    pub fn closed(&self) -> (r: ApiError)
        ensures
            api_error_view(r) == (400u16, if self.parsed() is None {
                "connection closed before request was complete"@
            } else {
                "request body is incomplete"@
            }),
    {
        if self.head.is_none() {
            bad_request("connection closed before request was complete")
        } else {
            bad_request("request body is incomplete")
        }
    }
}

/// The reason phrase sent with a status code.
pub open spec fn reason_of(status: u16) -> Seq<char> {
    if status == 200 {
        "OK"@
    } else if status == 400 {
        "Bad Request"@
    } else if status == 404 {
        "Not Found"@
    } else if status == 409 {
        "Conflict"@
    } else if status == 413 {
        "Payload Too Large"@
    } else {
        "Internal Server Error"@
    }
}

pub fn reason_phrase(status: u16) -> (r: &'static str)
    ensures
        r@ == reason_of(status),
{
    if status == 200 {
        "OK"
    } else if status == 400 {
        "Bad Request"
    } else if status == 404 {
        "Not Found"
    } else if status == 409 {
        "Conflict"
    } else if status == 413 {
        "Payload Too Large"
    } else {
        "Internal Server Error"
    }
}

/// The status line and headers of a JSON response with a body of `len` bytes.
pub open spec fn response_head_text(status: u16, len: nat) -> Seq<char> {
    "HTTP/1.1 "@ + decimal_text(status as nat) + " "@ + reason_of(status)
        + "\r\nContent-Type: application/json\r\nContent-Length: "@ + decimal_text(len)
        + "\r\nConnection: close\r\n\r\n"@
}

/// The status line and headers of a JSON response.
pub fn response_head(status: u16, body_len: usize) -> (r: String)
    ensures
        r@ == response_head_text(status, body_len as nat),
{
    let code = decimal_string(status as u64);
    let length = decimal_string(body_len as u64);
    let first = concat3("HTTP/1.1 ", code.as_str(), " ");
    let second = concat3(
        first.as_str(),
        reason_phrase(status),
        "\r\nContent-Type: application/json\r\nContent-Length: ",
    );
    concat3(second.as_str(), length.as_str(), "\r\nConnection: close\r\n\r\n")
}

/// A whole response: the head followed by the body bytes.
pub fn response_bytes(status: u16, body: &[u8]) -> (r: Vec<u8>)
    ensures
        r@ == vstd::utf8::encode_utf8(response_head_text(status, body@.len())) + body@,
{
    let head = response_head(status, body.len());
    let mut out = vstd::slice::slice_to_vec(head.as_str().as_bytes());
    out.extend_from_slice(body);
    out
}

proof fn lemma_multibyte_bytes(x: u32)
    by (bit_vector)
    ensures
        (0xC0u8 | ((x >> 6) & 0x1F) as u8) >= 0x80,
        (0xE0u8 | ((x >> 12) & 0x0F) as u8) >= 0x80,
        (0xF0u8 | ((x >> 18) & 0x7) as u8) >= 0x80,
        (0x80u8 | (x & 0x3F) as u8) >= 0x80,
        (0x80u8 | ((x >> 6) & 0x3F) as u8) >= 0x80,
        (0x80u8 | ((x >> 12) & 0x3F) as u8) >= 0x80,
{
}

proof fn lemma_scalar_bytes_plain(c: u32)
    requires
        vstd::utf8::is_scalar(c),
        c != 0x25,
        c != 0x2B,
    ensures
        forall|k: int|
            0 <= k < vstd::utf8::encode_scalar(c).len() ==> #[trigger] vstd::utf8::encode_scalar(c)[k]
                != 0x25 && vstd::utf8::encode_scalar(c)[k] != 0x2B,
{
    if vstd::utf8::has_width_1_encoding(c) {
        assert(c <= 0x7f ==> (c & 0x7f) == c) by (bit_vector);
    } else {
        let b = vstd::utf8::encode_scalar(c);
        lemma_multibyte_bytes(c);
        assert forall|k: int| 0 <= k < b.len() implies b[k] >= 0x80 by {}
    }
}

proof fn lemma_encoding_plain(v: Seq<char>)
    requires
        forall|i: int| 0 <= i < v.len() ==> #[trigger] v[i] != '%' && v[i] != '+',
    ensures
        forall|k: int|
            0 <= k < vstd::utf8::encode_utf8(v).len() ==> #[trigger] vstd::utf8::encode_utf8(v)[k]
                != 0x25 && vstd::utf8::encode_utf8(v)[k] != 0x2B,
    decreases v.len(),
{
    if v.len() > 0 {
        let rest = v.drop_first();
        assert forall|i: int| 0 <= i < rest.len() implies #[trigger] rest[i] != '%' && rest[i] != '+' by {
            assert(rest[i] == v[i + 1]);
        }
        lemma_encoding_plain(rest);
        vstd::utf8::char_is_scalar(v[0]);
        assert(v[0] != '%' && v[0] != '+');
        if (v[0] as u32) == 0x2B {
            vstd::utf8::char_u32_cast(v[0], 0x2B);
            assert(v[0] == '+');
        }
        if (v[0] as u32) == 0x25 {
            vstd::utf8::char_u32_cast(v[0], 0x25);
            assert(v[0] == '%');
        }
        lemma_scalar_bytes_plain(v[0] as u32);
        let head = vstd::utf8::encode_scalar(v[0] as u32);
        let all = vstd::utf8::encode_utf8(v);
        assert(all == head + vstd::utf8::encode_utf8(rest));
        assert forall|k: int| 0 <= k < all.len() implies #[trigger] all[k] != 0x25 && all[k] != 0x2B by {
            if k < head.len() {
                assert(all[k] == head[k]);
            } else {
                assert(all[k] == vstd::utf8::encode_utf8(rest)[k - head.len()]);
            }
        }
    }
}

proof fn lemma_plain_bytes_decode(b: Seq<u8>, i: int)
    requires
        0 <= i <= b.len(),
        forall|k: int| 0 <= k < b.len() ==> #[trigger] b[k] != 0x25 && b[k] != 0x2B,
    ensures
        url_decoded_bytes(b, i, b.take(i)) == Some(b),
    decreases b.len() - i,
{
    if i < b.len() {
        assert(b.take(i).push(b[i]) =~= b.take(i + 1));
        lemma_plain_bytes_decode(b, i + 1);
    } else {
        assert(b.take(i) =~= b);
    }
}

/// URL decoding leaves a component without `%` escapes and `+` signs as it
/// is.
pub proof fn lemma_plain_text_decodes_to_itself(v: Seq<char>)
    requires
        forall|i: int| 0 <= i < v.len() ==> #[trigger] v[i] != '%' && v[i] != '+',
    ensures
        url_decoded(v) == Ok::<Seq<char>, (u16, Seq<char>)>(v),
{
    let b = vstd::utf8::encode_utf8(v);
    lemma_encoding_plain(v);
    lemma_plain_bytes_decode(b, 0);
    assert(b.take(0) =~= Seq::<u8>::empty());
    vstd::utf8::encode_utf8_valid_utf8(v);
    vstd::utf8::encode_utf8_decode_utf8(v);
}

proof fn lemma_first_bytes_at(haystack: Seq<u8>, needle: Seq<u8>, from: int, i: int)
    requires
        0 <= from <= i,
        bytes_at(haystack, needle, i),
        forall|j: int| from <= j < i ==> !bytes_at(haystack, needle, j),
    ensures
        first_bytes(haystack, needle, from) == Some(i),
    decreases i - from,
{
    if from < i {
        lemma_first_bytes_at(haystack, needle, from + 1, i);
    }
}

/// A request is done as soon as its whole body is held: once the head is
/// known, ending at `end` and announcing `length` body bytes, any step that
/// leaves at least `end + length` bytes received answers that request with
/// the `length` bytes after the head; fewer bytes keep the reader waiting.
pub proof fn lemma_known_head_completes(
    d0: Seq<u8>,
    h: (Seq<char>, Seq<char>, Seq<char>, usize),
    end: int,
    chunk: Seq<u8>,
)
    ensures
        ({
            let d = d0 + chunk;
            let r = reader_step(d0, Some((h, end)), chunk);
            &&& r.0 == Some((h, end))
            &&& d.len() >= end + h.3 ==> r.1 == StepView::Done(h.0, h.1, h.2, d.subrange(end, end + h.3))
            &&& d.len() < end + h.3 ==> r.1 == StepView::More
        }),
{
}

/// A request that arrives whole is answered on the same step: when the bytes
/// held, within the limit, contain `\r\n\r\n` first at `i`, the head before
/// it parses as `h`, and its `h.3` body bytes have all arrived, the step
/// records the head and is done with the `h.3` bytes after it, even on the
/// step in which the head is first found.
pub proof fn lemma_whole_request_is_done_at_once(
    d0: Seq<u8>,
    chunk: Seq<u8>,
    i: int,
    h: (Seq<char>, Seq<char>, Seq<char>, usize),
)
    requires
        (d0 + chunk).len() <= MAX_REQUEST_BYTES,
        bytes_at(d0 + chunk, seq![13u8, 10u8, 13u8, 10u8], i),
        forall|j: int| 0 <= j < i ==> !bytes_at(d0 + chunk, seq![13u8, 10u8, 13u8, 10u8], j),
        head_of((d0 + chunk).subrange(0, i + 4)) == Ok::<(Seq<char>, Seq<char>, Seq<char>, usize), (u16, Seq<char>)>(h),
        (d0 + chunk).len() >= i + 4 + h.3,
    ensures
        reader_step(d0, None, chunk) == (
            Some((h, i + 4)),
            StepView::Done(h.0, h.1, h.2, (d0 + chunk).subrange(i + 4, i + 4 + h.3)),
        ),
{
    let d = d0 + chunk;
    assert(header_terminator() == seq![13u8, 10u8, 13u8, 10u8]);
    lemma_first_bytes_at(d, header_terminator(), 0, i);
}

} // verus!
