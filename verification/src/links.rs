//! The addresses that the dashboard builds: those of the server's endpoints,
//! the query that carries the server's address, and what a flamegraph is
//! handed to the browser as.

use crate::text::{chars_of, digit_char, replace_chars, replaced, string_of};
use vstd::prelude::*;
use vstd::utf8::encode_utf8;

verus! {

/// Whether a byte stands for itself in a percent-encoded text: the letters
/// and digits of ASCII and `-`, `.`, `_`, `~`.
pub open spec fn unreserved(byte: u8) -> bool {
    ||| 0x30 <= byte <= 0x39
    ||| 0x41 <= byte <= 0x5A
    ||| 0x61 <= byte <= 0x7A
    ||| byte == 0x2D
    ||| byte == 0x2E
    ||| byte == 0x5F
    ||| byte == 0x7E
}

/// The hexadecimal digit of a number below 16, in upper case.
pub open spec fn hex_digit(d: nat) -> char
    recommends
        d < 16,
{
    if d < 10 {
        digit_char(d)
    } else if d == 10 {
        'A'
    } else if d == 11 {
        'B'
    } else if d == 12 {
        'C'
    } else if d == 13 {
        'D'
    } else if d == 14 {
        'E'
    } else {
        'F'
    }
}

/// A byte as it stands in a percent-encoded text: itself, or `%` and its two
/// hexadecimal digits.
pub open spec fn escaped(byte: u8) -> Seq<char> {
    if unreserved(byte) {
        seq![byte as char]
    } else {
        seq!['%', hex_digit(byte as nat / 16), hex_digit(byte as nat % 16)]
    }
}

/// The percent-encoding of a sequence of bytes.
pub open spec fn percent_encoded(bytes: Seq<u8>) -> Seq<char>
    decreases bytes.len(),
{
    if bytes.len() == 0 {
        Seq::empty()
    } else {
        percent_encoded(bytes.drop_last()) + escaped(bytes.last())
    }
}

/// `urlencoding::encode`: the percent-encoding of the text's UTF-8 bytes.
/// Every byte but an ASCII letter or digit or one of `-`, `.`, `_`, `~`
/// becomes `%` and two hexadecimal digits in upper case.
#[verifier::external_body]
fn percent_encode(text: &str) -> (out: String)
    ensures
        out@ == percent_encoded(encode_utf8(text@)),
{
    urlencoding::encode(text).into_owned()
}

/// What a flamegraph is linked as: a `data:` URL that holds the SVG
/// document, percent-encoded.
pub open spec fn data_url(svg: Seq<char>) -> Seq<char> {
    "data:image/svg+xml;charset=utf-8,"@ + percent_encoded(encode_utf8(svg))
}

/// The name under which the flamegraph of a plan is saved.
pub open spec fn download_file_name(plan_id: Seq<char>) -> Seq<char> {
    "flamegraph-"@ + plan_id + ".svg"@
}

/// The HTML document that shows a flamegraph in a frame of its own.
pub open spec fn frame_html(svg: Seq<char>) -> Seq<char> {
    "<!DOCTYPE html><html><head><style>body{margin:0;padding:0;} svg{width:100%;height:auto;}</style></head><body>"@
        + svg + "</body></html>"@
}

/// The address of a server as it stands in a query: every `://` as
/// `%3A%2F%2F`, then every `/` as `%2F`.
pub open spec fn encoded_host(address: Seq<char>) -> Seq<char> {
    replaced(replaced(address, "://"@, "%3A%2F%2F"@), "/"@, "%2F"@)
}

/// The query that carries the address of the server.
pub open spec fn host_query_text(address: Seq<char>) -> Seq<char> {
    "?host="@ + encoded_host(address)
}

/// What can be asked of the server.
#[derive(Debug)]
pub enum Endpoint {
    ExecutionPlans,
    CacheInfo,
    ParquetCacheUsage,
    SystemInfo,
    ResetCache,
    Shutdown,
    StartTrace,
    /// Stops the trace and has it written to the path.
    StopTrace { path: String },
    /// The statistics of the cache, written to the path.
    CacheStats { path: String },
}

/// The part of an address that names an endpoint.
pub open spec fn endpoint_path(endpoint: Endpoint) -> Seq<char> {
    match endpoint {
        Endpoint::ExecutionPlans => "/execution_plans"@,
        Endpoint::CacheInfo => "/cache_info"@,
        Endpoint::ParquetCacheUsage => "/parquet_cache_usage"@,
        Endpoint::SystemInfo => "/system_info"@,
        Endpoint::ResetCache => "/reset_cache"@,
        Endpoint::Shutdown => "/shutdown"@,
        Endpoint::StartTrace => "/start_trace"@,
        Endpoint::StopTrace { path } => "/stop_trace?path="@ + percent_encoded(
            encode_utf8(path@),
        ),
        Endpoint::CacheStats { path } => "/cache_stats?path="@ + percent_encoded(
            encode_utf8(path@),
        ),
    }
}

/// The URL of a flamegraph; see `data_url`.
pub fn svg_data_url(svg: &str) -> (out: String)
    ensures
        out@ == data_url(svg@),
{
    let mut out = String::from_str("data:image/svg+xml;charset=utf-8,");
    let encoded = percent_encode(svg);
    out.append(encoded.as_str());
    out
}

/// The name under which the flamegraph of a plan is saved.
pub fn download_name(plan_id: &str) -> (out: String)
    ensures
        out@ == download_file_name(plan_id@),
{
    let mut out = String::from_str("flamegraph-");
    out.append(plan_id);
    out.append(".svg");
    out
}

/// The HTML document that shows a flamegraph in a frame of its own.
pub fn frame_document(svg: &str) -> (out: String)
    ensures
        out@ == frame_html(svg@),
{
    let mut out = String::from_str(
        "<!DOCTYPE html><html><head><style>body{margin:0;padding:0;} svg{width:100%;height:auto;}</style></head><body>",
    );
    out.append(svg);
    out.append("</body></html>");
    out
}

/// The query that carries the address of the server; see `encoded_host`.
pub fn host_query(address: &str) -> (out: String)
    ensures
        out@ == host_query_text(address@),
{
    proof {
        reveal_strlit("://");
        reveal_strlit("/");
    }
    let chars = chars_of(address);
    let scheme = replace_chars(&chars, &chars_of("://"), &chars_of("%3A%2F%2F"));
    let all = replace_chars(&scheme, &chars_of("/"), &chars_of("%2F"));
    let encoded = string_of(&all);
    let mut out = String::from_str("?host=");
    out.append(encoded.as_str());
    out
}

/// The address of an endpoint of the server at `address`.
pub fn endpoint_url(address: &str, endpoint: &Endpoint) -> (out: String)
    ensures
        out@ == address@ + endpoint_path(*endpoint),
{
    let mut out = String::from_str(address);
    match endpoint {
        Endpoint::ExecutionPlans => {
            out.append("/execution_plans");
        },
        Endpoint::CacheInfo => {
            out.append("/cache_info");
        },
        Endpoint::ParquetCacheUsage => {
            out.append("/parquet_cache_usage");
        },
        Endpoint::SystemInfo => {
            out.append("/system_info");
        },
        Endpoint::ResetCache => {
            out.append("/reset_cache");
        },
        Endpoint::Shutdown => {
            out.append("/shutdown");
        },
        Endpoint::StartTrace => {
            out.append("/start_trace");
        },
        Endpoint::StopTrace { path } => {
            out.append("/stop_trace?path=");
            let encoded = percent_encode(path.as_str());
            out.append(encoded.as_str());
            assert(out@ == address@ + ("/stop_trace?path="@ + percent_encoded(
                encode_utf8(path@),
            )));
        },
        Endpoint::CacheStats { path } => {
            out.append("/cache_stats?path=");
            let encoded = percent_encode(path.as_str());
            out.append(encoded.as_str());
            assert(out@ == address@ + ("/cache_stats?path="@ + percent_encoded(
                encode_utf8(path@),
            )));
        },
    }
    out
}

} // verus!
