use liquid_cache_admin::links::{
    download_name, endpoint_url, frame_document, host_query, svg_data_url, Endpoint,
};
use liquid_cache_admin::models::server::{CacheInfo, ParquetCacheUsage, SystemInfo};
use liquid_cache_admin::text::{chars_of, replace_chars, string_of};
use liquid_cache_admin::toast::{failure_notice, plans_failure_notice};
use liquid_cache_admin::utils::format_clock;

fn replace_by_library(text: &str, from: &str, to: &str) -> String {
    string_of(&replace_chars(&chars_of(text), &chars_of(from), &chars_of(to)))
}

#[test]
fn a_flamegraph_is_linked_as_a_data_url() {
    assert_eq!(svg_data_url(""), "data:image/svg+xml;charset=utf-8,");
    assert_eq!(
        svg_data_url("<svg a=\"1\"/>"),
        "data:image/svg+xml;charset=utf-8,%3Csvg%20a%3D%221%22%2F%3E"
    );
    assert_eq!(
        svg_data_url("AZaz09-._~"),
        "data:image/svg+xml;charset=utf-8,AZaz09-._~"
    );
    assert_eq!(
        svg_data_url("é\u{3bc}\u{10348}"),
        "data:image/svg+xml;charset=utf-8,%C3%A9%CE%BC%F0%90%8D%88"
    );
    assert_eq!(svg_data_url(" +%\n"), "data:image/svg+xml;charset=utf-8,%20%2B%25%0A");
}

#[test]
fn a_data_url_escapes_every_byte_but_the_unreserved() {
    for byte in 0u8..128 {
        let text = (byte as char).to_string();
        let keep = byte.is_ascii_alphanumeric() || b"-._~".contains(&byte);
        let expected = if keep { text.clone() } else { format!("%{byte:02X}") };
        assert_eq!(
            svg_data_url(&text),
            format!("data:image/svg+xml;charset=utf-8,{expected}"),
            "byte {byte}"
        );
    }
}

#[test]
fn a_flamegraph_is_saved_under_the_id_of_its_plan() {
    assert_eq!(download_name("abc"), "flamegraph-abc.svg");
    assert_eq!(download_name(""), "flamegraph-.svg");
}

#[test]
fn a_flamegraph_is_shown_in_a_document_of_its_own() {
    assert_eq!(
        frame_document("<svg/>"),
        "<!DOCTYPE html><html><head><style>body{margin:0;padding:0;} svg{width:100%;height:auto;}</style></head><body><svg/></body></html>"
    );
}

#[test]
fn the_address_of_the_server_goes_into_the_query() {
    assert_eq!(host_query("http://localhost:53703"), "?host=http%3A%2F%2Flocalhost:53703");
    assert_eq!(host_query("http://h/a/b"), "?host=http%3A%2F%2Fh%2Fa%2Fb");
    assert_eq!(host_query(""), "?host=");
    assert_eq!(host_query("localhost"), "?host=localhost");
    assert_eq!(host_query(":///"), "?host=%3A%2F%2F%2F");
    assert_eq!(host_query("a://b://c"), "?host=a%3A%2F%2Fb%3A%2F%2Fc");
    assert_eq!(host_query("::/:/ /"), "?host=::%2F:%2F %2F");
}

#[test]
fn the_query_agrees_with_the_replacing_of_strings() {
    let pieces = ["", ":", "/", "//", "://", "a", ":/", "b.c", "%", " ", "é"];
    let mut state: u64 = 99;
    for _ in 0..500 {
        let mut address = String::new();
        for _ in 0..6 {
            state = state.wrapping_mul(6364136223846793005).wrapping_add(1442695040888963407);
            address.push_str(pieces[(state >> 33) as usize % pieces.len()]);
        }
        let expected = format!(
            "?host={}",
            address.replace("://", "%3A%2F%2F").replace("/", "%2F")
        );
        assert_eq!(host_query(&address), expected, "address {address:?}");
    }
}

#[test]
fn replacing_takes_occurrences_from_the_left() {
    assert_eq!(replace_by_library("aaaa", "aa", "b"), "bb");
    assert_eq!(replace_by_library("aaa", "aa", "b"), "ba");
    assert_eq!(replace_by_library("abcabc", "bc", ""), "aa");
    assert_eq!(replace_by_library("abc", "abcd", "x"), "abc");
    assert_eq!(replace_by_library("", "a", "x"), "");
    assert_eq!(replace_by_library("xyz", "z", "zz"), "xyzz");
    // An empty pattern occurs nowhere.
    assert_eq!(replace_by_library("ab", "", "x"), "ab");
    assert_eq!(replace_by_library("", "", "x"), "");
    let texts = ["", "a", "aa", "aaa", "abab", "ababab", "aabaab", "baaab", "ééé"];
    let patterns = ["a", "aa", "ab", "aba", "b", "é", "éé"];
    for text in texts {
        for from in patterns {
            for to in ["", "a", "xy", "aba"] {
                assert_eq!(
                    replace_by_library(text, from, to),
                    text.replace(from, to),
                    "{text:?} {from:?} {to:?}"
                );
            }
        }
    }
}

#[test]
fn each_endpoint_has_its_address() {
    let base = "http://localhost:53703";
    let url = |endpoint: Endpoint| endpoint_url(base, &endpoint);
    assert_eq!(url(Endpoint::ExecutionPlans), "http://localhost:53703/execution_plans");
    assert_eq!(url(Endpoint::CacheInfo), "http://localhost:53703/cache_info");
    assert_eq!(url(Endpoint::ParquetCacheUsage), "http://localhost:53703/parquet_cache_usage");
    assert_eq!(url(Endpoint::SystemInfo), "http://localhost:53703/system_info");
    assert_eq!(url(Endpoint::ResetCache), "http://localhost:53703/reset_cache");
    assert_eq!(url(Endpoint::Shutdown), "http://localhost:53703/shutdown");
    assert_eq!(url(Endpoint::StartTrace), "http://localhost:53703/start_trace");
    assert_eq!(
        url(Endpoint::StopTrace { path: "/tmp/my trace".to_string() }),
        "http://localhost:53703/stop_trace?path=%2Ftmp%2Fmy%20trace"
    );
    assert_eq!(
        url(Endpoint::CacheStats { path: "out.json".to_string() }),
        "http://localhost:53703/cache_stats?path=out.json"
    );
    assert_eq!(endpoint_url("", &Endpoint::Shutdown), "/shutdown");
}

#[test]
fn a_time_of_day_has_two_digits_in_each_part() {
    assert_eq!(format_clock(0, 0, 0), "00:00:00");
    assert_eq!(format_clock(9, 5, 7), "09:05:07");
    assert_eq!(format_clock(23, 59, 59), "23:59:59");
    assert_eq!(format_clock(10, 10, 10), "10:10:10");
    assert_eq!(format_clock(100, 9, 4294967295), "100:09:4294967295");
    for h in 0..24u32 {
        for m in [0u32, 1, 9, 10, 59] {
            assert_eq!(format_clock(h, m, m), format!("{:02}:{:02}:{:02}", h, m, m));
        }
    }
}

#[test]
fn the_server_is_described_in_words() {
    let info = SystemInfo {
        total_memory_bytes: 17179869184,
        used_memory_bytes: 1610612736,
        name: "Ubuntu".to_string(),
        kernel: "6.8".to_string(),
        os: "24.04".to_string(),
        host_name: "cache-1".to_string(),
        cpu_cores: 16,
        server_resident_memory_bytes: 1024,
        server_virtual_memory_bytes: 2048,
    };
    assert_eq!(info.os_text(), "Ubuntu (24.04)");
    assert_eq!(info.memory_text(), "1.50 GB / 16.00 GB used");
}

#[test]
fn the_panels_of_the_server_are_shown_line_by_line() {
    let pair = |label: &str, value: &str| (label.to_string(), value.to_string());
    let info = SystemInfo {
        total_memory_bytes: 2048,
        used_memory_bytes: 1024,
        name: "Debian".to_string(),
        kernel: "6.1".to_string(),
        os: "12".to_string(),
        host_name: "h".to_string(),
        cpu_cores: 8,
        server_resident_memory_bytes: 1048576,
        server_virtual_memory_bytes: 5,
    };
    assert_eq!(
        info.rows(),
        vec![
            pair("Host Name", "h"),
            pair("OS", "Debian (12)"),
            pair("Kernel", "6.1"),
            pair("CPU Cores", "8"),
            pair("Memory", "1.00 KB / 2.00 KB used"),
            pair("Server Resident", "1.00 MB"),
            pair("Server Virtual", "5 B"),
        ]
    );
    let cache = CacheInfo {
        batch_size: 8192,
        max_cache_bytes: 1073741824,
        memory_usage_bytes: 0,
        disk_usage_bytes: 1536,
    };
    assert_eq!(
        cache.rows(),
        vec![
            pair("Batch Size", "8192"),
            pair("Max Cache", "1.00 GB"),
            pair("Memory used", "0 B"),
            pair("Disk used", "1.50 KB"),
        ]
    );
    let usage = ParquetCacheUsage {
        directory: "/var/cache".to_string(),
        file_count: 12,
        total_size_bytes: 1023,
    };
    assert_eq!(
        usage.rows(),
        vec![pair("Directory", "/var/cache"), pair("File Count", "12"), pair("Total Size", "1023 B")]
    );
}

#[test]
fn a_failure_is_told_with_what_was_tried() {
    assert_eq!(failure_notice("reset cache", "timeout"), "Failed to reset cache: timeout");
    assert_eq!(failure_notice("", ""), "Failed to : ");
    assert_eq!(
        plans_failure_notice("connection refused"),
        "Failed to fetch execution plans: connection refused"
    );
}
