use portmanager::binding::PortBinding;
use portmanager::host::CommandOutcome;
use portmanager::scanner::{command_text, discover, parse_listing, resolve, ScanFailure};

fn binding(pid: u32, name: &str, port: u16) -> PortBinding {
    PortBinding { pid, name: name.to_string(), port, command: String::new() }
}

fn exited(success: bool, stdout: &[u8]) -> CommandOutcome {
    CommandOutcome::Exited { success, stdout: stdout.to_vec(), stderr: Vec::new() }
}

const HEADER: &str = "COMMAND   PID USER   FD   TYPE             DEVICE SIZE/OFF NODE NAME\n";

#[test]
fn parse_listing_reads_the_rows_after_the_header() {
    let text = format!(
        "{}{}{}",
        HEADER,
        "node     1234 me   23u  IPv4 0x1234      0t0  TCP *:3000 (LISTEN)\n",
        "rapportd  501 me    4u  IPv6 0xabc       0t0  TCP [::1]:49152 (LISTEN)\n"
    );
    assert_eq!(
        parse_listing(&text),
        vec![binding(1234, "node", 3000), binding(501, "rapportd", 49152)]
    );
}

#[test]
fn parse_listing_keeps_the_order_of_the_rows() {
    let text = format!(
        "{}{}{}{}",
        HEADER,
        "c 3 u f t d s TCP *:9000 (LISTEN)\n",
        "a 1 u f t d s TCP *:80 (LISTEN)\n",
        "b 2 u f t d s TCP *:9000 (LISTEN)\n"
    );
    assert_eq!(
        parse_listing(&text),
        vec![binding(3, "c", 9000), binding(1, "a", 80), binding(2, "b", 9000)]
    );
}

#[test]
fn parse_listing_of_nothing_is_empty() {
    assert_eq!(parse_listing(""), Vec::<PortBinding>::new());
    assert_eq!(parse_listing("\n"), Vec::<PortBinding>::new());
    assert_eq!(parse_listing(HEADER), Vec::<PortBinding>::new());
    assert_eq!(parse_listing("COMMAND PID"), Vec::<PortBinding>::new());
}

#[test]
fn parse_listing_skips_the_first_line_whatever_it_holds() {
    let text = "node 1 u f t d s TCP *:3000 (LISTEN)\nnode 2 u f t d s TCP *:3001 (LISTEN)\n";
    assert_eq!(parse_listing(text), vec![binding(2, "node", 3001)]);
}

#[test]
fn parse_listing_reads_a_last_line_without_line_break() {
    let text = format!("{}{}", HEADER, "node 7 u f t d s TCP 127.0.0.1:8080");
    assert_eq!(parse_listing(&text), vec![binding(7, "node", 8080)]);
}

#[test]
fn parse_listing_passes_over_short_rows() {
    let text = format!(
        "{}{}{}{}{}",
        HEADER,
        "node 1 u f t d s TCP\n",
        "\n",
        "   \n",
        "node 2 u f t d s TCP *:3000\n"
    );
    assert_eq!(parse_listing(&text), vec![binding(2, "node", 3000)]);
}

#[test]
fn parse_listing_passes_over_rows_without_a_process_identifier() {
    let text = format!(
        "{}{}{}{}{}",
        HEADER,
        "node abc u f t d s TCP *:3000\n",
        "node -5 u f t d s TCP *:3000\n",
        "node 4294967296 u f t d s TCP *:3000\n",
        "node 4294967295 u f t d s TCP *:3000\n"
    );
    assert_eq!(parse_listing(&text), vec![binding(4294967295, "node", 3000)]);
}

#[test]
fn parse_listing_passes_over_rows_without_a_port() {
    let text = format!(
        "{}{}{}{}{}{}{}",
        HEADER,
        "node 1 u f t d s TCP *:*\n",
        "node 2 u f t d s TCP *:65536\n",
        "node 3 u f t d s TCP *:\n",
        "node 4 u f t d s TCP *:http\n",
        "node 5 u f t d s TCP *:65535\n",
        "node 6 u f t d s TCP *:0\n"
    );
    assert_eq!(parse_listing(&text), vec![binding(5, "node", 65535), binding(6, "node", 0)]);
}

#[test]
fn parse_listing_takes_the_port_after_the_last_colon() {
    let text = format!(
        "{}{}{}{}",
        HEADER,
        "a 1 u f t d s TCP [fe80::1]:5000 (LISTEN)\n",
        "b 2 u f t d s TCP 6000 (LISTEN)\n",
        "c 3 u f t d s TCP 10.0.0.1:7000->10.0.0.2:7001\n"
    );
    assert_eq!(
        parse_listing(&text),
        vec![binding(1, "a", 5000), binding(2, "b", 6000), binding(3, "c", 7001)]
    );
}

#[test]
fn parse_listing_separates_fields_at_any_white_space() {
    let text = format!(
        "{}{}{}",
        HEADER,
        "  node\t1\tu  f\u{00A0}t d s TCP *:3000\r\n",
        "\tdeno 2 u f t d s TCP *:3001 (LISTEN) extra fields here\r\n"
    );
    assert_eq!(parse_listing(&text), vec![binding(1, "node", 3000), binding(2, "deno", 3001)]);
}

#[test]
fn parse_listing_reads_ports_and_identifiers_as_the_standard_library_does() {
    let text = format!(
        "{}{}{}",
        HEADER,
        "node +12 u f t d s TCP *:+0443\n",
        "node 0012 u f t d s TCP *:00080\n"
    );
    assert_eq!(parse_listing(&text), vec![binding(12, "node", 443), binding(12, "node", 80)]);
}

fn reference_listing(text: &str) -> Vec<PortBinding> {
    let mut found = Vec::new();
    for line in text.lines().skip(1) {
        let parts: Vec<&str> = line.split_whitespace().collect();
        if parts.len() >= 9 {
            if let Some(port) = parts[8].split(':').last() {
                if let (Ok(pid), Ok(port)) = (parts[1].parse::<u32>(), port.parse::<u16>()) {
                    found.push(binding(pid, parts[0], port));
                }
            }
        }
    }
    found
}

#[test]
fn parse_listing_agrees_with_a_reading_by_the_standard_library() {
    let pieces = [
        "node", "1", "22", "*:80", "[::1]:443", "x", "", " ", "\t", "\n", "\r\n", ":", "+7",
        "70000", "a:b:9", "TCP", "u f t d s TCP",
    ];
    let mut seed: u64 = 12345;
    for _ in 0..400 {
        let mut text = String::new();
        for _ in 0..40 {
            seed = seed.wrapping_mul(6364136223846793005).wrapping_add(1442695040888963407);
            let pick = ((seed >> 33) % pieces.len() as u64) as usize;
            text.push_str(pieces[pick]);
            if (seed >> 20) % 3 != 0 {
                text.push(' ');
            }
        }
        assert_eq!(parse_listing(&text), reference_listing(&text));
    }
}

#[test]
fn discover_reads_the_output_of_a_successful_listing() {
    let text = format!("{}{}", HEADER, "node 1234 me 23u IPv4 0x1 0t0 TCP *:3000 (LISTEN)\n");
    assert_eq!(discover(exited(true, text.as_bytes())), Ok(vec![binding(1234, "node", 3000)]));
}

#[test]
fn discover_fails_where_the_listing_could_not_be_started() {
    assert_eq!(discover(CommandOutcome::NotRun), Err(ScanFailure::Unavailable));
}

#[test]
fn discover_fails_where_the_listing_reported_failure() {
    let text = format!("{}{}", HEADER, "node 1234 me 23u IPv4 0x1 0t0 TCP *:3000 (LISTEN)\n");
    assert_eq!(discover(exited(false, text.as_bytes())), Err(ScanFailure::Failed));
    assert_eq!(discover(exited(false, &[0xff])), Err(ScanFailure::Failed));
}

#[test]
fn discover_fails_where_the_output_is_no_text() {
    assert_eq!(discover(exited(true, &[b'a', 0xff, b'\n'])), Err(ScanFailure::Undecodable));
    assert_eq!(discover(exited(true, &[0xc3])), Err(ScanFailure::Undecodable));
}

#[test]
fn discover_decodes_text_beyond_ascii() {
    let text = format!("{}{}", HEADER, "naïve 9 u f t d s TCP *:3000\n");
    assert_eq!(discover(exited(true, text.as_bytes())), Ok(vec![binding(9, "naïve", 3000)]));
}

#[test]
fn discover_finds_nothing_in_an_empty_output() {
    assert_eq!(discover(exited(true, b"")), Ok(Vec::new()));
}

#[test]
fn command_text_trims_what_the_lookup_wrote() {
    assert_eq!(command_text(&exited(true, b"/usr/bin/node server.js\n")), "/usr/bin/node server.js");
    assert_eq!(command_text(&exited(true, b"  sh -c x  \n\n")), "sh -c x");
    assert_eq!(command_text(&exited(true, b"")), "");
    assert_eq!(command_text(&exited(true, b" \n")), "");
}

#[test]
fn command_text_does_not_look_at_the_status() {
    assert_eq!(command_text(&exited(false, b"partial\n")), "partial");
}

#[test]
fn command_text_is_empty_where_the_lookup_could_not_be_started() {
    assert_eq!(command_text(&CommandOutcome::NotRun), "");
}

#[test]
fn command_text_replaces_what_is_no_text() {
    assert_eq!(command_text(&exited(true, &[b' ', b'a', 0xff, b'b', b'\n'])), "a\u{FFFD}b");
}

#[test]
fn resolve_attaches_the_command_of_each_lookup() {
    let found = vec![binding(1, "node", 3000), binding(2, "deno", 3001)];
    let lookups = vec![exited(true, b"node server.js\n"), exited(true, b"deno run\n")];
    assert_eq!(
        resolve(&found, &lookups),
        vec![
            PortBinding { pid: 1, name: "node".to_string(), port: 3000, command: "node server.js".to_string() },
            PortBinding { pid: 2, name: "deno".to_string(), port: 3001, command: "deno run".to_string() },
        ]
    );
}

#[test]
fn resolve_leaves_the_command_empty_where_the_lookup_failed_or_is_missing() {
    let found = vec![binding(1, "a", 1), binding(2, "b", 2), binding(3, "c", 3)];
    let lookups = vec![CommandOutcome::NotRun, exited(true, b"bee\n")];
    assert_eq!(
        resolve(&found, &lookups),
        vec![
            binding(1, "a", 1),
            PortBinding { pid: 2, name: "b".to_string(), port: 2, command: "bee".to_string() },
            binding(3, "c", 3),
        ]
    );
}

#[test]
fn resolve_ignores_lookups_beyond_the_bindings() {
    let found = vec![binding(1, "a", 1)];
    let lookups = vec![exited(true, b"x"), exited(true, b"y")];
    assert_eq!(
        resolve(&found, &lookups),
        vec![PortBinding { pid: 1, name: "a".to_string(), port: 1, command: "x".to_string() }]
    );
    assert_eq!(resolve(&Vec::new(), &lookups), Vec::<PortBinding>::new());
}
