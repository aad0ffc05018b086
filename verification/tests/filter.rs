use portmanager::binding::PortBinding;
use portmanager::config::Config;
use portmanager::filter::apply;

fn binding(pid: u32, name: &str, port: u16) -> PortBinding {
    PortBinding { pid, name: name.to_string(), port, command: format!("cmd-{}", pid) }
}

fn config(min_port: u16, max_port: u16, excluded: &[&str]) -> Config {
    Config {
        min_port,
        max_port,
        filtered_process_names: excluded.iter().map(|s| s.to_string()).collect(),
    }
}

fn reference(bindings: &[PortBinding], config: &Config) -> Vec<PortBinding> {
    let mut shown: Vec<PortBinding> = bindings
        .iter()
        .filter(|b| {
            b.port >= config.min_port
                && b.port <= config.max_port
                && !config.filtered_process_names.iter().any(|f| b.name.contains(f.as_str()))
        })
        .cloned()
        .collect();
    shown.sort_by_key(|b| b.port);
    shown
}

#[test]
fn apply_keeps_the_ports_in_range() {
    let scan = vec![
        binding(1, "a", 1023),
        binding(2, "b", 1024),
        binding(3, "c", 30000),
        binding(4, "d", 49151),
        binding(5, "e", 49152),
    ];
    assert_eq!(
        apply(&scan, &config(1024, 49151, &[])),
        vec![binding(2, "b", 1024), binding(3, "c", 30000), binding(4, "d", 49151)]
    );
}

#[test]
fn apply_keeps_a_single_port() {
    let scan = vec![binding(1, "a", 79), binding(2, "b", 80), binding(3, "c", 81)];
    assert_eq!(apply(&scan, &config(80, 80, &[])), vec![binding(2, "b", 80)]);
}

#[test]
fn apply_keeps_nothing_where_the_range_is_inverted() {
    let scan = vec![binding(1, "a", 79), binding(2, "b", 80), binding(3, "c", 81)];
    assert_eq!(apply(&scan, &config(81, 79, &[])), Vec::<PortBinding>::new());
}

#[test]
fn apply_keeps_every_port_of_the_full_range() {
    let scan = vec![binding(1, "a", 65535), binding(2, "b", 0)];
    assert_eq!(
        apply(&scan, &config(0, 65535, &[])),
        vec![binding(2, "b", 0), binding(1, "a", 65535)]
    );
}

#[test]
fn apply_excludes_names_that_hold_an_excluded_text() {
    let scan = vec![
        binding(1, "HelperBrowserX", 3000),
        binding(2, "browser", 3001),
        binding(3, "Browser", 3002),
        binding(4, "MyBrowserHelper", 3003),
        binding(5, "Brows", 3004),
    ];
    assert_eq!(
        apply(&scan, &config(0, 65535, &["Browser"])),
        vec![binding(2, "browser", 3001), binding(5, "Brows", 3004)]
    );
}

#[test]
fn apply_excludes_by_any_of_the_excluded_texts() {
    let scan = vec![
        binding(1, "node", 3000),
        binding(2, "ControlCEnter", 3001),
        binding(3, "Browser", 3002),
        binding(4, "python", 3003),
    ];
    assert_eq!(
        apply(&scan, &config(0, 65535, &["Browser", "ControlCE", "py"])),
        vec![binding(1, "node", 3000)]
    );
}

#[test]
fn apply_excludes_everything_by_the_empty_text() {
    let scan = vec![binding(1, "node", 3000), binding(2, "", 3001)];
    assert_eq!(apply(&scan, &config(0, 65535, &[""])), Vec::<PortBinding>::new());
}

#[test]
fn apply_does_not_look_at_the_command() {
    let scan = vec![PortBinding {
        pid: 1,
        name: "node".to_string(),
        port: 3000,
        command: "Browser --helper".to_string(),
    }];
    assert_eq!(apply(&scan, &config(0, 65535, &["Browser"])), scan);
}

#[test]
fn apply_orders_by_port() {
    let scan = vec![
        binding(1, "a", 9000),
        binding(2, "b", 80),
        binding(3, "c", 443),
        binding(4, "d", 8080),
        binding(5, "e", 22),
    ];
    assert_eq!(
        apply(&scan, &config(0, 65535, &[])),
        vec![
            binding(5, "e", 22),
            binding(2, "b", 80),
            binding(3, "c", 443),
            binding(4, "d", 8080),
            binding(1, "a", 9000),
        ]
    );
}

#[test]
fn apply_keeps_the_order_of_the_scan_on_one_port() {
    let scan = vec![
        binding(1, "z", 8080),
        binding(2, "y", 80),
        binding(3, "x", 8080),
        binding(4, "w", 80),
        binding(5, "v", 8080),
    ];
    assert_eq!(
        apply(&scan, &config(0, 65535, &[])),
        vec![
            binding(2, "y", 80),
            binding(4, "w", 80),
            binding(1, "z", 8080),
            binding(3, "x", 8080),
            binding(5, "v", 8080),
        ]
    );
}

#[test]
fn apply_keeps_bindings_that_occur_twice() {
    let scan = vec![binding(1, "a", 80), binding(1, "a", 80), binding(2, "b", 79)];
    assert_eq!(
        apply(&scan, &config(0, 65535, &[])),
        vec![binding(2, "b", 79), binding(1, "a", 80), binding(1, "a", 80)]
    );
}

#[test]
fn apply_of_nothing_is_empty() {
    assert_eq!(apply(&Vec::new(), &Config::default()), Vec::<PortBinding>::new());
}

#[test]
fn apply_under_the_default_config() {
    let scan = vec![
        binding(1, "Browser Helper", 5000),
        binding(2, "node", 3000),
        binding(3, "sshd", 22),
        binding(4, "ControlCE", 7000),
        binding(5, "rapportd", 49152),
        binding(6, "postgres", 5432),
    ];
    assert_eq!(
        apply(&scan, &Config::default()),
        vec![binding(2, "node", 3000), binding(6, "postgres", 5432)]
    );
}

#[test]
fn apply_twice_gives_the_same_list() {
    let scan = vec![
        binding(1, "a", 9000),
        binding(2, "Browser", 80),
        binding(3, "c", 443),
        binding(4, "d", 9000),
    ];
    let conf = config(100, 10000, &["Browser"]);
    let first = apply(&scan, &conf);
    let second = apply(&scan, &conf);
    assert_eq!(first, second);
    assert_eq!(apply(&first, &conf), first);
}

fn random_scan(seed: &mut u64, len: usize) -> Vec<PortBinding> {
    let names = ["node", "Browser", "MyBrowserHelper", "browser", "ControlCE", "sshd", "", "py"];
    let mut scan = Vec::new();
    for i in 0..len {
        *seed = seed.wrapping_mul(6364136223846793005).wrapping_add(1442695040888963407);
        let name = names[((*seed >> 33) % names.len() as u64) as usize];
        let port = ((*seed >> 17) % 12) as u16 * 1000;
        scan.push(binding(i as u32, name, port));
    }
    scan
}

#[test]
fn apply_retains_exactly_what_passes_range_and_exclusion() {
    let excluded_sets: [&[&str]; 5] = [&[], &["Browser"], &["Browser", "ControlCE"], &["o"], &["py", "ssh"]];
    let mut seed: u64 = 99;
    for round in 0..300 {
        let scan = random_scan(&mut seed, round % 17);
        let min_port = ((seed >> 7) % 6) as u16 * 1000;
        let max_port = ((seed >> 11) % 12) as u16 * 1000;
        let conf = config(min_port, max_port, excluded_sets[round % excluded_sets.len()]);
        let shown = apply(&scan, &conf);
        assert_eq!(shown, reference(&scan, &conf));
        for b in &scan {
            let passes = b.port >= conf.min_port
                && b.port <= conf.max_port
                && !conf.filtered_process_names.iter().any(|f| b.name.contains(f.as_str()));
            assert_eq!(shown.contains(b), passes);
        }
        for pair in shown.windows(2) {
            assert!(pair[0].port <= pair[1].port);
        }
        assert_eq!(apply(&scan, &conf), shown);
        assert_eq!(apply(&shown, &conf), shown);
    }
}
