use game_debug::cli::{usage, with_usage, CliArgs, CliScan, CliStep};

fn argv(args: &[&str]) -> Vec<String> {
    args.iter().map(|s| s.to_string()).collect()
}

/// Drive the scan to its end; capture presets/sizes are collected raw.
fn scan(args: &[&str]) -> Result<(CliArgs, Vec<String>, Vec<String>), String> {
    let argv = argv(args);
    let mut scan = CliScan::new();
    let mut views = Vec::new();
    let mut sizes = Vec::new();
    loop {
        match scan.step(&argv) {
            CliStep::Done => break,
            CliStep::Handled => {}
            CliStep::View(v) => views.push(v),
            CliStep::Size(v) => sizes.push(v),
            CliStep::Fail(message) => return Err(message),
        }
    }
    scan.finish().map(|args| (args, views, sizes))
}

#[test]
fn cli_seed_parsing() {
    // Bare + headless.
    let (args, _, _) = scan(&["game_debug"]).expect("bare must parse");
    assert!(!args.headless && args.seed.is_none());
    let (args, _, _) = scan(&["game_debug", "--headless"]).expect("flag must parse");
    assert!(args.headless && args.seed.is_none());
    // Seed forms.
    let (args, _, _) = scan(&["game_debug", "--seed", "42"]).expect("seed must parse");
    assert_eq!(args.seed, Some(42));
    let (args, _, _) =
        scan(&["game_debug", "--headless", "--seed", "7"]).expect("combined must parse");
    assert!(args.headless && args.seed == Some(7));
    // Failures carry usage.
    for bad in [
        vec!["game_debug", "--seed"],
        vec!["game_debug", "--seed", "abc"],
        vec!["game_debug", "--seed", "-1"],
        vec!["game_debug", "--nope"],
    ] {
        let err = scan(&bad).expect_err("must reject");
        assert!(err.contains("usage:"), "error lacks usage: {err}");
    }
}

#[test]
fn cli_messages_quote_offending_values() {
    assert_eq!(
        scan(&["game_debug", "--seed", "abc"]).err().unwrap(),
        format!("--seed needs a u64 seed, got \"abc\"\n{}", usage())
    );
    assert_eq!(
        scan(&["game_debug", "--nope"]).err().unwrap(),
        format!("unknown argument \"--nope\"\n{}", usage())
    );
    assert_eq!(
        scan(&["game_debug", "--seed"]).err().unwrap(),
        format!("--seed needs a value\n{}", usage())
    );
    assert_eq!(scan(&["game_debug", "-h"]).err().unwrap(), usage());
    assert_eq!(scan(&["game_debug", "--help", "--seed", "1"]).err().unwrap(), usage());
    assert_eq!(
        scan(&["game_debug", "--seed", "18446744073709551616"]).err().unwrap(),
        format!("--seed needs a u64 seed, got \"18446744073709551616\"\n{}", usage())
    );
}

#[test]
fn cli_capture_flags_are_collected() {
    let (args, views, sizes) = scan(&[
        "game_debug", "--capture", "shots/a.png", "--seed", "1337", "--view", "slab", "--size",
        "800x600",
    ])
    .expect("capture must parse");
    assert_eq!(args.capture_path.as_deref(), Some("shots/a.png"));
    assert_eq!(args.seed, Some(1337));
    assert_eq!(views, vec!["slab".to_string()]);
    assert_eq!(sizes, vec!["800x600".to_string()]);
    assert_eq!(
        scan(&["game_debug", "--capture"]).err().unwrap(),
        format!("--capture needs a path\n{}", usage())
    );
    assert_eq!(
        scan(&["game_debug", "--view"]).err().unwrap(),
        format!("--view needs a preset\n{}", usage())
    );
    assert_eq!(
        scan(&["game_debug", "--size"]).err().unwrap(),
        format!("--size needs a WxH value\n{}", usage())
    );
}

#[test]
fn cli_capture_conflicts_with_headless() {
    let err = scan(&["game_debug", "--capture", "b.png", "--headless"]).err().unwrap();
    assert_eq!(err, format!("--capture needs a GPU; --headless is GPU-free\n{}", usage()));
    let err = scan(&["game_debug", "--headless", "--capture", "a.png"]).err().unwrap();
    assert_eq!(err, format!("--capture needs a GPU; --headless is GPU-free\n{}", usage()));
    assert!(scan(&["game_debug", "--headless", "--seed", "3"]).is_ok());
}

#[test]
fn cli_rejected_value_message() {
    assert_eq!(with_usage("bad size"), format!("bad size\n{}", usage()));
    assert!(usage().starts_with("usage:"));
}
