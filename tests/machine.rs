use tabry::config::{ConfigError, Flag, OptionHint, Sub, TabryConf};
use tabry::machine::Machine;
use tabry::machine_state::MachineStateMode;

fn s(x: &str) -> String {
    x.to_string()
}

fn sub(name: Option<&str>, subs: Vec<usize>, flags: Vec<Flag>, options: Vec<OptionHint>) -> Sub {
    Sub {
        name: name.map(s),
        description: name.map(|n| format!("the {n} command")),
        subs,
        flags,
        options,
    }
}

fn flag(name: &str, arg: bool) -> Flag {
    Flag { name: s(name), description: Some(format!("flag {name}")), arg, options: vec![] }
}

/// root: start, stop
fn start_stop() -> TabryConf {
    TabryConf {
        nodes: vec![
            sub(None, vec![1, 2], vec![], vec![]),
            sub(Some("start"), vec![], vec![], vec![]),
            sub(Some("stop"), vec![], vec![], vec![]),
        ],
    }
}

/// root: list-vehicle-types, move (go, crash), build; flags on root and move.
fn vehicles() -> TabryConf {
    TabryConf {
        nodes: vec![
            sub(None, vec![1, 2, 5], vec![flag("verbose", false), flag("v", false)], vec![]),
            sub(Some("list-vehicle-types"), vec![], vec![], vec![]),
            sub(
                Some("move"),
                vec![3, 4],
                vec![flag("speed", true), flag("dry-run", false)],
                vec![OptionHint::Const(s("car")), OptionHint::Const(s("bike"))],
            ),
            sub(Some("go"), vec![], vec![flag("speed", true)], vec![OptionHint::File]),
            sub(Some("crash"), vec![], vec![], vec![]),
            sub(Some("build"), vec![], vec![], vec![OptionHint::Dir]),
        ],
    }
}

fn run(conf: TabryConf, tokens: &[&str]) -> Machine {
    let toks: Vec<String> = tokens.iter().map(|t| s(t)).collect();
    match Machine::run(conf, &toks) {
        Ok(m) => m,
        Err(e) => panic!("machine failed: {e:?}"),
    }
}

fn strs(v: &[&str]) -> Vec<String> {
    v.iter().map(|x| s(x)).collect()
}

#[test]
fn test_all_expectations() {
    // (tokens, subcommand_stack, args, flag_args, dashdash, help)
    let cases: Vec<(Vec<&str>, Vec<&str>, Vec<&str>, Vec<(&str, &str)>, bool, bool)> = vec![
        (vec![], vec![], vec![], vec![], false, false),
        (vec!["move"], vec!["move"], vec![], vec![], false, false),
        (vec!["move", "go"], vec!["move", "go"], vec![], vec![], false, false),
        (vec!["move", "car", "go"], vec!["move"], vec!["car", "go"], vec![], false, false),
        (vec!["move", "--speed", "10", "go"], vec!["move", "go"], vec![], vec![("speed", "10")], false, false),
        (vec!["move", "--dry-run", "crash"], vec!["move", "crash"], vec![], vec![], false, false),
        (vec!["--verbose", "-v", "build"], vec!["build"], vec![], vec![], false, false),
        (vec!["build", "--", "--verbose"], vec!["build"], vec!["--verbose"], vec![], true, false),
        (vec!["help", "move"], vec!["move"], vec![], vec![], false, true),
        (vec!["nothing", "move", "--help"], vec![], vec!["nothing", "move"], vec![], false, true),
        (vec!["move", "--speed", "1", "--speed", "2"], vec!["move"], vec![], vec![("speed", "2")], false, false),
    ];
    for (tokens, stack, args, flag_args, dashdash, help) in cases {
        let m = run(vehicles(), &tokens);
        assert_eq!(m.state.subcommand_stack, strs(&stack), "stack for {tokens:?}");
        assert_eq!(m.state.args, strs(&args), "args for {tokens:?}");
        let fa: Vec<(String, String)> = flag_args.iter().map(|(k, v)| (s(k), s(v))).collect();
        assert_eq!(m.state.flag_args, fa, "flag args for {tokens:?}");
        assert_eq!(m.state.dashdash, dashdash, "dashdash for {tokens:?}");
        assert_eq!(m.state.help, help, "help for {tokens:?}");
        assert!(matches!(m.state.mode, MachineStateMode::Subcommand));
    }
}

#[test]
fn new_machine_starts_empty() {
    let m = Machine::new(start_stop());
    assert!(m.state.subcommand_stack.is_empty());
    assert!(m.state.args.is_empty());
    assert!(m.state.flag_args.is_empty());
    assert!(!m.state.dashdash);
    assert!(!m.state.help);
    assert!(matches!(m.state.mode, MachineStateMode::Subcommand));
}

#[test]
fn scenario_subcommand_descends() {
    let m = run(start_stop(), &["start"]);
    assert_eq!(m.state.subcommand_stack, strs(&["start"]));
    assert!(m.state.args.is_empty());
}

#[test]
fn scenario_unknown_then_subcommand_is_argument() {
    let m = run(start_stop(), &["unknown-thing"]);
    assert_eq!(m.state.args, strs(&["unknown-thing"]));
    assert!(m.state.subcommand_stack.is_empty());
    let m = run(start_stop(), &["unknown-thing", "start"]);
    assert_eq!(m.state.args, strs(&["unknown-thing", "start"]));
    assert!(m.state.subcommand_stack.is_empty());
}

#[test]
fn scenario_dashdash_then_subcommand() {
    let m = run(start_stop(), &["--", "start"]);
    assert!(m.state.dashdash);
    assert_eq!(m.state.args, strs(&["start"]));
    assert!(m.state.subcommand_stack.is_empty());
}

#[test]
fn scenario_help_tokens() {
    for t in ["help", "--help", "-?"] {
        let m = run(start_stop(), &[t]);
        assert!(m.state.help, "{t}");
        assert!(m.state.args.is_empty());
    }
}

#[test]
fn dashdash_keeps_everything_literal() {
    let m = run(vehicles(), &["--", "move", "--verbose", "--", "help", "-v"]);
    assert!(m.state.dashdash);
    assert!(!m.state.help);
    assert_eq!(m.state.args, strs(&["move", "--verbose", "--", "help", "-v"]));
    assert!(m.state.subcommand_stack.is_empty());
}

#[test]
fn flag_value_is_captured_verbatim() {
    for v in ["go", "--speed", "--", "help", "--dry-run"] {
        let mut m = Machine::new(vehicles());
        m.next(&s("move")).unwrap();
        m.next(&s("--speed")).unwrap();
        assert!(matches!(&m.state.mode, MachineStateMode::Flagarg { current_flag } if current_flag == "speed"));
        m.next(&s(v)).unwrap();
        assert_eq!(m.state.flag_args, vec![(s("speed"), s(v))]);
        assert_eq!(m.state.subcommand_stack, strs(&["move"]));
        assert!(m.state.args.is_empty());
        assert!(!m.state.dashdash);
        assert!(!m.state.help);
        assert!(matches!(m.state.mode, MachineStateMode::Subcommand));
    }
}

#[test]
fn argument_locks_out_subcommands() {
    let m = run(vehicles(), &["move", "bike", "go", "crash"]);
    assert_eq!(m.state.subcommand_stack, strs(&["move"]));
    assert_eq!(m.state.args, strs(&["bike", "go", "crash"]));
}

#[test]
fn flags_of_other_nodes_are_arguments() {
    let m = run(vehicles(), &["--speed", "3"]);
    assert_eq!(m.state.args, strs(&["--speed", "3"]));
    assert!(m.state.flag_args.is_empty());
}

#[test]
fn inconsistent_config_fails() {
    let conf = TabryConf { nodes: vec![sub(None, vec![7], vec![], vec![])] };
    let toks = strs(&["x"]);
    assert_eq!(Machine::run(conf, &toks).err(), Some(ConfigError::ConfigInconsistency));
    let conf = TabryConf { nodes: vec![] };
    assert_eq!(Machine::run(conf, &toks).err(), Some(ConfigError::ConfigInconsistency));
}

#[test]
fn failed_step_leaves_state() {
    let mut m = Machine::new(TabryConf { nodes: vec![sub(None, vec![3], vec![], vec![])] });
    assert_eq!(m.next(&s("a")), Err(ConfigError::ConfigInconsistency));
    assert!(m.state.args.is_empty());
}
