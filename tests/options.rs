use tabry::config::{Flag, OptionHint, Sub, TabryConf};
use tabry::machine::Machine;
use tabry::options_finder::{OptionsFinder, OptionsResults};
use tabry::output::{escape, format_options};

fn s(x: &str) -> String {
    x.to_string()
}

fn sub(name: Option<&str>, subs: Vec<usize>, flags: Vec<Flag>, options: Vec<OptionHint>) -> Sub {
    Sub { name: name.map(s), description: name.map(|n| format!("{n} it")), subs, flags, options }
}

fn conf() -> TabryConf {
    TabryConf {
        nodes: vec![
            sub(None, vec![1, 2], vec![], vec![]),
            sub(
                Some("start"),
                vec![3],
                vec![
                    Flag { name: s("speed"), description: Some(s("how fast")), arg: true, options: vec![OptionHint::Const(s("fast")), OptionHint::Const(s("slow")), OptionHint::File] },
                    Flag { name: s("v"), description: None, arg: false, options: vec![] },
                ],
                vec![OptionHint::Const(s("service")), OptionHint::Const(s("socket")), OptionHint::Dir],
            ),
            sub(Some("stop"), vec![], vec![], vec![]),
            sub(Some("soon"), vec![], vec![], vec![]),
        ],
    }
}

fn options_for(tokens: &[&str], last: &str, descs: bool) -> OptionsResults {
    let toks: Vec<String> = tokens.iter().map(|t| s(t)).collect();
    let m = Machine::run(conf(), &toks).unwrap();
    OptionsFinder::new(m, descs).options(last).unwrap()
}

fn values(r: &OptionsResults) -> Vec<String> {
    r.options.iter().map(|o| o.value.clone()).collect()
}

#[test]
fn scenario_start_lists_its_node() {
    let conf = TabryConf {
        nodes: vec![sub(None, vec![1, 2], vec![], vec![]), sub(Some("start"), vec![], vec![], vec![]), sub(Some("stop"), vec![], vec![], vec![])],
    };
    let m = Machine::run(conf, &vec![s("start")]).unwrap();
    let r = OptionsFinder::new(m, false).options("").unwrap();
    assert!(r.options.is_empty());
    assert!(r.special_options.is_empty());
}

#[test]
fn root_offers_subcommands() {
    let r = options_for(&[], "", false);
    assert_eq!(values(&r), vec![s("start"), s("stop")]);
    assert!(r.options.iter().all(|o| o.desc.is_none()));
    let r = options_for(&[], "sto", true);
    assert_eq!(values(&r), vec![s("stop")]);
    assert_eq!(r.options[0].desc, Some(s("stop it")));
}

#[test]
fn node_offers_subs_flags_and_hints_in_order() {
    let r = options_for(&["start"], "", true);
    assert_eq!(values(&r), vec![s("soon"), s("--speed"), s("-v"), s("service"), s("socket")]);
    assert_eq!(r.options[1].desc, Some(s("how fast")));
    assert_eq!(r.options[2].desc, None);
    assert_eq!(r.special_options, vec![s("dir")]);
}

#[test]
fn prefix_filter_is_exact_and_case_sensitive() {
    let r = options_for(&["start"], "s", false);
    assert_eq!(values(&r), vec![s("soon"), s("service"), s("socket")]);
    for o in &r.options {
        assert!(o.value.starts_with("s"));
    }
    let r = options_for(&["start"], "S", false);
    assert!(r.options.is_empty());
    let r = options_for(&["start"], "--", false);
    assert_eq!(values(&r), vec![s("--speed")]);
    let r = options_for(&["start"], "oo", false);
    assert!(r.options.is_empty());
    assert_eq!(r.special_options, vec![s("dir")]);
}

#[test]
fn flag_value_offers_flag_hints() {
    let r = options_for(&["start", "--speed"], "", false);
    assert_eq!(values(&r), vec![s("fast"), s("slow")]);
    assert_eq!(r.special_options, vec![s("file")]);
    let r = options_for(&["start", "--speed"], "f", false);
    assert_eq!(values(&r), vec![s("fast")]);
}

#[test]
fn used_flags_and_locked_subs_are_not_offered() {
    let r = options_for(&["start", "--speed", "fast"], "", false);
    assert_eq!(values(&r), vec![s("soon"), s("-v"), s("service"), s("socket")]);
    let r = options_for(&["start", "x"], "", false);
    assert_eq!(values(&r), vec![s("--speed"), s("-v"), s("service"), s("socket")]);
    let r = options_for(&["start", "--"], "", false);
    assert_eq!(values(&r), vec![s("service"), s("socket")]);
}

#[test]
fn lines_with_descriptions_and_specials() {
    let r = options_for(&["start"], "so", true);
    let lines = format_options(&r);
    assert_eq!(lines, vec![s("soon\tsoon it"), s("socket"), s(""), s("dir")]);
}

#[test]
fn lines_without_options_get_extra_blank() {
    let r = options_for(&["start"], "zz", false);
    assert_eq!(format_options(&r), vec![s(""), s(""), s("dir")]);
    let r = options_for(&[], "", false);
    assert_eq!(format_options(&r), vec![s("start"), s("stop")]);
}

#[test]
fn escape_quotes_for_shell() {
    assert_eq!(escape("abc"), "'abc'");
    assert_eq!(escape(""), "''");
    assert_eq!(escape("it's"), "'it'\"'\"'s'");
    assert_eq!(escape("/usr/bin/tab ry"), "'/usr/bin/tab ry'");
}
