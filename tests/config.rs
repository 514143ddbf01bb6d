use tabry::config::{flag_token_of, ConfigError, Sub, TabryConf};

fn node(name: Option<&str>, subs: Vec<usize>) -> Sub {
    Sub { name: name.map(|n| n.to_string()), description: None, subs, flags: vec![], options: vec![] }
}

fn conf() -> TabryConf {
    TabryConf {
        nodes: vec![
            node(None, vec![1, 2, 3]),
            node(Some("start"), vec![4]),
            node(Some("stop"), vec![]),
            node(Some("status"), vec![]),
            node(Some("now"), vec![]),
        ],
    }
}

#[test]
fn exact_match_finds_child() {
    let c = conf();
    assert_eq!(c.find_in_subs(&c.nodes[0].subs, "stop", true), Ok(Some(2)));
    assert_eq!(c.find_in_subs(&c.nodes[0].subs, "sto", true), Ok(None));
}

#[test]
fn prefix_match_needs_one_candidate() {
    let c = conf();
    assert_eq!(c.find_in_subs(&c.nodes[0].subs, "sto", false), Ok(Some(2)));
    assert_eq!(c.find_in_subs(&c.nodes[0].subs, "st", false), Ok(None));
    assert_eq!(c.find_in_subs(&c.nodes[0].subs, "stat", false), Ok(Some(3)));
    assert_eq!(c.find_in_subs(&c.nodes[0].subs, "x", false), Ok(None));
}

#[test]
fn dig_sub_walks_path() {
    let c = conf();
    assert_eq!(c.dig_sub(&vec![]), Ok(0));
    assert_eq!(c.dig_sub(&vec!["start".to_string(), "now".to_string()]), Ok(4));
    assert_eq!(c.dig_sub(&vec!["stop".to_string(), "now".to_string()]), Err(ConfigError::PathNotFound));
    let bad = TabryConf { nodes: vec![node(None, vec![9])] };
    assert_eq!(bad.dig_sub(&vec!["a".to_string()]), Err(ConfigError::ConfigInconsistency));
}

#[test]
fn flag_tokens() {
    assert_eq!(flag_token_of("v"), "-v");
    assert_eq!(flag_token_of("verbose"), "--verbose");
}
