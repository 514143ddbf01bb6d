//! Derives completion candidates from a machine's final state.
use vstd::prelude::*;
use crate::config::{TabryConf, ConfigError, OptionHint, Flag, resolve, flag_token, flag_token_of, flag_named_from};
use crate::machine::Machine;
use crate::machine_state::{StateView, ModeView, lookup, MachineStateMode};
use crate::text::{is_prefix, starts_with};

verus! {

/// A candidate: a literal value, with a description where one is asked for.
pub struct OptionWithDescription {
    pub value: String,
    pub desc: Option<String>,
}

/// What the finder offers: literal candidates, then non-literal hints that
/// hand completion back to the shell (such as `file`).
pub struct OptionsResults {
    pub options: Vec<OptionWithDescription>,
    pub special_options: Vec<String>,
}

/// The view of a candidate.
pub type OptView = (Seq<char>, Option<Seq<char>>);

/// The views of a sequence of candidates.
pub open spec fn opts_view(v: Seq<OptionWithDescription>) -> Seq<OptView> {
    v.map_values(|o: OptionWithDescription| (o.value@, opt_str(o.desc)))
}

/// The view of an optional string.
pub open spec fn opt_str(d: Option<String>) -> Option<Seq<char>> {
    match d {
        Some(s) => Some(s@),
        None => None,
    }
}

/// A description, kept only where descriptions are asked for.
pub open spec fn desc_if(with_desc: bool, d: Option<String>) -> Option<Seq<char>> {
    if with_desc {
        opt_str(d)
    } else {
        None
    }
}

/// The names of the children `subs` that start with `tok`; `None` where a
/// child lies outside the arena.
pub open spec fn sub_options(conf: &TabryConf, subs: Seq<usize>, tok: Seq<char>, with_desc: bool) -> Option<Seq<OptView>>
    decreases subs.len(),
{
    if subs.len() == 0 {
        Some(Seq::empty())
    } else {
        match sub_options(conf, subs.drop_last(), tok, with_desc) {
            None => None,
            Some(prev) => {
                let c = subs.last();
                if c >= conf.nodes@.len() {
                    None
                } else {
                    match conf.nodes@[c as int].name {
                        Some(n) => if is_prefix(tok, n@) {
                            Some(prev.push((n@, desc_if(with_desc, conf.nodes@[c as int].description))))
                        } else {
                            Some(prev)
                        },
                        None => Some(prev),
                    }
                }
            },
        }
    }
}

/// The flags, as written on the command line, that start with `tok` and have
/// no value recorded in `used` yet.
pub open spec fn flag_options(flags: Seq<Flag>, used: Seq<(Seq<char>, Seq<char>)>, tok: Seq<char>, with_desc: bool) -> Seq<OptView>
    decreases flags.len(),
{
    if flags.len() == 0 {
        Seq::empty()
    } else {
        let prev = flag_options(flags.drop_last(), used, tok, with_desc);
        let f = flags.last();
        if lookup(used, f.name@) is None && is_prefix(tok, flag_token(f.name@)) {
            prev.push((flag_token(f.name@), desc_if(with_desc, f.description)))
        } else {
            prev
        }
    }
}

/// The literal hints that start with `tok`.
pub open spec fn const_options(hints: Seq<OptionHint>, tok: Seq<char>) -> Seq<OptView>
    decreases hints.len(),
{
    if hints.len() == 0 {
        Seq::empty()
    } else {
        let prev = const_options(hints.drop_last(), tok);
        match hints.last() {
            OptionHint::Const(v) => if is_prefix(tok, v@) {
                prev.push((v@, None))
            } else {
                prev
            },
            _ => prev,
        }
    }
}

/// The non-literal hints, by name.
pub open spec fn special_options(hints: Seq<OptionHint>) -> Seq<Seq<char>>
    decreases hints.len(),
{
    if hints.len() == 0 {
        Seq::empty()
    } else {
        let prev = special_options(hints.drop_last());
        match hints.last() {
            OptionHint::Const(_) => prev,
            OptionHint::File => prev.push("file"@),
            OptionHint::Dir => prev.push("dir"@),
        }
    }
}

/// The candidates for the state `st` and the last token `tok`: the literal
/// ones, and the special ones.
pub open spec fn options_of(conf: &TabryConf, st: StateView, tok: Seq<char>, with_desc: bool) -> Result<
    (Seq<OptView>, Seq<Seq<char>>),
    ConfigError,
> {
    match resolve(conf, st.stack) {
        Err(e) => Err(e),
        Ok(n) => {
            let node = conf.nodes@[n as int];
            match st.mode {
                ModeView::Flagarg(f) => match flag_named_from(node.flags@, f, 0) {
                    Some(i) => {
                        let hints = node.flags@[i as int].options@;
                        Ok((const_options(hints, tok), special_options(hints)))
                    },
                    None => Ok((Seq::empty(), Seq::empty())),
                },
                ModeView::Subcommand => {
                    let subs = if !st.dashdash && st.args.len() == 0 {
                        sub_options(conf, node.subs@, tok, with_desc)
                    } else {
                        Some(Seq::empty())
                    };
                    let flags = if !st.dashdash {
                        flag_options(node.flags@, st.flag_args, tok, with_desc)
                    } else {
                        Seq::empty()
                    };
                    match subs {
                        None => Err(ConfigError::ConfigInconsistency),
                        Some(s) => Ok(
                            (s + flags + const_options(node.options@, tok), special_options(node.options@)),
                        ),
                    }
                },
            }
        },
    }
}

/// Every candidate starts with `tok`.
pub open spec fn all_prefixed(v: Seq<OptionWithDescription>, tok: Seq<char>) -> bool {
    forall|k: int| 0 <= k < v.len() ==> is_prefix(tok, #[trigger] v[k].value@)
}

/// Computes completion candidates from a finished run.
pub struct OptionsFinder {
    pub result: Machine,
    pub include_descriptions: bool,
}

/// A copy of an optional string.
fn clone_opt(d: &Option<String>) -> (r: Option<String>)
    ensures
        opt_str(r) == opt_str(*d),
{
    match d {
        Some(s) => Some(s.clone()),
        None => None,
    }
}

/// A description, kept only where descriptions are asked for.
fn desc_of(with_desc: bool, d: &Option<String>) -> (r: Option<String>)
    ensures
        opt_str(r) == desc_if(with_desc, *d),
{
    if with_desc {
        clone_opt(d)
    } else {
        None
    }
}

/// The literal hints among `hints` that start with `tok`, and the special ones.
fn hint_options(hints: &Vec<OptionHint>, tok: &str) -> (r: (Vec<OptionWithDescription>, Vec<String>))
    ensures
        opts_view(r.0@) == const_options(hints@, tok@),
        all_prefixed(r.0@, tok@),
        crate::machine_state::strs(r.1@) == special_options(hints@),
{
    let mut out: Vec<OptionWithDescription> = Vec::new();
    let mut special: Vec<String> = Vec::new();
    let mut i: usize = 0;
    assert(hints@.take(0) =~= Seq::<OptionHint>::empty());
    assert(opts_view(out@) =~= Seq::<OptView>::empty());
    assert(crate::machine_state::strs(special@) =~= Seq::<Seq<char>>::empty());
    while i < hints.len()
        invariant
            i <= hints@.len(),
            opts_view(out@) == const_options(hints@.take(i as int), tok@),
            all_prefixed(out@, tok@),
            crate::machine_state::strs(special@) == special_options(hints@.take(i as int)),
        decreases hints.len() - i,
    {
        assert(hints@.take(i + 1).drop_last() =~= hints@.take(i as int));
        assert(hints@.take(i + 1).last() == hints@[i as int]);
        let ghost before = out@;
        let ghost sbefore = special@;
        match &hints[i] {
            OptionHint::Const(v) => {
                if starts_with(v.as_str(), tok) {
                    out.push(OptionWithDescription { value: v.clone(), desc: None });
                    assert(opts_view(out@) =~= opts_view(before).push((v@, None)));
                }
            },
            OptionHint::File => {
                special.push(String::from_str("file"));
                assert(crate::machine_state::strs(special@) =~= crate::machine_state::strs(sbefore).push("file"@));
            },
            OptionHint::Dir => {
                special.push(String::from_str("dir"));
                assert(crate::machine_state::strs(special@) =~= crate::machine_state::strs(sbefore).push("dir"@));
            },
        }
        i = i + 1;
    }
    assert(hints@.take(hints@.len() as int) =~= hints@);
    (out, special)
}

/// The children `subs` whose name starts with `tok`.
fn sub_opts(conf: &TabryConf, subs: &Vec<usize>, tok: &str, with_desc: bool) -> (r: Result<
    Vec<OptionWithDescription>,
    ConfigError,
>)
    ensures
        match sub_options(conf, subs@, tok@, with_desc) {
            Some(v) => r matches Ok(o) && opts_view(o@) == v && all_prefixed(o@, tok@),
            None => r == Err::<Vec<OptionWithDescription>, ConfigError>(ConfigError::ConfigInconsistency),
        },
{
    let mut out: Vec<OptionWithDescription> = Vec::new();
    let mut i: usize = 0;
    assert(subs@.take(0) =~= Seq::<usize>::empty());
    assert(opts_view(out@) =~= Seq::<OptView>::empty());
    while i < subs.len()
        invariant
            i <= subs@.len(),
            sub_options(conf, subs@.take(i as int), tok@, with_desc) == Some(opts_view(out@)),
            all_prefixed(out@, tok@),
        decreases subs.len() - i,
    {
        assert(subs@.take(i + 1).drop_last() =~= subs@.take(i as int));
        assert(subs@.take(i + 1).last() == subs@[i as int]);
        let c = subs[i];
        if c >= conf.nodes.len() {
            proof {
                lemma_sub_options_none_extends(conf, subs@, tok@, with_desc, i + 1);
            }
            return Err(ConfigError::ConfigInconsistency);
        }
        let ghost before = out@;
        match &conf.nodes[c].name {
            Some(n) => {
                if starts_with(n.as_str(), tok) {
                    let d = desc_of(with_desc, &conf.nodes[c].description);
                    out.push(OptionWithDescription { value: n.clone(), desc: d });
                    assert(opts_view(out@) =~= opts_view(before).push(
                        (n@, desc_if(with_desc, conf.nodes@[c as int].description)),
                    ));
                }
            },
            None => {},
        }
        i = i + 1;
    }
    assert(subs@.take(subs@.len() as int) =~= subs@);
    Ok(out)
}

/// Once a prefix of the children has an index outside the arena, so has the whole.
proof fn lemma_sub_options_none_extends(conf: &TabryConf, subs: Seq<usize>, tok: Seq<char>, with_desc: bool, i: int)
    requires
        0 <= i <= subs.len(),
        sub_options(conf, subs.take(i), tok, with_desc) is None,
    ensures
        sub_options(conf, subs, tok, with_desc) is None,
    decreases subs.len(),
{
    if subs.len() == i {
        assert(subs.take(i) =~= subs);
    } else {
        assert(subs.drop_last().take(i) =~= subs.take(i));
        lemma_sub_options_none_extends(conf, subs.drop_last(), tok, with_desc, i);
    }
}

/// The flags that start with `tok` and have no value in `used` yet.
fn flag_opts(flags: &Vec<Flag>, used: &Vec<(String, String)>, tok: &str, with_desc: bool) -> (r: Vec<OptionWithDescription>)
    ensures
        opts_view(r@) == flag_options(flags@, crate::machine_state::str_pairs(used@), tok@, with_desc),
        all_prefixed(r@, tok@),
{
    let ghost u = crate::machine_state::str_pairs(used@);
    let mut out: Vec<OptionWithDescription> = Vec::new();
    let mut i: usize = 0;
    assert(flags@.take(0) =~= Seq::<Flag>::empty());
    assert(opts_view(out@) =~= Seq::<OptView>::empty());
    while i < flags.len()
        invariant
            i <= flags@.len(),
            u == crate::machine_state::str_pairs(used@),
            opts_view(out@) == flag_options(flags@.take(i as int), u, tok@, with_desc),
            all_prefixed(out@, tok@),
        decreases flags.len() - i,
    {
        assert(flags@.take(i + 1).drop_last() =~= flags@.take(i as int));
        assert(flags@.take(i + 1).last() == flags@[i as int]);
        let f = &flags[i];
        let t = flag_token_of(f.name.as_str());
        if !has_value(used, f.name.as_str()) && starts_with(t.as_str(), tok) {
            let ghost before = out@;
            let d = desc_of(with_desc, &f.description);
            out.push(OptionWithDescription { value: t, desc: d });
            assert(opts_view(out@) =~= opts_view(before).push((flag_token(f.name@), desc_if(with_desc, f.description))));
        }
        i = i + 1;
    }
    assert(flags@.take(flags@.len() as int) =~= flags@);
    out
}

/// Whether `used` records a value for `name`.
fn has_value(used: &Vec<(String, String)>, name: &str) -> (r: bool)
    ensures
        r == (lookup(crate::machine_state::str_pairs(used@), name@) is Some),
{
    let ghost u = crate::machine_state::str_pairs(used@);
    let mut i: usize = 0;
    while i < used.len()
        invariant
            i <= used@.len(),
            u == crate::machine_state::str_pairs(used@),
            crate::machine_state::key_index(u, name@, 0) == crate::machine_state::key_index(u, name@, i as int),
        decreases used.len() - i,
    {
        assert(u[i as int].0 == used@[i as int].0@);
        if crate::text::str_eq(used[i].0.as_str(), name) {
            return true;
        }
        i = i + 1;
    }
    false
}

impl OptionsFinder {
    /// A finder over the final state of `result`.
    pub fn new(result: Machine, include_descriptions: bool) -> (r: OptionsFinder)
        ensures
            r.result == result,
            r.include_descriptions == include_descriptions,
    {
        OptionsFinder { result, include_descriptions }
    }

    /// The candidates for the last token `token` (see `options_of`). Every
    /// literal candidate starts with `token`.
    pub fn options(&self, token: &str) -> (r: Result<OptionsResults, ConfigError>)
        ensures
            match options_of(&self.result.config, self.result.state@, token@, self.include_descriptions) {
                Ok((o, sp)) => r matches Ok(res) && opts_view(res.options@) == o
                    && crate::machine_state::strs(res.special_options@) == sp,
                Err(e) => r == Err::<OptionsResults, ConfigError>(e),
            },
            r matches Ok(res) ==> all_prefixed(res.options@, token@),
    {
        let conf = &self.result.config;
        let st = &self.result.state;
        let with_desc = self.include_descriptions;
        let n = match conf.dig_sub(&st.subcommand_stack) {
            Ok(n) => n,
            Err(e) => return Err(e),
        };
        let node = &conf.nodes[n];
        match &st.mode {
            MachineStateMode::Flagarg { current_flag } => {
                match conf.flag_named(n, current_flag.as_str()) {
                    Some(i) => {
                        let (options, special_options) = hint_options(&node.flags[i].options, token);
                        Ok(OptionsResults { options, special_options })
                    },
                    None => {
                        let r = OptionsResults { options: Vec::new(), special_options: Vec::new() };
                        assert(opts_view(r.options@) =~= Seq::<OptView>::empty());
                        assert(crate::machine_state::strs(r.special_options@) =~= Seq::<Seq<char>>::empty());
                        Ok(r)
                    },
                }
            },
            MachineStateMode::Subcommand => {
                let mut options = if !st.dashdash && st.args.len() == 0 {
                    match sub_opts(conf, &node.subs, token, with_desc) {
                        Ok(o) => o,
                        Err(e) => return Err(e),
                    }
                } else {
                    Vec::new()
                };
                let mut flags = if !st.dashdash {
                    flag_opts(&node.flags, &st.flag_args, token, with_desc)
                } else {
                    Vec::new()
                };
                let (mut consts, special_options) = hint_options(&node.options, token);
                let ghost o1 = options@;
                let ghost o2 = flags@;
                let ghost o3 = consts@;
                options.append(&mut flags);
                options.append(&mut consts);
                assert(options@ == o1 + o2 + o3);
                assert(opts_view(options@) =~= opts_view(o1) + opts_view(o2) + opts_view(o3));
                assert(all_prefixed(options@, token@)) by {
                    assert forall|k: int| 0 <= k < options@.len() implies is_prefix(token@, #[trigger] options@[k].value@) by {
                        if k < o1.len() {
                            assert(options@[k] == o1[k]);
                        } else if k < o1.len() + o2.len() {
                            assert(options@[k] == o2[k - o1.len()]);
                        } else {
                            assert(options@[k] == o3[k - o1.len() - o2.len()]);
                        }
                    }
                }
                Ok(OptionsResults { options, special_options })
            },
        }
    }
}

} // verus!
