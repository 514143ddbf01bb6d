//! The completion state machine: one transition per token, rules tried in a
//! fixed order, the first that matches wins.
use vstd::prelude::*;
use crate::config::{TabryConf, ConfigError, resolve, find_exact_from, find_flag_from, lemma_find_exact_in_range};
use crate::machine_state::{MachineState, MachineStateMode, StateView, ModeView, upsert, initial, strs, lookup, lemma_upsert_lookup};
use crate::text::str_eq;

verus! {

/// Whether a token asks for help.
pub open spec fn is_help_token(tok: Seq<char>) -> bool {
    tok == "help"@ || tok == "--help"@ || tok == "-?"@
}

/// Subcommand rule: while no argument has been taken, a token that names a
/// child of the current node descends into it.
pub open spec fn rule_subcommand(conf: &TabryConf, st: StateView, tok: Seq<char>) -> Result<Option<StateView>, ConfigError> {
    if st.args.len() != 0 {
        Ok(None)
    } else {
        match resolve(conf, st.stack) {
            Err(e) => Err(e),
            Ok(n) => match find_exact_from(conf, conf.nodes@[n as int].subs@, tok, 0) {
                Err(e) => Err(e),
                Ok(Some(_)) => Ok(Some(StateView { stack: st.stack.push(tok), ..st })),
                Ok(None) => Ok(None),
            },
        }
    }
}

/// Dashdash rule: the first `--` switches every later token to an argument.
pub open spec fn rule_dashdash(st: StateView, tok: Seq<char>) -> Option<StateView> {
    if !st.dashdash && tok == "--"@ {
        Some(StateView { dashdash: true, ..st })
    } else {
        None
    }
}

/// Flag rule: a token that writes a flag of the current node is consumed; a
/// flag that takes a value makes the next token its value.
pub open spec fn rule_flag(conf: &TabryConf, st: StateView, tok: Seq<char>) -> Result<Option<StateView>, ConfigError> {
    if st.dashdash {
        Ok(None)
    } else {
        match resolve(conf, st.stack) {
            Err(e) => Err(e),
            Ok(n) => match find_flag_from(conf.nodes@[n as int].flags@, tok, 0) {
                Some(i) => {
                    let flag = conf.nodes@[n as int].flags@[i as int];
                    if flag.arg {
                        Ok(Some(StateView { mode: ModeView::Flagarg(flag.name@), ..st }))
                    } else {
                        Ok(Some(st))
                    }
                },
                None => Ok(None),
            },
        }
    }
}

/// Help rule.
pub open spec fn rule_help(st: StateView, tok: Seq<char>) -> Option<StateView> {
    if is_help_token(tok) {
        Some(StateView { help: true, ..st })
    } else {
        None
    }
}

/// Fallback: the token is a positional argument.
pub open spec fn rule_arg(st: StateView, tok: Seq<char>) -> StateView {
    StateView { args: st.args.push(tok), ..st }
}

/// A transition in `Subcommand` mode.
pub open spec fn step_subcommand(conf: &TabryConf, st: StateView, tok: Seq<char>) -> Result<StateView, ConfigError> {
    if st.dashdash {
        Ok(rule_arg(st, tok))
    } else {
        match rule_subcommand(conf, st, tok) {
            Err(e) => Err(e),
            Ok(Some(s)) => Ok(s),
            Ok(None) => match rule_dashdash(st, tok) {
                Some(s) => Ok(s),
                None => match rule_flag(conf, st, tok) {
                    Err(e) => Err(e),
                    Ok(Some(s)) => Ok(s),
                    Ok(None) => match rule_help(st, tok) {
                        Some(s) => Ok(s),
                        None => Ok(rule_arg(st, tok)),
                    },
                },
            },
        }
    }
}

/// One transition of the machine on token `tok`.
pub open spec fn step(conf: &TabryConf, st: StateView, tok: Seq<char>) -> Result<StateView, ConfigError> {
    match st.mode {
        ModeView::Flagarg(f) => Ok(StateView { mode: ModeView::Subcommand, flag_args: upsert(st.flag_args, f, tok), ..st }),
        ModeView::Subcommand => step_subcommand(conf, st, tok),
    }
}

/// The machine's state after the tokens `toks`, from state `st`.
pub open spec fn run_from(conf: &TabryConf, st: StateView, toks: Seq<Seq<char>>) -> Result<StateView, ConfigError>
    decreases toks.len(),
{
    if toks.len() == 0 {
        Ok(st)
    } else {
        match run_from(conf, st, toks.drop_last()) {
            Ok(s) => step(conf, s, toks.last()),
            Err(e) => Err(e),
        }
    }
}

/// Consumes tokens against a configuration tree.
pub struct Machine {
    pub config: TabryConf,
    pub state: MachineState,
}

impl Machine {
    /// A machine at the start of a run over `conf`.
    pub fn new(conf: TabryConf) -> (r: Machine)
        ensures
            r.config == conf,
            r.state@ == initial(),
    {
        Machine { config: conf, state: MachineState::new() }
    }

    /// Runs a fresh machine over `tokens`; fails where the configuration cannot
    /// be navigated.
    pub fn run(conf: TabryConf, tokens: &Vec<String>) -> (r: Result<Machine, ConfigError>)
        ensures
            match run_from(&conf, initial(), strs(tokens@)) {
                Ok(s) => r matches Ok(m) && m.state@ == s && m.config == conf,
                Err(e) => r == Err::<Machine, ConfigError>(e),
            },
    {
        let ghost c = conf;
        let mut machine = Machine::new(conf);
        let mut i: usize = 0;
        assert(strs(tokens@).take(0) =~= Seq::<Seq<char>>::empty());
        while i < tokens.len()
            invariant
                i <= tokens@.len(),
                machine.config == c,
                c == conf,
                run_from(&c, initial(), strs(tokens@).take(i as int)) == Ok::<StateView, ConfigError>(machine.state@),
            decreases tokens.len() - i,
        {
            let ghost toks = strs(tokens@);
            assert(toks.take(i + 1).drop_last() =~= toks.take(i as int));
            assert(toks.take(i + 1).last() == tokens@[i as int]@);
            let ghost prev = machine.state@;
            match machine.next(&tokens[i]) {
                Ok(()) => {},
                Err(e) => {
                    assert(run_from(&c, initial(), toks.take(i + 1)) == step(&c, prev, tokens@[i as int]@));
                    proof {
                        lemma_run_err_extends(&c, initial(), toks, i + 1);
                    }
                    assert(step(&c, prev, tokens@[i as int]@) == Err::<StateView, ConfigError>(e));
                    assert(run_from(&c, initial(), toks) == Err::<StateView, ConfigError>(e));
                    return Err(e);
                },
            }
            i = i + 1;
        }
        assert(strs(tokens@).take(tokens@.len() as int) =~= strs(tokens@));
        Ok(machine)
    }

    /// Takes one token. On failure the state is left as it was.
    pub fn next(&mut self, token: &String) -> (r: Result<(), ConfigError>)
        ensures
            final(self).config == old(self).config,
            match step(&old(self).config, old(self).state@, token@) {
                Ok(s) => r is Ok && final(self).state@ == s,
                Err(e) => r == Err::<(), ConfigError>(e) && final(self).state@ == old(self).state@,
            },
    {
        match self.state.mode {
            MachineStateMode::Subcommand => self.match_mode_subcommand(token),
            MachineStateMode::Flagarg { .. } => {
                self.match_mode_flagarg(token);
                Ok(())
            },
        }
    }

    fn match_mode_subcommand(&mut self, token: &String) -> (r: Result<(), ConfigError>)
        requires
            old(self).state@.mode == ModeView::Subcommand,
        ensures
            final(self).config == old(self).config,
            match step_subcommand(&old(self).config, old(self).state@, token@) {
                Ok(s) => r is Ok && final(self).state@ == s,
                Err(e) => r == Err::<(), ConfigError>(e) && final(self).state@ == old(self).state@,
            },
    {
        if self.state.dashdash {
            self.match_arg(token);
            return Ok(());
        }
        match self.match_subcommand(token) {
            Err(e) => return Err(e),
            Ok(true) => return Ok(()),
            Ok(false) => {},
        }
        if self.match_dashdash(token) {
            return Ok(());
        }
        match self.match_flag(token) {
            Err(e) => return Err(e),
            Ok(true) => return Ok(()),
            Ok(false) => {},
        }
        if self.match_help(token) {
            return Ok(());
        }
        self.match_arg(token);
        Ok(())
    }

    fn match_subcommand(&mut self, token: &String) -> (r: Result<bool, ConfigError>)
        ensures
            final(self).config == old(self).config,
            match rule_subcommand(&old(self).config, old(self).state@, token@) {
                Ok(Some(s)) => r == Ok::<bool, ConfigError>(true) && final(self).state@ == s,
                Ok(None) => r == Ok::<bool, ConfigError>(false) && final(self).state@ == old(self).state@,
                Err(e) => r == Err::<bool, ConfigError>(e) && final(self).state@ == old(self).state@,
            },
    {
        if !self.state.args.is_empty() {
            return Ok(false);
        }
        let sub_here = match self.config.dig_sub(&self.state.subcommand_stack) {
            Ok(n) => n,
            Err(e) => return Err(e),
        };
        match self.config.find_in_subs(&self.config.nodes[sub_here].subs, token.as_str(), true) {
            Err(e) => Err(e),
            Ok(None) => Ok(false),
            Ok(Some(c)) => {
                proof {
                    lemma_find_exact_in_range(&self.config, self.config.nodes@[sub_here as int].subs@, token@, 0);
                }
                let name = token.clone();
                let ghost before = self.state.subcommand_stack@;
                self.state.subcommand_stack.push(name);
                assert(strs(self.state.subcommand_stack@) =~= strs(before).push(token@));
                Ok(true)
            },
        }
    }

    fn match_dashdash(&mut self, token: &String) -> (r: bool)
        ensures
            final(self).config == old(self).config,
            match rule_dashdash(old(self).state@, token@) {
                Some(s) => r && final(self).state@ == s,
                None => !r && final(self).state@ == old(self).state@,
            },
    {
        if !self.state.dashdash && str_eq(token.as_str(), "--") {
            self.state.dashdash = true;
            true
        } else {
            false
        }
    }

    fn match_flag(&mut self, token: &String) -> (r: Result<bool, ConfigError>)
        ensures
            final(self).config == old(self).config,
            match rule_flag(&old(self).config, old(self).state@, token@) {
                Ok(Some(s)) => r == Ok::<bool, ConfigError>(true) && final(self).state@ == s,
                Ok(None) => r == Ok::<bool, ConfigError>(false) && final(self).state@ == old(self).state@,
                Err(e) => r == Err::<bool, ConfigError>(e) && final(self).state@ == old(self).state@,
            },
    {
        if self.state.dashdash {
            return Ok(false);
        }
        let node = match self.config.dig_sub(&self.state.subcommand_stack) {
            Ok(n) => n,
            Err(e) => return Err(e),
        };
        match self.config.find_flag(node, token.as_str()) {
            None => Ok(false),
            Some(i) => {
                let flag = &self.config.nodes[node].flags[i];
                if flag.arg {
                    self.state.mode = MachineStateMode::Flagarg { current_flag: flag.name.clone() };
                }
                Ok(true)
            },
        }
    }

    fn match_help(&mut self, token: &String) -> (r: bool)
        ensures
            final(self).config == old(self).config,
            match rule_help(old(self).state@, token@) {
                Some(s) => r && final(self).state@ == s,
                None => !r && final(self).state@ == old(self).state@,
            },
    {
        let t = token.as_str();
        if str_eq(t, "help") || str_eq(t, "--help") || str_eq(t, "-?") {
            self.state.help = true;
            true
        } else {
            false
        }
    }

    fn match_arg(&mut self, token: &String)
        ensures
            final(self).config == old(self).config,
            final(self).state@ == rule_arg(old(self).state@, token@),
    {
        let ghost before = self.state.args@;
        self.state.args.push(token.clone());
        assert(strs(self.state.args@) =~= strs(before).push(token@));
    }

    fn match_mode_flagarg(&mut self, token: &String)
        requires
            old(self).state@.mode is Flagarg,
        ensures
            final(self).config == old(self).config,
            final(self).state@ == step(&old(self).config, old(self).state@, token@).unwrap(),
    {
        let flag = match &self.state.mode {
            MachineStateMode::Flagarg { current_flag } => current_flag.clone(),
            MachineStateMode::Subcommand => String::new(),
        };
        self.state.mode = MachineStateMode::Subcommand;
        self.state.set_flag_arg(flag, token.clone());
    }
}

/// Once a run fails on some prefix of the tokens, it fails the same way on all of them.
pub proof fn lemma_run_err_extends(conf: &TabryConf, st: StateView, toks: Seq<Seq<char>>, i: int)
    requires
        0 <= i <= toks.len(),
        run_from(conf, st, toks.take(i)) is Err,
    ensures
        run_from(conf, st, toks) == run_from(conf, st, toks.take(i)),
    decreases toks.len(),
{
    if toks.len() == i {
        assert(toks.take(i) =~= toks);
    } else {
        assert(toks.drop_last().take(i) =~= toks.take(i));
        lemma_run_err_extends(conf, st, toks.drop_last(), i);
    }
}

/// Running over `a + b` is running over `a`, then over `b` from where `a` left off.
pub proof fn lemma_run_concat(conf: &TabryConf, st: StateView, a: Seq<Seq<char>>, b: Seq<Seq<char>>)
    ensures
        run_from(conf, st, a + b) == match run_from(conf, st, a) {
            Ok(s) => run_from(conf, s, b),
            Err(e) => Err(e),
        },
    decreases b.len(),
{
    if b.len() == 0 {
        assert(a + b =~= a);
    } else {
        assert((a + b).drop_last() =~= a + b.drop_last());
        assert((a + b).last() == b.last());
        lemma_run_concat(conf, st, a, b.drop_last());
    }
}

/// Every state reached from the initial one that is in dashdash mode is in `Subcommand` mode.
pub proof fn lemma_dashdash_mode(conf: &TabryConf, toks: Seq<Seq<char>>)
    ensures
        run_from(conf, initial(), toks) matches Ok(s) ==> (s.dashdash ==> s.mode == ModeView::Subcommand),
    decreases toks.len(),
{
    if toks.len() > 0 {
        lemma_dashdash_mode(conf, toks.drop_last());
    }
}

/// In dashdash mode, each token is appended to the arguments as it is.
pub proof fn lemma_dashdash_appends(conf: &TabryConf, st: StateView, toks: Seq<Seq<char>>)
    requires
        st.dashdash,
        st.mode == ModeView::Subcommand,
    ensures
        run_from(conf, st, toks) == Ok::<StateView, ConfigError>(StateView { args: st.args + toks, ..st }),
    decreases toks.len(),
{
    if toks.len() == 0 {
        assert(st.args + toks =~= st.args);
    } else {
        lemma_dashdash_appends(conf, st, toks.drop_last());
        assert((st.args + toks.drop_last()).push(toks.last()) =~= st.args + toks);
    }
}

/// Dashdash is permanent: once a run has consumed `--` as the dashdash marker,
/// every later token, whatever it is, is appended to the arguments verbatim,
/// and nothing else of the state changes.
pub proof fn lemma_dashdash_permanence(conf: &TabryConf, before: Seq<Seq<char>>, after: Seq<Seq<char>>)
    requires
        run_from(conf, initial(), before) matches Ok(s) && s.dashdash,
    ensures
        run_from(conf, initial(), before + after) == Ok::<StateView, ConfigError>(
            StateView { args: run_from(conf, initial(), before).unwrap().args + after, ..run_from(conf, initial(), before).unwrap() },
        ),
{
    lemma_dashdash_mode(conf, before);
    lemma_run_concat(conf, initial(), before, after);
    lemma_dashdash_appends(conf, run_from(conf, initial(), before).unwrap(), after);
}

/// Flag values are captured verbatim: after a token that selects a flag taking
/// a value, the next token, whatever it is, becomes that flag's value, and the
/// subcommand path, arguments and markers stay as they were.
pub proof fn lemma_flag_value_capture(conf: &TabryConf, st: StateView, flag_tok: Seq<char>, value: Seq<char>)
    requires
        step(conf, st, flag_tok) matches Ok(s) && s.mode is Flagarg,
    ensures
        ({
            let s1 = step(conf, st, flag_tok).unwrap();
            step(conf, s1, value) matches Ok(s2) && lookup(s2.flag_args, s1.mode->Flagarg_0) == Some(value)
                && s2.mode == ModeView::Subcommand && s2.stack == s1.stack && s2.args == s1.args
                && s2.dashdash == s1.dashdash && s2.help == s1.help
        }),
{
    let s1 = step(conf, st, flag_tok).unwrap();
    lemma_upsert_lookup(s1.flag_args, s1.mode->Flagarg_0, value);
}

/// Argument lock-out: once an argument has been taken, no later token is
/// matched as a subcommand; the subcommand path stays as it is.
pub proof fn lemma_argument_lockout(conf: &TabryConf, st: StateView, toks: Seq<Seq<char>>)
    requires
        st.args.len() > 0,
    ensures
        run_from(conf, st, toks) matches Ok(s) ==> s.stack == st.stack && s.args.len() >= st.args.len(),
    decreases toks.len(),
{
    if toks.len() > 0 {
        lemma_argument_lockout(conf, st, toks.drop_last());
    }
}

} // verus!
