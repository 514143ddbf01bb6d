//! The state of one completion run, and its mathematical view.
use vstd::prelude::*;

verus! {

/// What the next token is taken as.
pub enum MachineStateMode {
    /// Ordinary dispatch: subcommand, `--`, flag, help, argument.
    Subcommand,
    /// The last token was a flag that takes a value: the next token is its value.
    Flagarg { current_flag: String },
}

/// The state that a run builds token by token.
pub struct MachineState {
    pub mode: MachineStateMode,
    /// Names of the matched subcommands, from the root down.
    pub subcommand_stack: Vec<String>,
    /// Tokens taken as positional arguments.
    pub args: Vec<String>,
    /// Flag values by flag name; each name appears once, in the order first given.
    pub flag_args: Vec<(String, String)>,
    pub dashdash: bool,
    pub help: bool,
}

/// The view of `MachineStateMode`.
pub enum ModeView {
    Subcommand,
    Flagarg(Seq<char>),
}

/// The view of `MachineState`.
pub struct StateView {
    pub mode: ModeView,
    pub stack: Seq<Seq<char>>,
    pub args: Seq<Seq<char>>,
    pub flag_args: Seq<(Seq<char>, Seq<char>)>,
    pub dashdash: bool,
    pub help: bool,
}

impl View for MachineStateMode {
    type V = ModeView;

    open spec fn view(&self) -> ModeView {
        match self {
            MachineStateMode::Subcommand => ModeView::Subcommand,
            MachineStateMode::Flagarg { current_flag } => ModeView::Flagarg(current_flag@),
        }
    }
}

/// The views of a sequence of strings.
pub open spec fn strs(v: Seq<String>) -> Seq<Seq<char>> {
    v.map_values(|s: String| s@)
}

/// The views of a sequence of pairs of strings.
pub open spec fn str_pairs(v: Seq<(String, String)>) -> Seq<(Seq<char>, Seq<char>)> {
    v.map_values(|p: (String, String)| (p.0@, p.1@))
}

impl View for MachineState {
    type V = StateView;

    open spec fn view(&self) -> StateView {
        StateView {
            mode: self.mode@,
            stack: strs(self.subcommand_stack@),
            args: strs(self.args@),
            flag_args: str_pairs(self.flag_args@),
            dashdash: self.dashdash,
            help: self.help,
        }
    }
}

/// The first position at or after `i` whose key is `k`.
pub open spec fn key_index(s: Seq<(Seq<char>, Seq<char>)>, k: Seq<char>, i: int) -> Option<int>
    decreases s.len() - i,
{
    if i < 0 || i >= s.len() {
        None
    } else if s[i].0 == k {
        Some(i)
    } else {
        key_index(s, k, i + 1)
    }
}

/// The value recorded for key `k`.
pub open spec fn lookup(s: Seq<(Seq<char>, Seq<char>)>, k: Seq<char>) -> Option<Seq<char>> {
    match key_index(s, k, 0) {
        Some(j) => Some(s[j].1),
        None => None,
    }
}

/// Records `v` for key `k`: in place where `k` has a value, at the end otherwise.
pub open spec fn upsert(s: Seq<(Seq<char>, Seq<char>)>, k: Seq<char>, v: Seq<char>) -> Seq<
    (Seq<char>, Seq<char>),
> {
    match key_index(s, k, 0) {
        Some(j) => s.update(j, (k, v)),
        None => s.push((k, v)),
    }
}

/// What `key_index` returns, stated by its properties.
pub proof fn lemma_key_index(s: Seq<(Seq<char>, Seq<char>)>, k: Seq<char>, i: int)
    requires
        0 <= i,
    ensures
        match key_index(s, k, i) {
            Some(j) => i <= j < s.len() && s[j].0 == k && forall|m: int| i <= m < j ==> s[m].0 != k,
            None => forall|m: int| i <= m < s.len() ==> s[m].0 != k,
        },
    decreases s.len() - i,
{
    if i < s.len() && s[i].0 != k {
        lemma_key_index(s, k, i + 1);
    }
}

/// `key_index` is the first position with the key.
pub proof fn lemma_key_index_is(s: Seq<(Seq<char>, Seq<char>)>, k: Seq<char>, i: int, j: int)
    requires
        0 <= i <= j,
        j < s.len() ==> s[j].0 == k,
        forall|m: int| i <= m < j && m < s.len() ==> s[m].0 != k,
    ensures
        key_index(s, k, i) == if j < s.len() { Some(j) } else { None::<int> },
    decreases s.len() - i,
{
    if i < j && i < s.len() {
        lemma_key_index_is(s, k, i + 1, j);
    }
}

/// After `upsert`, the key holds the new value.
pub proof fn lemma_upsert_lookup(s: Seq<(Seq<char>, Seq<char>)>, k: Seq<char>, v: Seq<char>)
    ensures
        lookup(upsert(s, k, v), k) == Some(v),
{
    lemma_key_index(s, k, 0);
    let u = upsert(s, k, v);
    match key_index(s, k, 0) {
        Some(j) => {
            lemma_key_index_is(u, k, 0, j);
        },
        None => {
            lemma_key_index_is(u, k, 0, s.len() as int);
        },
    }
}

impl MachineState {
    /// The state at the start of a run: nothing matched, mode `Subcommand`.
    pub fn new() -> (r: MachineState)
        ensures
            r@ == initial(),
    {
        let r = MachineState {
            mode: MachineStateMode::Subcommand,
            subcommand_stack: Vec::new(),
            args: Vec::new(),
            flag_args: Vec::new(),
            dashdash: false,
            help: false,
        };
        assert(r@.stack =~= Seq::<Seq<char>>::empty());
        assert(r@.args =~= Seq::<Seq<char>>::empty());
        assert(r@.flag_args =~= Seq::<(Seq<char>, Seq<char>)>::empty());
        r
    }

    /// Records `value` for the flag `name` (see `upsert`).
    pub fn set_flag_arg(&mut self, name: String, value: String)
        ensures
            final(self)@ == (StateView { flag_args: upsert(old(self)@.flag_args, name@, value@), ..old(self)@ }),
    {
        let ghost s = old(self)@.flag_args;
        let mut i: usize = 0;
        while i < self.flag_args.len()
            invariant
                *self == *old(self),
                s == str_pairs(self.flag_args@),
                i <= self.flag_args@.len(),
                key_index(s, name@, 0) == key_index(s, name@, i as int),
            decreases self.flag_args.len() - i,
        {
            assert(s[i as int].0 == self.flag_args@[i as int].0@);
            if crate::text::str_eq(self.flag_args[i].0.as_str(), name.as_str()) {
                let ghost nv = name@;
                let ghost vv = value@;
                let ghost before = self.flag_args@;
                self.flag_args.remove(i);
                self.flag_args.insert(i, (name, value));
                assert(self.flag_args@ =~= before.update(i as int, (name, value)));
                assert(self@.flag_args =~= s.update(i as int, (nv, vv)));
                return;
            }
            i = i + 1;
        }
        let ghost nv = name@;
        let ghost vv = value@;
        self.flag_args.push((name, value));
        assert(self@.flag_args =~= s.push((nv, vv)));
    }
}

/// The state at the start of a run.
pub open spec fn initial() -> StateView {
    StateView {
        mode: ModeView::Subcommand,
        stack: Seq::empty(),
        args: Seq::empty(),
        flag_args: Seq::empty(),
        dashdash: false,
        help: false,
    }
}

} // verus!
