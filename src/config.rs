//! The configuration tree and the lookups over it.
//!
//! The tree is stored as an arena: `TabryConf::nodes[0]` is the root, and each
//! node names its children by their index in the arena.
use vstd::prelude::*;
use crate::text::{str_eq, starts_with};

verus! {

/// A hint about the values that a positional argument or a flag may take.
pub enum OptionHint {
    /// A literal value that can be inserted as it is.
    Const(String),
    /// Any file path: left to the shell's own file completion.
    File,
    /// Any directory path: left to the shell's own directory completion.
    Dir,
}

/// A flag of a command node. Its name is written without leading dashes.
pub struct Flag {
    pub name: String,
    pub description: Option<String>,
    /// Whether the flag takes a value in the token after it.
    pub arg: bool,
    /// Hints for the flag's value.
    pub options: Vec<OptionHint>,
}

/// A command node: the root or a (sub)command.
pub struct Sub {
    /// Absent only at the root.
    pub name: Option<String>,
    pub description: Option<String>,
    /// Indices of the child nodes in `TabryConf::nodes`, in declaration order.
    pub subs: Vec<usize>,
    pub flags: Vec<Flag>,
    /// Hints for the positional arguments of this node.
    pub options: Vec<OptionHint>,
}

/// A compiled configuration: an arena of command nodes whose first one is the root.
pub struct TabryConf {
    pub nodes: Vec<Sub>,
}

/// Why the configuration could not be navigated.
#[derive(Debug, PartialEq, Eq, Structural, Clone, Copy)]
pub enum ConfigError {
    /// A name of the path has no matching child.
    PathNotFound,
    /// The tree is malformed: no root, or a child index outside the arena.
    ConfigInconsistency,
}

/// Whether node `c` exists and is named `tok`.
pub open spec fn named(conf: &TabryConf, c: usize, tok: Seq<char>) -> bool {
    c < conf.nodes@.len() && match conf.nodes@[c as int].name {
        Some(n) => n@ == tok,
        None => false,
    }
}

/// Whether node `c` exists and has a name that starts with `tok`.
pub open spec fn named_with_prefix(conf: &TabryConf, c: usize, tok: Seq<char>) -> bool {
    c < conf.nodes@.len() && match conf.nodes@[c as int].name {
        Some(n) => tok.len() <= n@.len() && n@.take(tok.len() as int) == tok,
        None => false,
    }
}

/// The first child among `subs[i..]` named exactly `tok`; an index outside the
/// arena met before it is an inconsistency.
pub open spec fn find_exact_from(conf: &TabryConf, subs: Seq<usize>, tok: Seq<char>, i: int) -> Result<
    Option<usize>,
    ConfigError,
>
    decreases subs.len() - i,
{
    if i < 0 || i >= subs.len() {
        Ok(None)
    } else if subs[i] >= conf.nodes@.len() {
        Err(ConfigError::ConfigInconsistency)
    } else if named(conf, subs[i], tok) {
        Ok(Some(subs[i]))
    } else {
        find_exact_from(conf, subs, tok, i + 1)
    }
}

/// The children among `subs[i..]` whose name starts with `tok`.
pub open spec fn prefix_matches_from(conf: &TabryConf, subs: Seq<usize>, tok: Seq<char>, i: int) -> Seq<usize>
    decreases subs.len() - i,
{
    if i < 0 || i >= subs.len() {
        Seq::empty()
    } else if named_with_prefix(conf, subs[i], tok) {
        seq![subs[i]] + prefix_matches_from(conf, subs, tok, i + 1)
    } else {
        prefix_matches_from(conf, subs, tok, i + 1)
    }
}

/// The child of a node that a token selects: an exact match first; then, when
/// `exact` is false, the one child whose name starts with the token, if it is
/// the only such child.
pub open spec fn find_child(conf: &TabryConf, subs: Seq<usize>, tok: Seq<char>, exact: bool) -> Result<
    Option<usize>,
    ConfigError,
> {
    match find_exact_from(conf, subs, tok, 0) {
        Ok(None) => if !exact && prefix_matches_from(conf, subs, tok, 0).len() == 1 {
            Ok(Some(prefix_matches_from(conf, subs, tok, 0)[0]))
        } else {
            Ok(None)
        },
        r => r,
    }
}

/// The node that a path of names leads to from the root.
pub open spec fn resolve(conf: &TabryConf, path: Seq<Seq<char>>) -> Result<usize, ConfigError>
    decreases path.len(),
{
    if path.len() == 0 {
        if conf.nodes@.len() == 0 {
            Err(ConfigError::ConfigInconsistency)
        } else {
            Ok(0)
        }
    } else {
        match resolve(conf, path.drop_last()) {
            Ok(n) => match find_exact_from(conf, conf.nodes@[n as int].subs@, path.last(), 0) {
                Ok(Some(c)) => Ok(c),
                Ok(None) => Err(ConfigError::PathNotFound),
                Err(e) => Err(e),
            },
            Err(e) => Err(e),
        }
    }
}

/// The names of a sequence of strings.
pub open spec fn names_of(v: Seq<String>) -> Seq<Seq<char>> {
    v.map_values(|s: String| s@)
}

/// How a flag is written on the command line: `-x` for a one-letter name,
/// `--name` otherwise.
pub open spec fn flag_token(name: Seq<char>) -> Seq<char> {
    if name.len() == 1 {
        seq!['-'] + name
    } else {
        seq!['-', '-'] + name
    }
}

/// The index of the first flag among `flags[i..]` written as `tok`.
pub open spec fn find_flag_from(flags: Seq<Flag>, tok: Seq<char>, i: int) -> Option<usize>
    decreases flags.len() - i,
{
    if i < 0 || i >= flags.len() {
        None
    } else if flag_token(flags[i].name@) == tok {
        Some(i as usize)
    } else {
        find_flag_from(flags, tok, i + 1)
    }
}

/// The index of the first flag among `flags[i..]` named `name`.
pub open spec fn flag_named_from(flags: Seq<Flag>, name: Seq<char>, i: int) -> Option<usize>
    decreases flags.len() - i,
{
    if i < 0 || i >= flags.len() {
        None
    } else if flags[i].name@ == name {
        Some(i as usize)
    } else {
        flag_named_from(flags, name, i + 1)
    }
}

/// How the flag named `name` is written on the command line.
pub fn flag_token_of(name: &str) -> (r: String)
    ensures
        r@ == flag_token(name@),
{
    let dashes = if name.unicode_len() == 1 {
        "-"
    } else {
        "--"
    };
    proof {
        reveal_strlit("-");
        reveal_strlit("--");
    }
    let mut r = String::from_str(dashes);
    r.append(name);
    r
}

/// Resolves nodes by path and matches tokens against child names.
impl TabryConf {
    /// Whether node `c` exists and is named `tok`.
    pub fn is_named(&self, c: usize, tok: &str) -> (r: bool)
        ensures
            r == named(self, c, tok@),
    {
        if c >= self.nodes.len() {
            return false;
        }
        match &self.nodes[c].name {
            Some(n) => str_eq(n.as_str(), tok),
            None => false,
        }
    }

    /// Finds the child among `subs` that `tok` selects (see `find_child`).
    pub fn find_in_subs(&self, subs: &Vec<usize>, tok: &str, exact: bool) -> (r: Result<Option<usize>, ConfigError>)
        ensures
            r == find_child(self, subs@, tok@, exact),
    {
        let mut i: usize = 0;
        while i < subs.len()
            invariant
                i <= subs@.len(),
                find_exact_from(self, subs@, tok@, 0) == find_exact_from(self, subs@, tok@, i as int),
            decreases subs.len() - i,
        {
            if subs[i] >= self.nodes.len() {
                return Err(ConfigError::ConfigInconsistency);
            }
            if self.is_named(subs[i], tok) {
                return Ok(Some(subs[i]));
            }
            i = i + 1;
        }
        if exact {
            return Ok(None);
        }
        let mut found: Option<usize> = None;
        let mut count: usize = 0;
        let mut j: usize = subs.len();
        while j > 0
            invariant
                j <= subs@.len(),
                subs@.len() <= usize::MAX,
                count == prefix_matches_from(self, subs@, tok@, j as int).len(),
                count <= subs@.len() - j,
                count > 0 ==> found == Some(prefix_matches_from(self, subs@, tok@, j as int)[0]),
            decreases j,
        {
            j = j - 1;
            if self.has_name_prefix(subs[j], tok) {
                found = Some(subs[j]);
                count = count + 1;
            }
        }
        if count == 1 {
            Ok(found)
        } else {
            Ok(None)
        }
    }

    /// Whether node `c` exists and has a name that starts with `tok`.
    pub fn has_name_prefix(&self, c: usize, tok: &str) -> (r: bool)
        ensures
            r == named_with_prefix(self, c, tok@),
    {
        if c >= self.nodes.len() {
            return false;
        }
        match &self.nodes[c].name {
            Some(n) => starts_with(n.as_str(), tok),
            None => false,
        }
    }

    /// The node that `path` leads to from the root.
    pub fn dig_sub(&self, path: &Vec<String>) -> (r: Result<usize, ConfigError>)
        ensures
            r == resolve(self, names_of(path@)),
            r matches Ok(n) ==> n < self.nodes@.len(),
    {
        if self.nodes.len() == 0 {
            proof {
                lemma_resolve_err_extends(self, names_of(path@), 0);
            }
            return Err(ConfigError::ConfigInconsistency);
        }
        let mut node: usize = 0;
        let mut i: usize = 0;
        assert(names_of(path@).take(0) =~= Seq::<Seq<char>>::empty());
        while i < path.len()
            invariant
                i <= path@.len(),
                node < self.nodes@.len(),
                resolve(self, names_of(path@).take(i as int)) == Ok::<usize, ConfigError>(node),
            decreases path.len() - i,
        {
            let ghost names = names_of(path@);
            assert(names.take(i + 1).drop_last() =~= names.take(i as int));
            assert(names.take(i + 1).last() == path@[i as int]@);
            match self.find_in_subs(&self.nodes[node].subs, path[i].as_str(), true) {
                Ok(Some(c)) => {
                    proof {
                        lemma_find_exact_in_range(self, self.nodes@[node as int].subs@, path@[i as int]@, 0);
                    }
                    node = c;
                },
                Ok(None) => {
                    proof {
                        lemma_resolve_err_extends(self, names, i + 1);
                    }
                    return Err(ConfigError::PathNotFound);
                },
                Err(e) => {
                    proof {
                        lemma_resolve_err_extends(self, names, i + 1);
                    }
                    return Err(e);
                },
            }
            i = i + 1;
        }
        assert(names_of(path@).take(path@.len() as int) =~= names_of(path@));
        Ok(node)
    }

    /// The index of the first flag of node `node` written as `tok`.
    pub fn find_flag(&self, node: usize, tok: &str) -> (r: Option<usize>)
        requires
            node < self.nodes@.len(),
        ensures
            r == find_flag_from(self.nodes@[node as int].flags@, tok@, 0),
            r matches Some(i) ==> i < self.nodes@[node as int].flags@.len(),
    {
        let flags = &self.nodes[node].flags;
        let mut i: usize = 0;
        while i < flags.len()
            invariant
                flags == &self.nodes@[node as int].flags,
                i <= flags@.len(),
                find_flag_from(flags@, tok@, 0) == find_flag_from(flags@, tok@, i as int),
            decreases flags.len() - i,
        {
            let t = flag_token_of(flags[i].name.as_str());
            if str_eq(t.as_str(), tok) {
                return Some(i);
            }
            i = i + 1;
        }
        None
    }

    /// The index of the first flag of node `node` named `name`.
    pub fn flag_named(&self, node: usize, name: &str) -> (r: Option<usize>)
        requires
            node < self.nodes@.len(),
        ensures
            r == flag_named_from(self.nodes@[node as int].flags@, name@, 0),
            r matches Some(i) ==> i < self.nodes@[node as int].flags@.len(),
    {
        let flags = &self.nodes[node].flags;
        let mut i: usize = 0;
        while i < flags.len()
            invariant
                flags == &self.nodes@[node as int].flags,
                i <= flags@.len(),
                flag_named_from(flags@, name@, 0) == flag_named_from(flags@, name@, i as int),
            decreases flags.len() - i,
        {
            if str_eq(flags[i].name.as_str(), name) {
                return Some(i);
            }
            i = i + 1;
        }
        None
    }
}

/// Once a prefix of a path fails to resolve, the whole path fails the same way.
pub proof fn lemma_resolve_err_extends(conf: &TabryConf, path: Seq<Seq<char>>, i: int)
    requires
        0 <= i <= path.len(),
        resolve(conf, path.take(i)) is Err,
    ensures
        resolve(conf, path) == resolve(conf, path.take(i)),
    decreases path.len(),
{
    if path.len() == i {
        assert(path.take(i) =~= path);
    } else {
        assert(path.drop_last().take(i) =~= path.take(i));
        lemma_resolve_err_extends(conf, path.drop_last(), i);
    }
}

/// A child found by exact match lies inside the arena.
pub proof fn lemma_find_exact_in_range(conf: &TabryConf, subs: Seq<usize>, tok: Seq<char>, i: int)
    ensures
        find_exact_from(conf, subs, tok, i) matches Ok(Some(c)) ==> c < conf.nodes@.len() && named(conf, c, tok),
    decreases subs.len() - i,
{
    if 0 <= i < subs.len() && subs[i] < conf.nodes@.len() && !named(conf, subs[i], tok) {
        lemma_find_exact_in_range(conf, subs, tok, i + 1);
    }
}

} // verus!
