//! XDG locations, `~` / `${VAR}` expansion, and absolute paths.
//!
//! Nothing here reads the process environment: every function takes an [`Env`],
//! or a [`BaseDir`], that the caller filled in. A path is held as a string.

use vstd::prelude::*;

use crate::text;
use crate::text::{chars_of, quote, str_eq, string_of};

verus! {

/// A snapshot of the environment, as the list of its `name=value` pairs. The
/// first pair of a name counts; a variable with an empty value counts as unset.
#[derive(Debug)]
pub struct Env {
    vars: Vec<(String, String)>,
}

/// An absolute directory that relative paths start from.
#[derive(Debug)]
pub struct BaseDir {
    path: String,
}

/// Why a path could not be built.
#[derive(Debug, PartialEq, Eq)]
pub enum PathError {
    /// `$HOME` is needed and not set.
    HomeNotSet,
    /// `$XDG_RUNTIME_DIR` is needed and not set.
    RuntimeDirNotSet,
    /// A `${` in `path` that no `}` follows.
    Unterminated { path: String },
    /// `path` refers to the variable `name`, which is not set.
    VarNotSet { name: String, path: String },
}

// ------------------------------------------------------------------- model

/// [`PathError`] over character sequences.
pub ghost enum PathFault {
    HomeNotSet,
    RuntimeDirNotSet,
    Unterminated { path: Seq<char> },
    VarNotSet { name: Seq<char>, path: Seq<char> },
}

impl View for PathError {
    type V = PathFault;

    open spec fn view(&self) -> PathFault {
        match *self {
            PathError::HomeNotSet => PathFault::HomeNotSet,
            PathError::RuntimeDirNotSet => PathFault::RuntimeDirNotSet,
            PathError::Unterminated { path } => PathFault::Unterminated { path: path@ },
            PathError::VarNotSet { name, path } => PathFault::VarNotSet { name: name@, path: path@ },
        }
    }
}

/// A path error as a message.
pub open spec fn fault_text(f: PathFault) -> Seq<char> {
    match f {
        PathFault::HomeNotSet => "$HOME is not set"@,
        PathFault::RuntimeDirNotSet =>
            "$XDG_RUNTIME_DIR is not set; cannot locate the control socket"@,
        PathFault::Unterminated { path } => "unterminated ${...} in path "@ + text::quoted(path),
        PathFault::VarNotSet { name, path } => "environment variable $"@ + name
            + " (referenced in "@ + text::quoted(path) + ") is not set"@,
    }
}

/// A path result over character sequences.
pub open spec fn path_result(r: Result<String, PathError>) -> Result<Seq<char>, PathFault> {
    match r {
        Ok(p) => Ok(p@),
        Err(e) => Err(e@),
    }
}

/// The variables that a list of pairs sets, the first pair of a name winning
/// and an empty value meaning unset.
pub open spec fn env_map(pairs: Seq<(String, String)>) -> Map<Seq<char>, Seq<char>>
    decreases pairs.len(),
{
    if pairs.len() == 0 {
        Map::empty()
    } else {
        let rest = env_map(pairs.drop_first());
        if pairs[0].1@.len() == 0 {
            rest.remove(pairs[0].0@)
        } else {
            rest.insert(pairs[0].0@, pairs[0].1@)
        }
    }
}

impl View for Env {
    type V = Map<Seq<char>, Seq<char>>;

    closed spec fn view(&self) -> Map<Seq<char>, Seq<char>> {
        env_map(self.vars@)
    }
}

/// The value of one variable.
pub open spec fn lookup(env: Map<Seq<char>, Seq<char>>, name: Seq<char>) -> Option<Seq<char>> {
    if env.contains_key(name) {
        Some(env[name])
    } else {
        None
    }
}

/// `comp`, a relative component, under the directory `base`.
pub open spec fn joined(base: Seq<char>, comp: Seq<char>) -> Seq<char> {
    if base.len() == 0 || base.last() == '/' {
        base + comp
    } else {
        base.push('/') + comp
    }
}

/// Whether a path starts at the root.
pub open spec fn is_absolute(p: Seq<char>) -> bool {
    p.len() > 0 && p[0] == '/'
}

/// `p` itself if it is absolute, else `p` under the directory `base`.
pub open spec fn absolute_path(base: Seq<char>, p: Seq<char>) -> Seq<char> {
    if is_absolute(p) {
        p
    } else {
        joined(base, p)
    }
}

impl View for BaseDir {
    type V = Seq<char>;

    closed spec fn view(&self) -> Seq<char> {
        self.path@
    }
}

impl BaseDir {
    /// The invariant: the directory is absolute.
    #[verifier::type_invariant]
    pub closed spec fn rooted(self) -> bool {
        is_absolute(self.path@)
    }
}

/// The user's home directory.
pub open spec fn home_dir(env: Map<Seq<char>, Seq<char>>) -> Result<Seq<char>, PathFault> {
    match lookup(env, "HOME"@) {
        Some(h) => Ok(h),
        None => Err(PathFault::HomeNotSet),
    }
}

/// Where `config.toml` is looked for.
pub open spec fn config_location(env: Map<Seq<char>, Seq<char>>) -> Result<Seq<char>, PathFault> {
    let dir = match lookup(env, "XDG_CONFIG_HOME"@) {
        Some(d) => Ok(d),
        None => match home_dir(env) {
            Ok(h) => Ok(joined(h, ".config"@)),
            Err(e) => Err(e),
        },
    };
    match dir {
        Ok(d) => Ok(joined(joined(d, "niribg"@), "config.toml"@)),
        Err(e) => Err(e),
    }
}

/// Where `state.json` is kept.
pub open spec fn state_location(env: Map<Seq<char>, Seq<char>>) -> Result<Seq<char>, PathFault> {
    let dir = match lookup(env, "XDG_STATE_HOME"@) {
        Some(d) => Ok(d),
        None => match home_dir(env) {
            Ok(h) => Ok(joined(joined(h, ".local"@), "state"@)),
            Err(e) => Err(e),
        },
    };
    match dir {
        Ok(d) => Ok(joined(joined(d, "niribg"@), "state.json"@)),
        Err(e) => Err(e),
    }
}

/// What follows the last `/`, or everything if there is none.
pub open spec fn last_component(s: Seq<char>) -> Seq<char>
    decreases s.len(),
{
    if s.len() == 0 || s.last() == '/' {
        Seq::empty()
    } else {
        last_component(s.drop_last()).push(s.last())
    }
}

/// Where the control socket is.
pub open spec fn socket_location(env: Map<Seq<char>, Seq<char>>) -> Result<Seq<char>, PathFault> {
    match lookup(env, "XDG_RUNTIME_DIR"@) {
        None => Err(PathFault::RuntimeDirNotSet),
        Some(run) => {
            let display = match lookup(env, "WAYLAND_DISPLAY"@) {
                Some(d) => d,
                None => "wayland-0"@,
            };
            Ok(joined(run, "niribg-"@ + last_component(display) + ".sock"@))
        },
    }
}

/// A character of a `$NAME` reference.
pub open spec fn is_name_char(c: char) -> bool {
    ('a' <= c && c <= 'z') || ('A' <= c && c <= 'Z') || ('0' <= c && c <= '9') || c == '_'
}

/// How many name characters `s` starts with.
pub open spec fn name_len(s: Seq<char>) -> nat
    decreases s.len(),
{
    if s.len() > 0 && is_name_char(s[0]) {
        1 + name_len(s.drop_first())
    } else {
        0
    }
}

/// Position of the first `c`, or the length if there is none.
pub open spec fn first_of(s: Seq<char>, c: char) -> nat
    decreases s.len(),
{
    if s.len() == 0 || s[0] == c {
        0
    } else {
        1 + first_of(s.drop_first(), c)
    }
}

/// `head` in front of an expansion.
pub open spec fn with_head(head: Seq<char>, tail: Result<Seq<char>, PathFault>) -> Result<
    Seq<char>,
    PathFault,
> {
    match tail {
        Ok(t) => Ok(head + t),
        Err(e) => Err(e),
    }
}

/// `s` with every `${VAR}` and `$VAR` replaced by its value. The first
/// reference from the left that cannot be replaced is reported, `whole` being
/// the path it stands in. A `$` that no name follows stays.
pub open spec fn expanded_vars(
    s: Seq<char>,
    env: Map<Seq<char>, Seq<char>>,
    whole: Seq<char>,
) -> Result<Seq<char>, PathFault>
    decreases s.len(),
{
    if s.len() == 0 {
        Ok(Seq::empty())
    } else if s[0] != '$' {
        with_head(seq![s[0]], expanded_vars(s.skip(1), env, whole))
    } else if s.len() > 1 && s[1] == '{' {
        let end = first_of(s.skip(2), '}');
        if end >= s.len() - 2 {
            Err(PathFault::Unterminated { path: whole })
        } else {
            let name = s.subrange(2, 2 + end as int);
            match lookup(env, name) {
                None => Err(PathFault::VarNotSet { name, path: whole }),
                Some(v) => with_head(v, expanded_vars(s.skip(2 + end as int + 1), env, whole)),
            }
        }
    } else {
        let n = name_len(s.skip(1));
        if n == 0 {
            with_head(seq!['$'], expanded_vars(s.skip(1), env, whole))
        } else {
            proof {
                lemma_name_len_bound(s.skip(1));
            }
            let name = s.subrange(1, 1 + n as int);
            match lookup(env, name) {
                None => Err(PathFault::VarNotSet { name, path: whole }),
                Some(v) => with_head(v, expanded_vars(s.skip(1 + n as int), env, whole)),
            }
        }
    }
}

/// `s` with a leading `~` or `~/` and all variable references replaced.
pub open spec fn expanded(s: Seq<char>, env: Map<Seq<char>, Seq<char>>) -> Result<
    Seq<char>,
    PathFault,
> {
    if s.len() > 0 && s[0] == '~' && (s.len() == 1 || s[1] == '/') {
        match home_dir(env) {
            Err(e) => Err(e),
            Ok(h) => with_head(h, expanded_vars(s.skip(1), env, s)),
        }
    } else {
        expanded_vars(s, env, s)
    }
}

/// The components of a path: what stands between slashes, without empty
/// components and without `.`.
pub open spec fn segments(p: Seq<char>) -> Seq<Seq<char>>
    decreases p.len(),
{
    if p.len() == 0 {
        Seq::empty()
    } else {
        let n = first_of(p, '/');
        let head = p.take(n as int);
        let rest = if n < p.len() {
            segments(p.skip(n as int + 1))
        } else {
            Seq::empty()
        };
        if head.len() == 0 || head == seq!['.'] {
            rest
        } else {
            seq![head] + rest
        }
    }
}

/// Whether the name of the file at `p` ends in a dot: then its extension is
/// there, but empty.
pub open spec fn has_empty_extension(p: Seq<char>) -> bool {
    let parts = segments(p);
    &&& parts.len() > 0
    &&& parts.last().len() >= 2
    &&& parts.last().last() == '.'
    &&& parts.last() != seq!['.', '.']
}

/// What two paths must share to be the same path: whether they are absolute,
/// whether they start at an explicit `.`, and their components.
pub open spec fn path_key(p: Seq<char>) -> (bool, bool, Seq<Seq<char>>) {
    (is_absolute(p), p.len() > 0 && p[0] == '.' && first_of(p, '/') == 1, segments(p))
}

// -------------------------------------------------------------------- code

impl Env {
    /// The environment that `vars` lists.
    pub fn new(vars: Vec<(String, String)>) -> (r: Env)
        ensures
            r@ == env_map(vars@),
    {
        Env { vars }
    }

    /// The value of `name`, if it is set and not empty.
    pub fn get(&self, name: &str) -> (r: Option<String>)
        ensures
            text::opt_view(r) == lookup(self@, name@),
    {
        let mut i: usize = 0;
        assert(self.vars@.skip(0) =~= self.vars@);
        while i < self.vars.len()
            invariant
                i <= self.vars@.len(),
                lookup(self@, name@) == lookup(env_map(self.vars@.skip(i as int)), name@),
            decreases self.vars@.len() - i,
        {
            proof {
                assert(self.vars@.skip(i as int).drop_first() =~= self.vars@.skip(i + 1));
            }
            if str_eq(self.vars[i].0.as_str(), name) {
                if self.vars[i].1.as_str().is_empty() {
                    return None;
                }
                return Some(self.vars[i].1.clone());
            }
            i += 1;
        }
        None
    }
}

impl PathError {
    /// The error as a message.
    pub fn to_string(&self) -> (r: String)
        ensures
            r@ == fault_text(self@),
    {
        match self {
            PathError::HomeNotSet => "$HOME is not set".to_string(),
            PathError::RuntimeDirNotSet =>
                "$XDG_RUNTIME_DIR is not set; cannot locate the control socket".to_string(),
            PathError::Unterminated { path } => {
                let mut m = "unterminated ${...} in path ".to_string();
                m.push_str(quote(path.as_str()).as_str());
                m
            },
            PathError::VarNotSet { name, path } => {
                let mut m = "environment variable $".to_string();
                m.push_str(name.as_str());
                m.push_str(" (referenced in ");
                m.push_str(quote(path.as_str()).as_str());
                m.push_str(") is not set");
                m
            },
        }
    }
}

impl BaseDir {
    /// The directory at `path`, if that is absolute.
    pub fn new(path: String) -> (r: Option<BaseDir>)
        ensures
            match r {
                Some(d) => is_absolute(path@) && d@ == path@,
                None => !is_absolute(path@),
            },
    {
        let cs = chars_of(path.as_str());
        if cs.len() > 0 && cs[0] == '/' {
            Some(BaseDir { path })
        } else {
            None
        }
    }

    /// `path` itself if it is absolute, else `path` under this directory.
    pub fn absolute(&self, path: String) -> (r: String)
        ensures
            r@ == absolute_path(self@, path@),
            is_absolute(r@),
    {
        proof {
            use_type_invariant(self);
        }
        let cs = chars_of(path.as_str());
        if cs.len() > 0 && cs[0] == '/' {
            path
        } else {
            join(self.path.clone(), path.as_str())
        }
    }
}

/// A base directory is absolute.
pub proof fn lemma_base_is_absolute(d: BaseDir)
    requires
        d.rooted(),
    ensures
        is_absolute(d@),
{
}

fn join(base: String, comp: &str) -> (r: String)
    ensures
        r@ == joined(base@, comp@),
{
    let cs = chars_of(base.as_str());
    let mut out = base;
    if cs.len() > 0 && cs[cs.len() - 1] != '/' {
        out.push('/');
    }
    out.push_str(comp);
    out
}

fn home(env: &Env) -> (r: Result<String, PathError>)
    ensures
        path_result(r) == home_dir(env@),
{
    match env.get("HOME") {
        Some(h) => Ok(h),
        None => Err(PathError::HomeNotSet),
    }
}

/// `$XDG_CONFIG_HOME/niribg/config.toml`, else `~/.config/niribg/config.toml`.
pub fn config_file(env: &Env) -> (r: Result<String, PathError>)
    ensures
        path_result(r) == config_location(env@),
{
    let dir = match env.get("XDG_CONFIG_HOME") {
        Some(d) => d,
        None => match home(env) {
            Ok(h) => join(h, ".config"),
            Err(e) => return Err(e),
        },
    };
    Ok(join(join(dir, "niribg"), "config.toml"))
}

/// `$XDG_STATE_HOME/niribg/state.json`, else
/// `~/.local/state/niribg/state.json`.
pub fn state_file(env: &Env) -> (r: Result<String, PathError>)
    ensures
        path_result(r) == state_location(env@),
{
    let dir = match env.get("XDG_STATE_HOME") {
        Some(d) => d,
        None => match home(env) {
            Ok(h) => join(join(h, ".local"), "state"),
            Err(e) => return Err(e),
        },
    };
    Ok(join(join(dir, "niribg"), "state.json"))
}

fn after_last_slash(s: &str) -> (r: String)
    ensures
        r@ == last_component(s@),
{
    let cs = chars_of(s);
    let mut from: usize = 0;
    let mut i: usize = 0;
    while i < cs.len()
        invariant
            cs@ == s@,
            from <= i <= cs@.len(),
            cs@.subrange(from as int, i as int) == last_component(cs@.take(i as int)),
        decreases cs@.len() - i,
    {
        proof {
            assert(cs@.take(i + 1).drop_last() =~= cs@.take(i as int));
            assert(cs@.take(i + 1).last() == cs@[i as int]);
        }
        if cs[i] == '/' {
            from = i + 1;
            assert(cs@.subrange(from as int, i + 1) =~= Seq::empty());
        } else {
            assert(cs@.subrange(from as int, i + 1) =~= cs@.subrange(from as int, i as int).push(
                cs@[i as int],
            ));
        }
        i += 1;
    }
    assert(cs@.take(i as int) =~= cs@);
    string_of(&cs, from, cs.len())
}

/// `$XDG_RUNTIME_DIR/niribg-$WAYLAND_DISPLAY.sock`. `$WAYLAND_DISPLAY`
/// defaults to `wayland-0`; of a display given as a path only the last
/// component counts. A missing `$XDG_RUNTIME_DIR` is an error.
pub fn socket_path(env: &Env) -> (r: Result<String, PathError>)
    ensures
        path_result(r) == socket_location(env@),
{
    let run = match env.get("XDG_RUNTIME_DIR") {
        Some(run) => run,
        None => return Err(PathError::RuntimeDirNotSet),
    };
    let display = match env.get("WAYLAND_DISPLAY") {
        Some(d) => d,
        None => "wayland-0".to_string(),
    };
    let display = after_last_slash(display.as_str());
    let mut file = "niribg-".to_string();
    file.push_str(display.as_str());
    file.push_str(".sock");
    Ok(join(run, file.as_str()))
}

/// A name is no longer than the text that it starts.
pub proof fn lemma_name_len_bound(s: Seq<char>)
    ensures
        name_len(s) <= s.len(),
    decreases s.len(),
{
    if s.len() > 0 && is_name_char(s[0]) {
        lemma_name_len_bound(s.drop_first());
    }
}

fn count_name_chars(cs: &Vec<char>, from: usize) -> (n: usize)
    requires
        from <= cs@.len(),
    ensures
        n == name_len(cs@.skip(from as int)),
        n <= cs@.len() - from,
{
    let mut i: usize = from;
    while i < cs.len() && (('a' <= cs[i] && cs[i] <= 'z') || ('A' <= cs[i] && cs[i] <= 'Z') || ('0'
        <= cs[i] && cs[i] <= '9') || cs[i] == '_')
        invariant
            from <= i <= cs@.len(),
            name_len(cs@.skip(from as int)) == (i - from) + name_len(cs@.skip(i as int)),
        decreases cs@.len() - i,
    {
        assert(cs@.skip(i as int).drop_first() =~= cs@.skip(i + 1));
        i += 1;
    }
    i - from
}

fn find_char(cs: &Vec<char>, from: usize, c: char) -> (n: usize)
    requires
        from <= cs@.len(),
    ensures
        n == first_of(cs@.skip(from as int), c),
        n <= cs@.len() - from,
{
    let mut i: usize = from;
    while i < cs.len() && cs[i] != c
        invariant
            from <= i <= cs@.len(),
            first_of(cs@.skip(from as int), c) == (i - from) + first_of(cs@.skip(i as int), c),
        decreases cs@.len() - i,
    {
        assert(cs@.skip(i as int).drop_first() =~= cs@.skip(i + 1));
        i += 1;
    }
    i - from
}

fn value_of(name: String, env: &Env, whole: &str) -> (r: Result<String, PathError>)
    ensures
        path_result(r) == match lookup(env@, name@) {
            Some(v) => Ok(v),
            None => Err(PathFault::VarNotSet { name: name@, path: whole@ }),
        },
{
    match env.get(name.as_str()) {
        Some(v) => Ok(v),
        None => Err(PathError::VarNotSet { name, path: whole.to_string() }),
    }
}

/// Expand a leading `~` and any `${VAR}` / `$VAR` references.
pub fn expand(s: &str, env: &Env) -> (r: Result<String, PathError>)
    ensures
        path_result(r) == expanded(s@, env@),
{
    let cs = chars_of(s);
    let mut out = String::new();
    let mut i: usize = 0;
    if cs.len() > 0 && cs[0] == '~' && (cs.len() == 1 || cs[1] == '/') {
        match home(env) {
            Ok(h) => out = h,
            Err(e) => return Err(e),
        }
        i = 1;
    }
    let ghost goal = expanded(s@, env@);
    assert(cs@.skip(0) =~= cs@);
    assert(goal == with_head(out@, expanded_vars(cs@.skip(i as int), env@, s@))) by {
        if i == 0 {
            let t = expanded_vars(cs@, env@, s@);
            if t is Ok {
                assert(Seq::<char>::empty() + t->Ok_0 =~= t->Ok_0);
            }
        }
    }
    while i < cs.len()
        invariant
            i <= cs@.len(),
            cs@ == s@,
            goal == expanded(s@, env@),
            goal == with_head(out@, expanded_vars(cs@.skip(i as int), env@, s@)),
        decreases cs@.len() - i,
    {
        let ghost rest = cs@.skip(i as int);
        let ghost before = out@;
        if cs[i] != '$' {
            out.push(cs[i]);
            i += 1;
            proof {
                assert(rest.skip(1) =~= cs@.skip(i as int));
                let t = expanded_vars(cs@.skip(i as int), env@, s@);
                if t is Ok {
                    assert(before + (seq![rest[0]] + t->Ok_0) =~= out@ + t->Ok_0);
                }
            }
        } else if i + 1 < cs.len() && cs[i + 1] == '{' {
            let end = find_char(&cs, i + 2, '}');
            assert(rest.skip(2) =~= cs@.skip(i + 2));
            if end >= cs.len() - (i + 2) {
                return Err(PathError::Unterminated { path: s.to_string() });
            }
            let name = string_of(&cs, i + 2, i + 2 + end);
            assert(name@ =~= rest.subrange(2, 2 + end as int));
            match value_of(name, env, s) {
                Ok(v) => {
                    out.push_str(v.as_str());
                    i += 2 + end + 1;
                    proof {
                        assert(rest.skip(2 + end as int + 1) =~= cs@.skip(i as int));
                        let t = expanded_vars(cs@.skip(i as int), env@, s@);
                        if t is Ok {
                            assert(before + (v@ + t->Ok_0) =~= out@ + t->Ok_0);
                        }
                    }
                },
                Err(e) => return Err(e),
            }
        } else {
            let n = count_name_chars(&cs, i + 1);
            assert(rest.skip(1) =~= cs@.skip(i + 1));
            if n == 0 {
                out.push('$');
                i += 1;
                proof {
                    let t = expanded_vars(cs@.skip(i as int), env@, s@);
                    if t is Ok {
                        assert(before + (seq!['$'] + t->Ok_0) =~= out@ + t->Ok_0);
                    }
                }
            } else {
                let name = string_of(&cs, i + 1, i + 1 + n);
                assert(name@ =~= rest.subrange(1, 1 + n as int));
                match value_of(name, env, s) {
                    Ok(v) => {
                        out.push_str(v.as_str());
                        i += 1 + n;
                        proof {
                            assert(rest.skip(1 + n as int) =~= cs@.skip(i as int));
                            let t = expanded_vars(cs@.skip(i as int), env@, s@);
                            if t is Ok {
                                assert(before + (v@ + t->Ok_0) =~= out@ + t->Ok_0);
                            }
                        }
                    },
                    Err(e) => return Err(e),
                }
            }
        }
    }
    proof {
        assert(out@ + Seq::empty() =~= out@);
    }
    Ok(out)
}

/// The components of the path `cs`, as in [`segments`].
fn split_segments(cs: &Vec<char>) -> (r: Vec<Vec<char>>)
    ensures
        r@.map_values(|v: Vec<char>| v@) == segments(cs@),
{
    let mut out: Vec<Vec<char>> = Vec::new();
    let mut i: usize = 0;
    let ghost f = |v: Vec<char>| v@;
    assert(cs@.skip(0) =~= cs@);
    assert(out@.map_values(f) + segments(cs@) =~= segments(cs@));
    while i < cs.len()
        invariant
            i <= cs@.len(),
            f == (|v: Vec<char>| v@),
            out@.map_values(f) + segments(cs@.skip(i as int)) == segments(cs@),
        decreases cs@.len() - i,
    {
        let ghost rest = cs@.skip(i as int);
        let ghost before = out@;
        let n = find_char(cs, i, '/');
        let mut head: Vec<char> = Vec::new();
        let mut j: usize = i;
        let end: usize = i + n;
        while j < end
            invariant
                i <= j <= end <= cs@.len(),
                head@ == cs@.subrange(i as int, j as int),
            decreases end - j,
        {
            head.push(cs[j]);
            j += 1;
        }
        assert(head@ =~= rest.take(n as int));
        let ghost head_view = head@;
        let dot = head.len() == 1 && head[0] == '.';
        assert(dot == (head_view == seq!['.'])) by {
            if dot {
                assert(head_view =~= seq!['.']);
            }
        }
        let ghost tail = if n < rest.len() {
            segments(rest.skip(n + 1))
        } else {
            Seq::empty()
        };
        if head.len() > 0 && !dot {
            out.push(head);
            proof {
                assert(out@.map_values(f) =~= before.map_values(f).push(head_view));
                assert(before.map_values(f) + (seq![head_view] + tail) =~= out@.map_values(f) + tail);
            }
        }
        assert(out@.map_values(f) + tail == segments(cs@));
        if j < cs.len() {
            i = j + 1;
            assert(rest.skip(n + 1) =~= cs@.skip(i as int));
        } else {
            i = cs.len();
            assert(segments(cs@.skip(i as int)) =~= Seq::<Seq<char>>::empty());
        }
    }
    assert(segments(cs@.skip(i as int)) =~= Seq::<Seq<char>>::empty());
    assert(out@.map_values(f) + Seq::<Seq<char>>::empty() =~= out@.map_values(f));
    out
}

/// Whether the name of the file at `path` ends in a dot.
pub fn empty_extension(path: &str) -> (r: bool)
    ensures
        r == has_empty_extension(path@),
{
    let cs = chars_of(path);
    let parts = split_segments(&cs);
    let ghost f = |v: Vec<char>| v@;
    assert(parts@.map_values(f) == segments(path@));
    if parts.len() == 0 {
        return false;
    }
    let name = &parts[parts.len() - 1];
    assert(segments(path@).last() == name@);
    let parent = name.len() == 2 && name[0] == '.' && name[1] == '.';
    assert(parent == (name@ == seq!['.', '.'])) by {
        if parent {
            assert(name@ =~= seq!['.', '.']);
        }
    }
    name.len() >= 2 && name[name.len() - 1] == '.' && !parent
}

fn chars_eq(a: &Vec<char>, b: &Vec<char>) -> (r: bool)
    ensures
        r == (a@ == b@),
{
    if a.len() != b.len() {
        return false;
    }
    let mut i: usize = 0;
    while i < a.len()
        invariant
            i <= a@.len() == b@.len(),
            forall|j: int| 0 <= j < i ==> a@[j] == b@[j],
        decreases a@.len() - i,
    {
        if a[i] != b[i] {
            return false;
        }
        i += 1;
    }
    assert(a@ =~= b@);
    true
}

/// Whether `a` and `b` are the same path: repeated and trailing slashes and
/// inner `.` components make no difference.
pub fn same_path(a: &str, b: &str) -> (r: bool)
    ensures
        r == (path_key(a@) == path_key(b@)),
{
    let x = chars_of(a);
    let y = chars_of(b);
    let xr = x.len() > 0 && x[0] == '/';
    let yr = y.len() > 0 && y[0] == '/';
    let xd = x.len() > 0 && x[0] == '.' && find_char(&x, 0, '/') == 1;
    let yd = y.len() > 0 && y[0] == '.' && find_char(&y, 0, '/') == 1;
    assert(x@.skip(0) =~= x@);
    assert(y@.skip(0) =~= y@);
    if xr != yr || xd != yd {
        return false;
    }
    let xs = split_segments(&x);
    let ys = split_segments(&y);
    let ghost f = |v: Vec<char>| v@;
    assert(xs@.map_values(f) == segments(a@));
    assert(ys@.map_values(f) == segments(b@));
    if xs.len() != ys.len() {
        assert(segments(a@).len() != segments(b@).len());
        return false;
    }
    let mut i: usize = 0;
    while i < xs.len()
        invariant
            i <= xs@.len() == ys@.len(),
            f == (|v: Vec<char>| v@),
            xs@.map_values(f) == segments(a@),
            ys@.map_values(f) == segments(b@),
            forall|j: int| 0 <= j < i ==> (#[trigger] xs@[j])@ == ys@[j]@,
        decreases xs@.len() - i,
    {
        if !chars_eq(&xs[i], &ys[i]) {
            assert(xs@.map_values(f)[i as int] != ys@.map_values(f)[i as int]);
            return false;
        }
        i += 1;
    }
    assert(xs@.map_values(f) =~= ys@.map_values(f));
    true
}

/// Whether two optional paths are both absent, or present and the same.
pub open spec fn opt_path_key(p: Option<Seq<char>>) -> Option<(bool, bool, Seq<Seq<char>>)> {
    match p {
        Some(p) => Some(path_key(p)),
        None => None,
    }
}

/// [`same_path`] on optional paths.
pub fn same_opt_path(a: &Option<String>, b: &Option<String>) -> (r: bool)
    ensures
        r == (opt_path_key(text::opt_view(*a)) == opt_path_key(text::opt_view(*b))),
{
    match (a, b) {
        (Some(x), Some(y)) => same_path(x.as_str(), y.as_str()),
        (None, None) => true,
        _ => false,
    }
}

// -------------------------------------------------------------------- laws

proof fn lemma_no_references(s: Seq<char>, env: Map<Seq<char>, Seq<char>>, whole: Seq<char>)
    requires
        !s.contains('$'),
    ensures
        expanded_vars(s, env, whole) == Ok::<Seq<char>, PathFault>(s),
    decreases s.len(),
{
    if s.len() > 0 {
        assert(s[0] != '$');
        assert forall|i: int| 0 <= i < s.skip(1).len() implies s.skip(1)[i] != '$' by {
            assert(s.skip(1)[i] == s[i + 1]);
        }
        lemma_no_references(s.skip(1), env, whole);
        assert(seq![s[0]] + s.skip(1) =~= s);
    } else {
        assert(s =~= Seq::empty());
    }
}

/// A path without `$` that does not start at the home directory stays as it
/// is, a `~` further in included.
pub proof fn law_plain_path_unchanged(s: Seq<char>, env: Map<Seq<char>, Seq<char>>)
    requires
        !s.contains('$'),
        s.len() == 0 || s[0] != '~' || (s.len() > 1 && s[1] != '/'),
    ensures
        expanded(s, env) == Ok::<Seq<char>, PathFault>(s),
{
    lemma_no_references(s, env, s);
}

/// Made absolute, every path is, whatever it was; and one that is already stays
/// as it is.
pub proof fn law_absolute_path_is_absolute(base: Seq<char>, p: Seq<char>)
    requires
        is_absolute(base),
    ensures
        is_absolute(absolute_path(base, p)),
        absolute_path(base, absolute_path(base, p)) == absolute_path(base, p),
        is_absolute(p) ==> absolute_path(base, p) == p,
{
}

/// A leading `~/` stands for the home directory and nothing else changes in
/// the rest.
pub proof fn law_tilde_is_home(tail: Seq<char>, env: Map<Seq<char>, Seq<char>>)
    requires
        !tail.contains('$'),
        env.contains_key("HOME"@),
    ensures
        expanded(seq!['~', '/'] + tail, env) == Ok::<Seq<char>, PathFault>(
            env["HOME"@].push('/') + tail,
        ),
{
    let s = seq!['~', '/'] + tail;
    let rest = s.skip(1);
    assert(rest =~= seq!['/'] + tail);
    assert forall|i: int| 0 <= i < rest.len() implies rest[i] != '$' by {
        if i > 0 {
            assert(rest[i] == tail[i - 1]);
        }
    }
    lemma_no_references(rest, env, s);
    assert(env["HOME"@] + rest =~= env["HOME"@].push('/') + tail);
}

proof fn lemma_name_prefix(name: Seq<char>, rest: Seq<char>)
    requires
        forall|i: int| 0 <= i < name.len() ==> is_name_char(#[trigger] name[i]),
        rest.len() == 0 || !is_name_char(rest[0]),
    ensures
        name_len(name + rest) == name.len(),
    decreases name.len(),
{
    let s = name + rest;
    if name.len() > 0 {
        assert(s.drop_first() =~= name.drop_first() + rest);
        assert forall|i: int| 0 <= i < name.drop_first().len() implies is_name_char(
            #[trigger] name.drop_first()[i],
        ) by {
            assert(name.drop_first()[i] == name[i + 1]);
        }
        assert(s[0] == name[0]);
        lemma_name_prefix(name.drop_first(), rest);
    } else {
        assert(s =~= rest);
    }
}

proof fn lemma_brace_prefix(name: Seq<char>, rest: Seq<char>)
    requires
        forall|i: int| 0 <= i < name.len() ==> is_name_char(#[trigger] name[i]),
    ensures
        first_of(name + seq!['}'] + rest, '}') == name.len(),
    decreases name.len(),
{
    let s = name + seq!['}'] + rest;
    if name.len() > 0 {
        assert(s.drop_first() =~= name.drop_first() + seq!['}'] + rest);
        assert forall|i: int| 0 <= i < name.drop_first().len() implies is_name_char(
            #[trigger] name.drop_first()[i],
        ) by {
            assert(name.drop_first()[i] == name[i + 1]);
        }
        assert(is_name_char(name[0]));
        assert(s[0] == name[0]);
        lemma_brace_prefix(name.drop_first(), rest);
    } else {
        assert(s[0] == '}');
    }
}

/// `${NAME}` and `$NAME` mean the same where the name ends by itself.
pub proof fn law_braces_are_optional(
    name: Seq<char>,
    rest: Seq<char>,
    env: Map<Seq<char>, Seq<char>>,
    whole: Seq<char>,
)
    requires
        name.len() > 0,
        forall|i: int| 0 <= i < name.len() ==> is_name_char(#[trigger] name[i]),
        rest.len() == 0 || !is_name_char(rest[0]),
    ensures
        expanded_vars(seq!['$', '{'] + name + seq!['}'] + rest, env, whole) == expanded_vars(
            seq!['$'] + name + rest,
            env,
            whole,
        ),
{
    let a = seq!['$', '{'] + name + seq!['}'] + rest;
    let b = seq!['$'] + name + rest;
    lemma_brace_prefix(name, rest);
    lemma_name_prefix(name, rest);
    assert(a.skip(2) =~= name + seq!['}'] + rest);
    assert(a.subrange(2, 2 + name.len() as int) =~= name);
    assert(a.skip(2 + name.len() as int + 1) =~= rest);
    assert(b.skip(1) =~= name + rest);
    assert(is_name_char(name[0]));
    assert(b[1] == name[0]);
    assert(b.subrange(1, 1 + name.len() as int) =~= name);
    assert(b.skip(1 + name.len() as int) =~= rest);
}

/// A path component is put behind a directory with exactly one slash between
/// them.
pub proof fn law_joining_adds_one_slash(base: Seq<char>, comp: Seq<char>)
    requires
        base.len() > 0,
    ensures
        base.last() != '/' ==> joined(base, comp) == base + seq!['/'] + comp,
        base.last() == '/' ==> joined(base, comp) == base + comp,
        joined(seq![], comp) == comp,
{
    assert(base.push('/') + comp =~= base + seq!['/'] + comp);
    assert(Seq::<char>::empty() + comp =~= comp);
}

/// A relative path starts at the base directory; an absolute one stays.
pub proof fn law_relative_paths_start_at_the_base(base: Seq<char>, p: Seq<char>)
    requires
        base.len() > 0,
        base.last() != '/',
    ensures
        p.len() > 0 && p[0] == '/' ==> absolute_path(base, p) == p,
        p.len() == 0 || p[0] != '/' ==> absolute_path(base, p) == base + seq!['/'] + p,
        is_absolute(p) <==> p.len() > 0 && p[0] == '/',
{
    law_joining_adds_one_slash(base, p);
}

/// The configuration file is `niribg/config.toml` in the configuration directory
/// that is set, or in `.config` at home; without either it cannot be located.
pub proof fn law_where_the_config_is(env: Map<Seq<char>, Seq<char>>)
    ensures
        env.contains_key("XDG_CONFIG_HOME"@) ==> config_location(env) == Ok::<
            Seq<char>,
            PathFault,
        >(joined(joined(env["XDG_CONFIG_HOME"@], "niribg"@), "config.toml"@)),
        !env.contains_key("XDG_CONFIG_HOME"@) && env.contains_key("HOME"@) ==> config_location(env)
            == Ok::<Seq<char>, PathFault>(
            joined(joined(joined(env["HOME"@], ".config"@), "niribg"@), "config.toml"@),
        ),
        !env.contains_key("XDG_CONFIG_HOME"@) && !env.contains_key("HOME"@) ==> config_location(env)
            == Err::<Seq<char>, PathFault>(PathFault::HomeNotSet),
{
}

/// The overrides are kept in `niribg/state.json` in the state directory that is
/// set, or in `.local/state` at home.
pub proof fn law_where_the_state_is(env: Map<Seq<char>, Seq<char>>)
    ensures
        env.contains_key("XDG_STATE_HOME"@) ==> state_location(env) == Ok::<Seq<char>, PathFault>(
            joined(joined(env["XDG_STATE_HOME"@], "niribg"@), "state.json"@),
        ),
        !env.contains_key("XDG_STATE_HOME"@) && env.contains_key("HOME"@) ==> state_location(env)
            == Ok::<Seq<char>, PathFault>(
            joined(
                joined(joined(joined(env["HOME"@], ".local"@), "state"@), "niribg"@),
                "state.json"@,
            ),
        ),
        !env.contains_key("XDG_STATE_HOME"@) && !env.contains_key("HOME"@) ==> state_location(env)
            == Err::<Seq<char>, PathFault>(PathFault::HomeNotSet),
{
}

/// The control socket is in the runtime directory, which has to be set, and is
/// named after the display; a display without a slash goes by its whole name.
pub proof fn law_where_the_socket_is(env: Map<Seq<char>, Seq<char>>)
    ensures
        !env.contains_key("XDG_RUNTIME_DIR"@) ==> socket_location(env) == Err::<
            Seq<char>,
            PathFault,
        >(PathFault::RuntimeDirNotSet),
        env.contains_key("XDG_RUNTIME_DIR"@) && env.contains_key("WAYLAND_DISPLAY"@)
            && !env["WAYLAND_DISPLAY"@].contains('/') ==> socket_location(env) == Ok::<
            Seq<char>,
            PathFault,
        >(
            joined(
                env["XDG_RUNTIME_DIR"@],
                "niribg-"@ + env["WAYLAND_DISPLAY"@] + ".sock"@,
            ),
        ),
        env.contains_key("XDG_RUNTIME_DIR"@) && !env.contains_key("WAYLAND_DISPLAY"@)
            ==> socket_location(env) == Ok::<Seq<char>, PathFault>(
            joined(env["XDG_RUNTIME_DIR"@], "niribg-"@ + "wayland-0"@ + ".sock"@),
        ),
{
    if env.contains_key("WAYLAND_DISPLAY"@) {
        if !env["WAYLAND_DISPLAY"@].contains('/') {
            lemma_last_component_whole(env["WAYLAND_DISPLAY"@]);
        }
    } else {
        reveal_strlit("wayland-0");
        assert(!"wayland-0"@.contains('/'));
        lemma_last_component_whole("wayland-0"@);
    }
}

proof fn lemma_last_component_whole(s: Seq<char>)
    requires
        !s.contains('/'),
    ensures
        last_component(s) == s,
    decreases s.len(),
{
    if s.len() > 0 {
        assert(s.contains(s.last()));
        let head = s.drop_last();
        assert forall|i: int| 0 <= i < head.len() implies head[i] != '/' by {
            assert(s[i] == head[i]);
            assert(s.contains(s[i]));
        }
        lemma_last_component_whole(head);
        assert(head.push(s.last()) =~= s);
    } else {
        assert(s =~= Seq::empty());
    }
}

/// Of a text with slashes the last component is what follows the last of them.
pub proof fn law_last_component_follows_the_last_slash(head: Seq<char>, tail: Seq<char>)
    requires
        !tail.contains('/'),
    ensures
        last_component(head + seq!['/'] + tail) == tail,
        last_component(tail) == tail,
    decreases tail.len(),
{
    let s = head + seq!['/'] + tail;
    lemma_last_component_whole(tail);
    if tail.len() > 0 {
        let t = tail.drop_last();
        assert(tail.contains(tail.last()));
        assert forall|i: int| 0 <= i < t.len() implies t[i] != '/' by {
            assert(tail[i] == t[i]);
            assert(tail.contains(tail[i]));
        }
        law_last_component_follows_the_last_slash(head, t);
        assert(s.drop_last() =~= head + seq!['/'] + t);
        assert(t.push(tail.last()) =~= tail);
    } else {
        assert(s.last() == '/');
        assert(tail =~= Seq::empty());
    }
}

/// Of several pairs of one name the first counts, and an empty value makes the
/// variable unset; other variables are not affected.
pub proof fn law_first_pair_counts(
    pair: (String, String),
    rest: Seq<(String, String)>,
    other: Seq<char>,
)
    ensures
        ({
            let env = env_map(seq![pair] + rest);
            &&& pair.1@.len() > 0 ==> lookup(env, pair.0@) == Some(pair.1@)
            &&& pair.1@.len() == 0 ==> lookup(env, pair.0@) is None
            &&& other != pair.0@ ==> lookup(env, other) == lookup(env_map(rest), other)
        }),
        lookup(env_map(Seq::empty()), other) is None,
{
    let all = seq![pair] + rest;
    assert(all.drop_first() =~= rest);
    assert(all[0] == pair);
}

/// Text without references is copied: expansion goes on behind it.
pub proof fn law_plain_text_is_copied(
    plain: Seq<char>,
    rest: Seq<char>,
    env: Map<Seq<char>, Seq<char>>,
    whole: Seq<char>,
)
    requires
        !plain.contains('$'),
    ensures
        expanded_vars(plain + rest, env, whole) == with_head(
            plain,
            expanded_vars(rest, env, whole),
        ),
    decreases plain.len(),
{
    let s = plain + rest;
    if plain.len() > 0 {
        assert(plain.contains(plain[0]));
        let tail = plain.skip(1);
        assert forall|i: int| 0 <= i < tail.len() implies tail[i] != '$' by {
            assert(plain[i + 1] == tail[i]);
            assert(plain.contains(plain[i + 1]));
        }
        law_plain_text_is_copied(tail, rest, env, whole);
        assert(s.skip(1) =~= tail + rest);
        let t = expanded_vars(rest, env, whole);
        if t is Ok {
            assert(seq![plain[0]] + (tail + t->Ok_0) =~= plain + t->Ok_0);
        }
    } else {
        assert(s =~= rest);
        let t = expanded_vars(rest, env, whole);
        if t is Ok {
            assert(plain + t->Ok_0 =~= t->Ok_0);
        }
    }
}

/// A reference to a variable is replaced by its value and by nothing else, and
/// one to a variable that is not set is an error that names it and the whole
/// path.
pub proof fn law_reference_is_replaced(
    name: Seq<char>,
    rest: Seq<char>,
    env: Map<Seq<char>, Seq<char>>,
    whole: Seq<char>,
)
    requires
        name.len() > 0,
        forall|i: int| 0 <= i < name.len() ==> is_name_char(#[trigger] name[i]),
        rest.len() == 0 || !is_name_char(rest[0]),
    ensures
        env.contains_key(name) ==> expanded_vars(seq!['$'] + name + rest, env, whole) == with_head(
            env[name],
            expanded_vars(rest, env, whole),
        ),
        !env.contains_key(name) ==> expanded_vars(seq!['$'] + name + rest, env, whole) == Err::<
            Seq<char>,
            PathFault,
        >(PathFault::VarNotSet { name, path: whole }),
{
    let b = seq!['$'] + name + rest;
    lemma_name_prefix(name, rest);
    assert(b.skip(1) =~= name + rest);
    assert(is_name_char(name[0]));
    assert(b[1] == name[0]);
    assert(b.subrange(1, 1 + name.len() as int) =~= name);
    assert(b.skip(1 + name.len() as int) =~= rest);
}

/// A `$` that no name and no brace follows stays, and a brace that is never
/// closed is an error that names the whole path.
pub proof fn law_lone_dollar_and_open_brace(
    rest: Seq<char>,
    env: Map<Seq<char>, Seq<char>>,
    whole: Seq<char>,
)
    ensures
        rest.len() == 0 || rest[0] != '{' && !is_name_char(rest[0]) ==> expanded_vars(
            seq!['$'] + rest,
            env,
            whole,
        ) == with_head(seq!['$'], expanded_vars(rest, env, whole)),
        !rest.contains('}') ==> expanded_vars(seq!['$', '{'] + rest, env, whole) == Err::<
            Seq<char>,
            PathFault,
        >(PathFault::Unterminated { path: whole }),
{
    let a = seq!['$'] + rest;
    assert(a.skip(1) =~= rest);
    let b = seq!['$', '{'] + rest;
    assert(b.skip(2) =~= rest);
    if !rest.contains('}') {
        lemma_not_found(rest, '}');
    }
}

proof fn lemma_not_found(s: Seq<char>, c: char)
    requires
        !s.contains(c),
    ensures
        first_of(s, c) == s.len(),
    decreases s.len(),
{
    if s.len() > 0 {
        assert(s.contains(s[0]));
        let t = s.drop_first();
        assert forall|i: int| 0 <= i < t.len() implies t[i] != c by {
            assert(s[i + 1] == t[i]);
            assert(s.contains(s[i + 1]));
        }
        lemma_not_found(t, c);
    }
}

/// The characters of a reference's name are the letters and digits of ASCII and
/// the underscore.
pub proof fn law_name_characters(c: char)
    ensures
        is_name_char(c) <==> 48 <= c as u32 <= 57 || 65 <= c as u32 <= 90 || 97 <= c as u32 <= 122
            || c as u32 == 95,
{
}

/// The absolute path with these components.
pub open spec fn path_of(parts: Seq<Seq<char>>) -> Seq<char>
    decreases parts.len(),
{
    if parts.len() == 0 {
        Seq::empty()
    } else {
        seq!['/'] + parts[0] + path_of(parts.drop_first())
    }
}

/// Whether this can stand between two slashes as a component of its own.
pub open spec fn is_component(p: Seq<char>) -> bool {
    p.len() > 0 && !p.contains('/') && p != seq!['.']
}

/// The components of a path are what it was made of.
pub proof fn law_components_come_back(parts: Seq<Seq<char>>)
    requires
        forall|i: int| 0 <= i < parts.len() ==> is_component(#[trigger] parts[i]),
    ensures
        segments(path_of(parts)) == parts,
    decreases parts.len(),
{
    if parts.len() > 0 {
        let rest = parts.drop_first();
        assert forall|i: int| 0 <= i < rest.len() implies is_component(#[trigger] rest[i]) by {
            assert(rest[i] == parts[i + 1]);
        }
        law_components_come_back(rest);
        let p = path_of(parts);
        assert(is_component(parts[0]));
        let body = parts[0] + path_of(rest);
        assert(p.skip(1) =~= body);
        assert(first_of(p, '/') == 0);
        assert(p.take(0) =~= Seq::empty());
        assert(segments(p) == segments(body));
        lemma_first_slash(parts[0], path_of(rest));
        let n = parts[0].len() as int;
        assert(body.take(n) =~= parts[0]);
        if rest.len() > 0 {
            let behind = path_of(rest);
            assert(behind[0] == '/');
            assert(body.skip((n + 1) as int) =~= behind.skip(1));
            assert(first_of(behind, '/') == 0);
            assert(behind.take(0) =~= Seq::empty());
            assert(segments(behind) == segments(behind.skip(1)));
            assert(segments(body) =~= seq![parts[0]] + segments(behind.skip(1)));
        } else {
            assert(path_of(rest) =~= Seq::empty());
            assert(body =~= parts[0]);
            assert(segments(body) =~= seq![parts[0]] + Seq::<Seq<char>>::empty());
            assert(rest =~= Seq::empty());
        }
        assert(seq![parts[0]] + rest =~= parts);
    } else {
        assert(parts =~= Seq::empty());
    }
}

proof fn lemma_first_slash(a: Seq<char>, b: Seq<char>)
    requires
        !a.contains('/'),
        b.len() == 0 || b[0] == '/',
    ensures
        first_of(a + b, '/') == a.len(),
    decreases a.len(),
{
    let s = a + b;
    if a.len() > 0 {
        assert(a.contains(a[0]));
        let t = a.drop_first();
        assert forall|i: int| 0 <= i < t.len() implies t[i] != '/' by {
            assert(a[i + 1] == t[i]);
            assert(a.contains(a[i + 1]));
        }
        assert(s.drop_first() =~= t + b);
        lemma_first_slash(t, b);
    } else {
        assert(s =~= b);
    }
}

/// Two absolute paths are the same path exactly if they have the same
/// components, in the same order.
pub proof fn law_paths_differ_in_a_component(a: Seq<Seq<char>>, b: Seq<Seq<char>>)
    requires
        a.len() > 0,
        b.len() > 0,
        forall|i: int| 0 <= i < a.len() ==> is_component(#[trigger] a[i]),
        forall|i: int| 0 <= i < b.len() ==> is_component(#[trigger] b[i]),
    ensures
        path_key(path_of(a)) == path_key(path_of(b)) <==> a == b,
        opt_path_key(Some(path_of(a))) == opt_path_key(Some(path_of(b))) <==> a == b,
        opt_path_key(Some(path_of(a))) != opt_path_key(None),
{
    law_components_come_back(a);
    law_components_come_back(b);
    assert(path_of(a)[0] == '/');
    assert(path_of(b)[0] == '/');
}

/// The components of two paths joined by a slash are those of the first followed
/// by those of the second: slashes too many, and ones at an end, do not count.
pub proof fn law_components_add_up(a: Seq<char>, b: Seq<char>)
    ensures
        segments(a + seq!['/'] + b) == segments(a) + segments(b),
    decreases a.len(),
{
    let s = a + seq!['/'] + b;
    let n = first_of(a, '/');
    lemma_first_of_both(a, seq!['/'] + b);
    assert(s =~= a + (seq!['/'] + b));
    if n < a.len() {
        assert(s.take(n as int) =~= a.take(n as int));
        assert(s.skip((n + 1) as int) =~= a.skip((n + 1) as int) + seq!['/'] + b);
        law_components_add_up(a.skip((n + 1) as int), b);
        let head = a.take(n as int);
        assert(seq![head] + (segments(a.skip((n + 1) as int)) + segments(b)) =~= (seq![head] + segments(
            a.skip((n + 1) as int),
        )) + segments(b));
    } else {
        assert(s.take(n as int) =~= a);
        assert(a.take(n as int) =~= a);
        assert(s.skip((n + 1) as int) =~= b);
        assert(Seq::<Seq<char>>::empty() + segments(b) =~= segments(b));
        if a.len() > 0 {
            assert(segments(a) + segments(b) =~= segments(s));
        } else {
            assert(segments(s) == segments(b));
        }
    }
}

proof fn lemma_first_of_both(a: Seq<char>, b: Seq<char>)
    requires
        b.len() > 0,
        b[0] == '/',
    ensures
        first_of(a, '/') <= a.len(),
        first_of(a + b, '/') == first_of(a, '/'),
    decreases a.len(),
{
    if a.len() > 0 && a[0] != '/' {
        assert((a + b).drop_first() =~= a.drop_first() + b);
        lemma_first_of_both(a.drop_first(), b);
    } else if a.len() == 0 {
        assert(a + b =~= b);
    }
}

/// What each path error says.
pub proof fn law_path_error_texts(path: Seq<char>, name: Seq<char>)
    ensures
        fault_text(PathFault::HomeNotSet) == "$HOME is not set"@,
        fault_text(PathFault::RuntimeDirNotSet)
            == "$XDG_RUNTIME_DIR is not set; cannot locate the control socket"@,
        fault_text(PathFault::Unterminated { path }) == "unterminated ${...} in path "@
            + text::quoted(path),
        fault_text(PathFault::VarNotSet { name, path }) == "environment variable $"@ + name
            + " (referenced in "@ + text::quoted(path) + ") is not set"@,
{
}

/// A `~` that stands alone or before a slash is the home directory, and needs one
/// to be set; any other text without references stays as it is.
pub proof fn law_tilde_is_the_home_directory(s: Seq<char>, env: Map<Seq<char>, Seq<char>>)
    requires
        !s.contains('$'),
    ensures
        ({
            let tilde = s == seq!['~'] || s.len() >= 2 && s[0] == '~' && s[1] == '/';
            &&& !tilde ==> expanded(s, env) == Ok::<Seq<char>, PathFault>(s)
            &&& tilde && env.contains_key("HOME"@) ==> expanded(s, env) == Ok::<
                Seq<char>,
                PathFault,
            >(env["HOME"@] + s.skip(1))
            &&& tilde && !env.contains_key("HOME"@) ==> expanded(s, env) == Err::<
                Seq<char>,
                PathFault,
            >(PathFault::HomeNotSet)
        }),
{
    let none = Seq::<char>::empty();
    law_plain_text_is_copied(s, none, env, s);
    assert(s + none =~= s);
    if s.len() == 1 && s[0] == '~' {
        assert(s =~= seq!['~']);
    }
    if s.len() > 0 {
        let rest = s.skip(1);
        assert(!rest.contains('$')) by {
            if rest.contains('$') {
                assert(s[rest.index_of('$') + 1] == '$');
            }
        }
        law_plain_text_is_copied(rest, none, env, s);
        assert(rest + none =~= rest);
    }
}

/// A component that is a single dot does not count.
pub proof fn law_single_dots_do_not_count(a: Seq<char>, b: Seq<char>)
    ensures
        segments(a + seq!['/'] + (seq!['.'] + seq!['/'] + b)) == segments(a) + segments(b),
{
    let dot = seq!['.'];
    law_components_add_up(a, dot + seq!['/'] + b);
    law_components_add_up(dot, b);
    assert(segments(dot) =~= Seq::<Seq<char>>::empty()) by {
        lemma_no_slash(dot);
        assert(dot.take(1) =~= dot);
    }
    assert(Seq::<Seq<char>>::empty() + segments(b) =~= segments(b));
}

proof fn lemma_no_slash(s: Seq<char>)
    requires
        forall|i: int| 0 <= i < s.len() ==> s[i] != '/',
    ensures
        first_of(s, '/') == s.len(),
    decreases s.len(),
{
    if s.len() > 0 {
        assert(s[0] != '/');
        assert forall|i: int| 0 <= i < s.drop_first().len() implies s.drop_first()[i] != '/' by {
            assert(s.drop_first()[i] == s[i + 1]);
        }
        lemma_no_slash(s.drop_first());
    }
}

/// Paths are told apart by where they start: at the root, at an explicit `.`, or
/// elsewhere.
pub proof fn law_paths_differ_in_where_they_start(p: Seq<char>)
    ensures
        path_key(p).0 <==> p.len() > 0 && p[0] == '/',
        path_key(p).1 <==> p == seq!['.'] || p.len() >= 2 && p[0] == '.' && p[1] == '/',
        path_key(p).2 == segments(p),
{
    reveal_with_fuel(first_of, 3);
    if p.len() == 1 && p[0] == '.' {
        assert(p =~= seq!['.']);
    }
    if p.len() >= 2 {
        assert(p.drop_first()[0] == p[1]);
    }
}

/// The extension of a file is empty exactly if its name ends in a dot behind
/// something else, other than the two dots that mean the parent.
pub proof fn law_when_an_extension_is_empty(dir: Seq<char>, name: Seq<char>)
    requires
        name.len() > 0,
        forall|i: int| 0 <= i < name.len() ==> name[i] != '/',
        name != seq!['.'],
    ensures
        has_empty_extension(dir + seq!['/'] + name) <==> name.last() == '.' && name != seq!['.', '.'],
{
    law_components_add_up(dir, name);
    lemma_no_slash(name);
    assert(name.take(name.len() as int) =~= name);
    assert(segments(name) =~= seq![name]);
    let all = segments(dir) + seq![name];
    assert(all.last() == name);
    if name.len() == 1 && name.last() == '.' {
        assert(name =~= seq!['.']);
    }
}

} // verus!
