//! The description of a command to run: program, arguments, environment
//! overrides and working directory.

use vstd::prelude::*;
use vstd::string::StringExecFns;

verus! {

/// One explicit environment mapping: the key, and the value that is set for
/// it, or `None` where the key is withheld from the child.
pub type EnvEntry = (Seq<char>, Option<Seq<char>>);

/// The order of the environment keys: by the first character in which two
/// keys differ, and a key before each key that it begins.
pub open spec fn key_lt(a: Seq<char>, b: Seq<char>) -> bool
    decreases a.len(),
{
    if b.len() == 0 {
        false
    } else if a.len() == 0 {
        true
    } else if a[0] != b[0] {
        (a[0] as u32) < (b[0] as u32)
    } else {
        key_lt(a.skip(1), b.skip(1))
    }
}

/// The mappings are in the order of their keys, and no key occurs twice.
pub open spec fn envs_sorted(envs: Seq<EnvEntry>) -> bool {
    forall|i: int, j: int| 0 <= i < j < envs.len() ==> key_lt(envs[i].0, envs[j].0)
}

/// The mappings with that of `key` set to `value`: in place of the earlier
/// mapping of the key if there is one, else at the key's place in the order.
pub open spec fn env_set(envs: Seq<EnvEntry>, key: Seq<char>, value: Option<Seq<char>>) -> Seq<
    EnvEntry,
>
    decreases envs.len(),
{
    if envs.len() == 0 {
        seq![(key, value)]
    } else if envs[0].0 == key {
        seq![(key, value)] + envs.skip(1)
    } else if key_lt(key, envs[0].0) {
        seq![(key, value)] + envs
    } else {
        seq![envs[0]] + env_set(envs.skip(1), key, value)
    }
}

/// The mappings without that of `key`.
pub open spec fn env_unset(envs: Seq<EnvEntry>, key: Seq<char>) -> Seq<EnvEntry>
    decreases envs.len(),
{
    if envs.len() == 0 {
        envs
    } else if envs[0].0 == key {
        envs.skip(1)
    } else {
        seq![envs[0]] + env_unset(envs.skip(1), key)
    }
}

/// The mappings with each key of `vars` set to its value, one after the
/// other.
pub open spec fn env_set_all(envs: Seq<EnvEntry>, vars: Seq<(Seq<char>, Seq<char>)>) -> Seq<
    EnvEntry,
>
    decreases vars.len(),
{
    if vars.len() == 0 {
        envs
    } else {
        env_set(env_set_all(envs, vars.drop_last()), vars.last().0, Some(vars.last().1))
    }
}

/// What the mappings hold for `key`: `None` where the key has no mapping.
pub open spec fn env_get(envs: Seq<EnvEntry>, key: Seq<char>) -> Option<Option<Seq<char>>>
    decreases envs.len(),
{
    if envs.len() == 0 {
        None
    } else if envs[0].0 == key {
        Some(envs[0].1)
    } else {
        env_get(envs.skip(1), key)
    }
}

/// The mathematical content of a [`LocalCommand`].
pub struct LocalCommandView {
    pub program: Seq<char>,
    pub args: Seq<Seq<char>>,
    /// The explicit environment mappings: a key with `Some` value is set for
    /// the child, a key with `None` is withheld from it.
    pub envs: Seq<EnvEntry>,
    /// Whether the child inherits nothing from the environment of its parent.
    pub env_clear: bool,
    pub current_dir: Option<Seq<char>>,
}

impl LocalCommandView {
    /// The command that runs `program` with no arguments, in the
    /// environment and the directory of its parent.
    pub open spec fn of_program(program: Seq<char>) -> LocalCommandView {
        LocalCommandView {
            program,
            args: Seq::empty(),
            envs: Seq::empty(),
            env_clear: false,
            current_dir: None,
        }
    }
}

/// A command to run, passed literally to the operating system: no shell
/// reads the arguments.
#[derive(Debug, Clone, PartialEq, Eq)]
pub struct LocalCommand {
    program: String,
    args: Vec<String>,
    envs: Vec<(String, Option<String>)>,
    env_clear: bool,
    current_dir: Option<String>,
}

impl View for LocalCommand {
    type V = LocalCommandView;

    closed spec fn view(&self) -> LocalCommandView {
        LocalCommandView {
            program: self.program@,
            args: self.args.deep_view(),
            envs: self.envs.deep_view(),
            env_clear: self.env_clear,
            current_dir: self.current_dir.deep_view(),
        }
    }
}

impl DeepView for LocalCommand {
    type V = LocalCommandView;

    open spec fn deep_view(&self) -> LocalCommandView {
        self@
    }
}

/// The characters of a string.
fn chars_of(s: &str) -> (r: Vec<char>)
    ensures
        r@ == s@,
{
    let mut r: Vec<char> = Vec::new();
    for c in it: s.chars()
        invariant
            it.seq() == s@,
            r@ == s@.take(it.index() as int),
    {
        r.push(c);
    }
    r
}

/// Whether the key `a` comes before the key `b`.
fn comes_before(a: &Vec<char>, b: &Vec<char>) -> (r: bool)
    ensures
        r == key_lt(a@, b@),
{
    let mut i: usize = 0;
    assert(a@.skip(0) =~= a@);
    assert(b@.skip(0) =~= b@);
    while i < a.len() && i < b.len()
        invariant
            i <= a.len(),
            i <= b.len(),
            key_lt(a@, b@) == key_lt(a@.skip(i as int), b@.skip(i as int)),
        decreases a.len() - i,
    {
        if a[i] != b[i] {
            return (a[i] as u32) < (b[i] as u32);
        }
        assert(a@.skip(i as int).skip(1) =~= a@.skip(i + 1));
        assert(b@.skip(i as int).skip(1) =~= b@.skip(i + 1));
        i = i + 1;
    }
    i < b.len()
}

impl LocalCommand {
    pub fn new(program: &str) -> (r: LocalCommand)
        ensures
            r@ == LocalCommandView::of_program(program@),
            envs_sorted(r@.envs),
    {
        let r = LocalCommand {
            program: String::from_str(program),
            args: Vec::new(),
            envs: Vec::new(),
            env_clear: false,
            current_dir: None,
        };
        assert(r.args.deep_view() =~= Seq::empty());
        assert(r.envs.deep_view() =~= Seq::empty());
        r
    }

    /// Adds an argument to pass to the program.
    ///
    /// Only one argument can be passed per use. To pass multiple arguments see
    /// [`args`](LocalCommand::args).
    ///
    /// Note that the argument is not passed through a shell, but given
    /// literally to the program. This means that shell syntax like quotes,
    /// escaped characters, word splitting, glob patterns, variable substitution, etc.
    /// have no effect.
    pub fn arg(self, arg: &str) -> (r: LocalCommand)
        ensures
            r@ == (LocalCommandView { args: self@.args.push(arg@), ..self@ }),
    {
        let mut r = self;
        r.args.push(String::from_str(arg));
        assert(r.args.deep_view() =~= self.args.deep_view().push(arg@));
        r
    }

    /// Returns the path to the program that was given to [`LocalCommand::new`].
    pub fn get_program(&self) -> (r: &str)
        ensures
            r@ == self@.program,
    {
        self.program.as_str()
    }

    /// Returns the arguments that will be passed to the program, in order.
    ///
    /// This does not include the path to the program as the first argument;
    /// it only includes the arguments specified with [`LocalCommand::arg`] and
    /// [`LocalCommand::args`].
    pub fn get_args(&self) -> (r: &Vec<String>)
        ensures
            r.deep_view() == self@.args,
    {
        &self.args
    }
    /// Adds multiple arguments to pass to the program.
    ///
    /// To pass a single argument see [`arg`](LocalCommand::arg).
    ///
    /// Note that the arguments are not passed through a shell, but given
    /// literally to the program. This means that shell syntax like quotes,
    /// escaped characters, word splitting, glob patterns, variable substitution, etc.
    /// have no effect.
    pub fn args(self, args: Vec<&str>) -> (r: LocalCommand)
        ensures
            r@ == (LocalCommandView { args: self@.args + args.deep_view(), ..self@ }),
    {
        let mut r = self;
        let mut i: usize = 0;
        while i < args.len()
            invariant
                i <= args.len(),
                r@ == (LocalCommandView {
                    args: self@.args + args.deep_view().take(i as int),
                    ..self@
                }),
            decreases args.len() - i,
        {
            let ghost before = r@.args;
            r = r.arg(args[i]);
            assert(before.push(args[i as int]@) =~= self@.args + args.deep_view().take(i + 1));
            i = i + 1;
        }
        assert(args.deep_view().take(args.len() as int) =~= args.deep_view());
        r
    }

    /// Sets the mapping of `key` to `value` in the explicit environment.
    fn set_env(&mut self, key: &str, value: Option<String>)
        ensures
            final(self)@ == (LocalCommandView {
                envs: env_set(old(self)@.envs, key@, value.deep_view()),
                ..old(self)@
            }),
    {
        let ghost before = self.envs.deep_view();
        let ghost entry = (key@, value.deep_view());
        let key_chars = chars_of(key);
        let key_owned = String::from_str(key);
        let mut i: usize = 0;
        assert(before.skip(0) =~= before);
        while i < self.envs.len()
            invariant
                i <= self.envs.len(),
                self.envs == old(self).envs,
                before == old(self).envs.deep_view(),
                key_chars@ == key@,
                key_owned@ == key@,
                entry == (key@, value.deep_view()),
                env_set(before, key@, value.deep_view()) == before.take(i as int) + env_set(
                    before.skip(i as int),
                    key@,
                    value.deep_view(),
                ),
                self.program == old(self).program,
                self.args == old(self).args,
                self.env_clear == old(self).env_clear,
                self.current_dir == old(self).current_dir,
            decreases self.envs.len() - i,
        {
            let ghost rest = before.skip(i as int);
            assert(rest.skip(1) =~= before.skip(i + 1));
            if self.envs[i].0 == key_owned {
                self.envs.remove(i);
                self.envs.insert(i, (key_owned, value));
                proof {
                    let now = self.envs.deep_view();
                    let goal = before.take(i as int) + (seq![entry] + rest.skip(1));
                    assert forall|j: int| 0 <= j < now.len() implies now[j] == goal[j] by {
                        if j < i {
                            assert(self.envs@[j] == old(self).envs@[j]);
                        } else if j > i {
                            assert(self.envs@[j] == old(self).envs@[j]);
                        } else {
                            assert(goal[j] == (seq![entry] + rest.skip(1))[0]);
                        }
                    }
                    assert(now =~= goal);
                }
                return ;
            }
            let other = chars_of(self.envs[i].0.as_str());
            if comes_before(&key_chars, &other) {
                self.envs.insert(i, (key_owned, value));
                proof {
                    let now = self.envs.deep_view();
                    let goal = before.take(i as int) + (seq![entry] + rest);
                    assert forall|j: int| 0 <= j < now.len() implies now[j] == goal[j] by {
                        if j < i {
                            assert(self.envs@[j] == old(self).envs@[j]);
                        } else if j > i {
                            assert(self.envs@[j] == old(self).envs@[j - 1]);
                        } else {
                            assert(goal[j] == (seq![entry] + rest)[0]);
                        }
                    }
                    assert(now =~= goal);
                }
                return ;
            }
            i = i + 1;
        }
        self.envs.push((key_owned, value));
        proof {
            let now = self.envs.deep_view();
            let goal = before.take(i as int) + seq![entry];
            assert forall|j: int| 0 <= j < now.len() implies now[j] == goal[j] by {
                if j < i {
                    assert(self.envs@[j] == old(self).envs@[j]);
                }
            }
            assert(now =~= goal);
        }
    }

    /// Takes the mapping of `key` out of the explicit environment.
    fn unset_env(&mut self, key: &str)
        ensures
            final(self)@ == (LocalCommandView {
                envs: env_unset(old(self)@.envs, key@),
                ..old(self)@
            }),
    {
        let ghost before = self.envs.deep_view();
        let key_owned = String::from_str(key);
        let mut i: usize = 0;
        assert(before.skip(0) =~= before);
        while i < self.envs.len()
            invariant
                i <= self.envs.len(),
                self.envs == old(self).envs,
                before == old(self).envs.deep_view(),
                key_owned@ == key@,
                env_unset(before, key@) == before.take(i as int) + env_unset(
                    before.skip(i as int),
                    key@,
                ),
                self.program == old(self).program,
                self.args == old(self).args,
                self.env_clear == old(self).env_clear,
                self.current_dir == old(self).current_dir,
            decreases self.envs.len() - i,
        {
            let ghost rest = before.skip(i as int);
            assert(rest.skip(1) =~= before.skip(i + 1));
            if self.envs[i].0 == key_owned {
                self.envs.remove(i);
                proof {
                    let now = self.envs.deep_view();
                    let goal = before.take(i as int) + rest.skip(1);
                    assert forall|j: int| 0 <= j < now.len() implies now[j] == goal[j] by {
                        if j < i {
                            assert(self.envs@[j] == old(self).envs@[j]);
                        } else {
                            assert(self.envs@[j] == old(self).envs@[j + 1]);
                        }
                    }
                    assert(now =~= goal);
                }
                return ;
            }
            i = i + 1;
        }
    }

    /// Inserts or updates an explicit environment variable mapping.
    ///
    /// This method allows you to add an environment variable mapping to the spawned process or
    /// overwrite a previously set value. You can use [`LocalCommand::envs`] to set multiple environment
    /// variables simultaneously.
    ///
    /// Child processes will inherit environment variables from their parent process by default.
    /// Environment variables explicitly set using [`LocalCommand::env`] take precedence over inherited
    /// variables. You can disable environment variable inheritance entirely using
    /// [`LocalCommand::env_clear`] or for a single key using [`LocalCommand::env_remove`].
    pub fn env(self, key: &str, val: &str) -> (r: LocalCommand)
        ensures
            r@ == (LocalCommandView { envs: env_set(self@.envs, key@, Some(val@)), ..self@ }),
            envs_sorted(self@.envs) ==> envs_sorted(r@.envs),
    {
        let mut r = self;
        r.set_env(key, Some(String::from_str(val)));
        proof {
            if envs_sorted(self@.envs) {
                lemma_env_set_sorted(self@.envs, key@, Some(val@));
            }
        }
        r
    }

    /// Inserts or updates multiple explicit environment variable mappings,
    /// one after the other.
    ///
    /// You can use [`LocalCommand::env`] to set a single environment variable.
    pub fn envs(self, vars: Vec<(&str, &str)>) -> (r: LocalCommand)
        ensures
            r@ == (LocalCommandView { envs: env_set_all(self@.envs, vars.deep_view()), ..self@ }),
            envs_sorted(self@.envs) ==> envs_sorted(r@.envs),
    {
        let mut r = self;
        let mut i: usize = 0;
        while i < vars.len()
            invariant
                i <= vars.len(),
                r@ == (LocalCommandView {
                    envs: env_set_all(self@.envs, vars.deep_view().take(i as int)),
                    ..self@
                }),
                envs_sorted(self@.envs) ==> envs_sorted(r@.envs),
            decreases vars.len() - i,
        {
            let (key, val) = vars[i];
            assert(vars.deep_view().take(i + 1).drop_last() =~= vars.deep_view().take(i as int));
            r = r.env(key, val);
            i = i + 1;
        }
        assert(vars.deep_view().take(vars.len() as int) =~= vars.deep_view());
        r
    }

    /// Removes an explicitly set environment variable and prevents inheriting it from a parent
    /// process.
    ///
    /// This method will remove the explicit value of an environment variable set via
    /// [`LocalCommand::env`] or [`LocalCommand::envs`]. In addition, it will prevent the spawned child
    /// process from inheriting that environment variable from its parent process.
    ///
    /// After calling [`LocalCommand::env_remove`], the value associated with its key from
    /// [`LocalCommand::get_envs`] will be [`None`]; after [`LocalCommand::env_clear`], when nothing
    /// is inherited anyway, the key has no mapping at all.
    pub fn env_remove(self, key: &str) -> (r: LocalCommand)
        ensures
            r@ == (LocalCommandView {
                envs: if self@.env_clear {
                    env_unset(self@.envs, key@)
                } else {
                    env_set(self@.envs, key@, None)
                },
                ..self@
            }),
            envs_sorted(self@.envs) ==> envs_sorted(r@.envs),
    {
        let mut r = self;
        if r.env_clear {
            r.unset_env(key);
        } else {
            r.set_env(key, None);
        }
        proof {
            if envs_sorted(self@.envs) {
                lemma_env_set_sorted(self@.envs, key@, None);
                lemma_env_unset_sorted(self@.envs, key@);
            }
        }
        r
    }

    /// Clears all explicitly set environment variables and prevents inheriting any parent process
    /// environment variables.
    ///
    /// After calling [`LocalCommand::env_clear`], [`LocalCommand::get_envs`] will be empty.
    ///
    /// You can use [`LocalCommand::env_remove`] to clear a single mapping.
    pub fn env_clear(self) -> (r: LocalCommand)
        ensures
            r@ == (LocalCommandView { envs: Seq::empty(), env_clear: true, ..self@ }),
            envs_sorted(r@.envs),
    {
        let mut r = self;
        r.envs = Vec::new();
        r.env_clear = true;
        assert(r.envs.deep_view() =~= Seq::empty());
        r
    }

    /// Sets the working directory for the child process.
    pub fn current_dir(self, dir: &str) -> (r: LocalCommand)
        ensures
            r@ == (LocalCommandView { current_dir: Some(dir@), ..self@ }),
    {
        let mut r = self;
        r.current_dir = Some(String::from_str(dir));
        r
    }

    /// Returns the environment variables explicitly set for the child process, in the order
    /// of their keys.
    ///
    /// Environment variables explicitly set using [`LocalCommand::env`], [`LocalCommand::envs`], and
    /// [`LocalCommand::env_remove`] can be retrieved with this method.
    ///
    /// Note that this output does not include environment variables inherited from the parent
    /// process.
    ///
    /// Each element is a key/value pair. A [`None`] value indicates its key was explicitly
    /// removed via [`LocalCommand::env_remove`]. The associated key for the [`None`] value will
    /// no longer inherit from its parent process.
    pub fn get_envs(&self) -> (r: &Vec<(String, Option<String>)>)
        ensures
            r.deep_view() == self@.envs,
    {
        &self.envs
    }

    /// Whether the child inherits nothing from the environment of its parent.
    pub fn get_env_clear(&self) -> (r: bool)
        ensures
            r == self@.env_clear,
    {
        self.env_clear
    }

    /// Returns the working directory for the child process.
    ///
    /// This returns [`None`] if the working directory will not be changed.
    pub fn get_current_dir(&self) -> (r: Option<&str>)
        ensures
            r.deep_view() == self@.current_dir,
    {
        match &self.current_dir {
            Some(dir) => Some(dir.as_str()),
            None => None,
        }
    }
}

/// Of two different keys one comes before the other.
pub proof fn lemma_key_order_total(a: Seq<char>, b: Seq<char>)
    ensures
        a == b || key_lt(a, b) || key_lt(b, a),
        !(key_lt(a, b) && key_lt(b, a)),
        !key_lt(a, a),
    decreases a.len(),
{
    if a.len() > 0 {
        lemma_key_order_total(a.skip(1), a.skip(1));
    }
    if a.len() == 0 || b.len() == 0 {
        if a.len() == 0 && b.len() == 0 {
            assert(a =~= b);
        }
    } else if a[0] == b[0] {
        lemma_key_order_total(a.skip(1), b.skip(1));
        if a.skip(1) == b.skip(1) {
            assert(a =~= seq![a[0]] + a.skip(1));
        }
    } else {
        vstd::utf8::char_u32_cast(a[0], a[0] as u32);
        vstd::utf8::char_u32_cast(b[0], b[0] as u32);
    }
}

/// The order of the keys is transitive.
pub proof fn lemma_key_order_transitive(a: Seq<char>, b: Seq<char>, c: Seq<char>)
    requires
        key_lt(a, b),
        key_lt(b, c),
    ensures
        key_lt(a, c),
    decreases a.len(),
{
    if a.len() > 0 && a[0] == b[0] && b[0] == c[0] {
        lemma_key_order_transitive(a.skip(1), b.skip(1), c.skip(1));
    }
}

/// Each mapping of `env_set` is the new one or one that was there.
pub proof fn lemma_env_set_entries(
    envs: Seq<EnvEntry>,
    key: Seq<char>,
    value: Option<Seq<char>>,
    i: int,
)
    requires
        0 <= i < env_set(envs, key, value).len(),
    ensures
        env_set(envs, key, value)[i] == (key, value) || exists|k: int|
            0 <= k < envs.len() && envs[k] == env_set(envs, key, value)[i],
    decreases envs.len(),
{
    let set = env_set(envs, key, value);
    if envs.len() > 0 && envs[0].0 == key {
        if i > 0 {
            assert(envs[i] == set[i]);
        }
    } else if envs.len() > 0 && key_lt(key, envs[0].0) {
        if i > 0 {
            assert(envs[i - 1] == set[i]);
        }
    } else if envs.len() > 0 {
        let rest = envs.skip(1);
        let tail = env_set(rest, key, value);
        if i > 0 {
            lemma_env_set_entries(rest, key, value, i - 1);
            if tail[i - 1] != (key, value) {
                let k = choose|k: int| 0 <= k < rest.len() && rest[k] == tail[i - 1];
                assert(envs[k + 1] == set[i]);
            }
        } else {
            assert(envs[0] == set[0]);
        }
    }
}

/// Setting a mapping keeps the mappings in the order of their keys.
pub proof fn lemma_env_set_sorted(envs: Seq<EnvEntry>, key: Seq<char>, value: Option<Seq<char>>)
    requires
        envs_sorted(envs),
    ensures
        envs_sorted(env_set(envs, key, value)),
    decreases envs.len(),
{
    let set = env_set(envs, key, value);
    if envs.len() > 0 && envs[0].0 == key {
        assert forall|i: int, j: int| 0 <= i < j < set.len() implies key_lt(set[i].0, set[j].0) by {
            if i > 0 {
                assert(set[i] == envs[i]);
            } else {
                assert(key_lt(envs[0].0, envs[j].0));
            }
        }
    } else if envs.len() > 0 && key_lt(key, envs[0].0) {
        assert forall|i: int, j: int| 0 <= i < j < set.len() implies key_lt(set[i].0, set[j].0) by {
            if i > 0 {
                assert(set[i] == envs[i - 1]);
            } else if j > 1 {
                lemma_key_order_transitive(key, envs[0].0, envs[j - 1].0);
            }
        }
    } else if envs.len() > 0 {
        let rest = envs.skip(1);
        assert forall|i: int, j: int| 0 <= i < j < rest.len() implies key_lt(
            rest[i].0,
            rest[j].0,
        ) by {
            assert(key_lt(envs[i + 1].0, envs[j + 1].0));
        }
        lemma_env_set_sorted(rest, key, value);
        let tail = env_set(rest, key, value);
        lemma_key_order_total(key, envs[0].0);
        assert forall|i: int, j: int| 0 <= i < j < set.len() implies key_lt(set[i].0, set[j].0) by {
            if i > 0 {
                assert(set[i] == tail[i - 1]);
            } else {
                lemma_env_set_entries(rest, key, value, j - 1);
                if tail[j - 1] != (key, value) {
                    let k = choose|k: int| 0 <= k < rest.len() && rest[k] == tail[j - 1];
                    assert(key_lt(envs[0].0, envs[k + 1].0));
                }
            }
        }
    }
}

/// Taking a mapping out keeps the mappings in the order of their keys.
pub proof fn lemma_env_unset_sorted(envs: Seq<EnvEntry>, key: Seq<char>)
    requires
        envs_sorted(envs),
    ensures
        envs_sorted(env_unset(envs, key)),
        forall|i: int|
            0 <= i < env_unset(envs, key).len() ==> exists|k: int|
                0 <= k < envs.len() && envs[k] == #[trigger] env_unset(envs, key)[i],
    decreases envs.len(),
{
    let left = env_unset(envs, key);
    if envs.len() > 0 && envs[0].0 == key {
        assert forall|i: int, j: int| 0 <= i < j < left.len() implies key_lt(
            left[i].0,
            left[j].0,
        ) by {
            assert(key_lt(envs[i + 1].0, envs[j + 1].0));
        }
        assert forall|i: int| 0 <= i < left.len() implies exists|k: int|
            0 <= k < envs.len() && envs[k] == #[trigger] left[i] by {
            assert(envs[i + 1] == left[i]);
        }
    } else if envs.len() > 0 {
        let rest = envs.skip(1);
        assert forall|i: int, j: int| 0 <= i < j < rest.len() implies key_lt(
            rest[i].0,
            rest[j].0,
        ) by {
            assert(key_lt(envs[i + 1].0, envs[j + 1].0));
        }
        lemma_env_unset_sorted(rest, key);
        let tail = env_unset(rest, key);
        assert forall|i: int| 0 <= i < left.len() implies exists|k: int|
            0 <= k < envs.len() && envs[k] == #[trigger] left[i] by {
            if i > 0 {
                let k = choose|k: int| 0 <= k < rest.len() && rest[k] == tail[i - 1];
                assert(envs[k + 1] == left[i]);
            } else {
                assert(envs[0] == left[0]);
            }
        }
        assert forall|i: int, j: int| 0 <= i < j < left.len() implies key_lt(
            left[i].0,
            left[j].0,
        ) by {
            if i > 0 {
                assert(left[i] == tail[i - 1]);
            } else {
                let k = choose|k: int| 0 <= k < rest.len() && rest[k] == tail[j - 1];
                assert(key_lt(envs[0].0, envs[k + 1].0));
            }
        }
    }
}

/// The mappings behave as a map from keys to values: after a key is set,
/// it has the new value and every other key has what it had.
pub proof fn law_env_set_get(
    envs: Seq<EnvEntry>,
    key: Seq<char>,
    value: Option<Seq<char>>,
    other: Seq<char>,
)
    ensures
        env_get(env_set(envs, key, value), other) == if other == key {
            Some(value)
        } else {
            env_get(envs, other)
        },
    decreases envs.len(),
{
    let set = env_set(envs, key, value);
    if envs.len() == 0 {
        assert(set.skip(1) =~= envs);
    } else if envs[0].0 == key {
        assert(set.skip(1) =~= envs.skip(1));
    } else if key_lt(key, envs[0].0) {
        assert(set.skip(1) =~= envs);
    } else {
        let rest = envs.skip(1);
        law_env_set_get(rest, key, value, other);
        assert(set.skip(1) =~= env_set(rest, key, value));
    }
}

/// A key has no mapping in mappings whose keys all come after it.
pub proof fn lemma_env_get_before(envs: Seq<EnvEntry>, key: Seq<char>)
    requires
        forall|i: int| 0 <= i < envs.len() ==> key_lt(key, (#[trigger] envs[i]).0),
    ensures
        env_get(envs, key) is None,
    decreases envs.len(),
{
    if envs.len() > 0 {
        lemma_key_order_total(key, key);
        assert(key_lt(key, envs[0].0));
        assert forall|i: int| 0 <= i < envs.skip(1).len() implies key_lt(
            key,
            (#[trigger] envs.skip(1)[i]).0,
        ) by {
            assert(envs.skip(1)[i] == envs[i + 1]);
        }
        lemma_env_get_before(envs.skip(1), key);
    }
}

/// After a key is taken out of mappings in which no key occurs twice, it
/// has no mapping, and every other key has what it had.
pub proof fn law_env_unset_get(envs: Seq<EnvEntry>, key: Seq<char>, other: Seq<char>)
    requires
        envs_sorted(envs),
    ensures
        env_get(env_unset(envs, key), other) == if other == key {
            None
        } else {
            env_get(envs, other)
        },
    decreases envs.len(),
{
    if envs.len() > 0 {
        let rest = envs.skip(1);
        assert forall|i: int, j: int| 0 <= i < j < rest.len() implies key_lt(
            rest[i].0,
            rest[j].0,
        ) by {
            assert(key_lt(envs[i + 1].0, envs[j + 1].0));
        }
        if envs[0].0 == key {
            assert forall|i: int| 0 <= i < rest.len() implies key_lt(key, (#[trigger] rest[i]).0) by {
                assert(key_lt(envs[0].0, envs[i + 1].0));
            }
            lemma_env_get_before(rest, key);
        } else {
            law_env_unset_get(rest, key, other);
            let left = env_unset(envs, key);
            assert(left[0] == envs[0]);
            assert(left.skip(1) =~= env_unset(rest, key));
        }
    }
}

} // verus!
