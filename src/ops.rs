use vstd::prelude::*;

use crate::aggregate::{stops_at, ScopeEntry};
use crate::registry::{
    load_cfg, ConfigFile, EnvVars, ServerDefinition, ServerRegistry, DEFAULT_TIMEOUT_MS,
};
use vstd::string::*;

use crate::scope::{profile_mcp_path, profile_path_spec, ConfigRoots, Location, Scope};

verus! {

/// Why an operation was refused.
#[derive(Debug, PartialEq, Eq)]
pub enum McpError {
    /// The profile scope was asked for without a profile name.
    MissingProfileName,
    /// The named profile has no directory.
    ProfileNotFound(String),
    /// A server of this name already exists and overwriting was not asked for.
    DuplicateServer(String),
    /// The target document is not valid; the reason is kept.
    MalformedConfig(String),
    /// The file named as an import source does not exist.
    ImportSourceMissing,
    /// The file named as an import source is not a valid document.
    ImportSourceMalformed(String),
    /// An environment assignment without `=`.
    InvalidEnvVar(String),
    /// No scope holds a server of this name.
    ServerNotFound(String),
}

/// A change to the file system that an operation asks for, in order.
#[derive(Debug, PartialEq, Eq)]
pub enum FsAction {
    /// Create a directory and its missing parents.
    CreateDirAll(Location),
    /// Replace the file at a location by this document.
    Write(Location, ServerRegistry),
}

/// The two steps that give a missing configuration file its empty document.
pub open spec fn creates_default(location: Seq<Seq<char>>, acts: Seq<FsAction>) -> bool {
    &&& acts.len() == 2
    &&& acts[0] is CreateDirAll
    &&& acts[0]->CreateDirAll_0@ == location.drop_last()
    &&& acts[1] is Write
    &&& acts[1]->Write_0@ == location
    &&& acts[1]->Write_1.is_empty_default()
}

/// The document an operation starts from: the one found, or the empty one for a missing file.
pub open spec fn base_lookup(file: ConfigFile, name: Seq<char>) -> Option<ServerDefinition> {
    match file {
        ConfigFile::Parsed(r) => r.lookup(name),
        _ => None,
    }
}

pub open spec fn base_has(file: ConfigFile, name: Seq<char>) -> bool {
    match file {
        ConfigFile::Parsed(r) => r.has(name),
        _ => false,
    }
}

pub open spec fn base_exclusive(file: ConfigFile) -> bool {
    match file {
        ConfigFile::Parsed(r) => r.exclusive,
        _ => false,
    }
}

/// Makes sure a configuration file exists before it is changed: a missing one is first
/// written as the empty document; a malformed one stops the operation.
pub fn ensure_config_file(location: &Location, file: ConfigFile, actions: &mut Vec<FsAction>) -> (r:
    Result<ServerRegistry, McpError>)
    requires
        location@.len() > 0,
        file.wf(),
    ensures
        match file {
            ConfigFile::Missing => {
                &&& r is Ok
                &&& r->Ok_0.wf()
                &&& r->Ok_0.is_empty_default()
                &&& final(actions)@.take(old(actions)@.len() as int) == old(actions)@
                &&& creates_default(location@, final(actions)@.skip(old(actions)@.len() as int))
            },
            ConfigFile::Malformed(e) => r == Err::<ServerRegistry, McpError>(
                McpError::MalformedConfig(e),
            ) && final(actions)@ == old(actions)@,
            ConfigFile::Parsed(x) => r == Ok::<ServerRegistry, McpError>(x) && final(actions)@
                == old(actions)@,
        },
{
    match file {
        ConfigFile::Missing => {
            let parent = location.parent();
            match parent {
                Some(p) => actions.push(FsAction::CreateDirAll(p)),
                None => {},
            }
            actions.push(FsAction::Write(location.duplicate(), ServerRegistry::empty()));
            proof {
                let n = old(actions)@.len() as int;
                assert(actions@.take(n) =~= old(actions)@);
                assert(actions@.skip(n).len() == 2);
                assert(actions@.skip(n)[0] == actions@[n]);
                assert(actions@.skip(n)[1] == actions@[n + 1]);
            }
            Ok(ServerRegistry::empty())
        },
        _ => match load_cfg(file) {
            Ok(x) => Ok(x),
            Err(e) => Err(McpError::MalformedConfig(e)),
        },
    }
}

/// What the environment flags of a command line amount to: later assignments win.
pub open spec fn merged_env(envs: Seq<EnvVars>) -> Map<Seq<char>, Seq<char>>
    decreases envs.len(),
{
    if envs.len() == 0 {
        Map::empty()
    } else {
        merged_env(envs.drop_last()).union_prefer_right(envs.last().env_map())
    }
}

/// Folds several sets of environment variables into one, later ones overriding.
pub fn merge_env(envs: &Vec<EnvVars>) -> (r: EnvVars)
    requires
        forall|i: int| 0 <= i < envs@.len() ==> #[trigger] envs@[i].wf(),
    ensures
        r.wf(),
        r.env_map() == merged_env(envs@),
{
    let mut acc = EnvVars::new();
    let mut i: usize = 0;
    proof {
        assert(acc.env_map() =~= Map::<Seq<char>, Seq<char>>::empty());
        assert(envs@.take(0).len() == 0);
    }
    while i < envs.len()
        invariant
            i <= envs@.len(),
            forall|q: int| 0 <= q < envs@.len() ==> #[trigger] envs@[q].wf(),
            acc.wf(),
            acc.env_map() == merged_env(envs@.take(i as int)),
        decreases envs@.len() - i,
    {
        let e = &envs[i];
        let ghost base = acc.env_map();
        assert(e.wf());
        let mut j: usize = 0;
        while j < e.vars.len()
            invariant
                j <= e.vars@.len(),
                e.wf(),
                acc.wf(),
                forall|k: Seq<char>| #[trigger]
                    acc.env_map().contains_key(k) == (base.contains_key(k) || e.keys().take(
                        j as int,
                    ).contains(k)),
                forall|k: Seq<char>| #[trigger]
                    acc.env_map().contains_key(k) ==> acc.env_map()[k] == (if e.keys().take(
                        j as int,
                    ).contains(k) {
                        e.env_map()[k]
                    } else {
                        base[k]
                    }),
            decreases e.vars@.len() - j,
        {
            let key = e.vars[j].key.clone();
            let value = e.vars[j].value.clone();
            let ghost kj = e.keys()[j as int];
            proof {
                assert(key@ == kj);
                assert(e.keys().contains(kj));
                let x = e.keys().index_of(kj);
                assert(e.keys()[x] == kj);
                assert(x == j);
                assert(e.env_map()[kj] == value@);
                assert(e.keys().take(j as int + 1) =~= e.keys().take(j as int).push(kj));
            }
            let ghost pre = acc.env_map();
            acc.insert(key, value);
            proof {
                let t0 = e.keys().take(j as int);
                let t1 = e.keys().take(j as int + 1);
                assert forall|k: Seq<char>| t1.contains(k) == (t0.contains(k) || k == kj) by {
                    if t1.contains(k) && k != kj {
                        let w = choose|w: int| 0 <= w < t1.len() && t1[w] == k;
                        assert(t0[w] == k);
                    }
                    if t0.contains(k) {
                        let w = choose|w: int| 0 <= w < t0.len() && t0[w] == k;
                        assert(t1[w] == k);
                    }
                    if k == kj {
                        assert(t1[j as int] == k);
                    }
                }
                assert(acc.env_map() == pre.insert(kj, value@));
            }
            j = j + 1;
        }
        proof {
            assert(e.keys().take(j as int) =~= e.keys());
            assert(acc.env_map() =~= base.union_prefer_right(e.env_map()));
            assert(envs@.take(i as int + 1).drop_last() =~= envs@.take(i as int));
            assert(envs@.take(i as int + 1).last() == envs@[i as int]);
        }
        i = i + 1;
    }
    proof {
        assert(envs@.take(i as int) =~= envs@);
    }
    acc
}

/// A request to add or replace a server.
#[derive(Debug, PartialEq, Eq)]
pub struct AddArgs {
    pub name: String,
    pub command: String,
    pub args: Vec<String>,
    pub scope: Option<Scope>,
    pub profile: Option<String>,
    /// Environment assignments, one set per flag; later ones override.
    pub env: Vec<EnvVars>,
    /// Launch timeout in milliseconds; the default when `None`.
    pub timeout: Option<u64>,
    pub disabled: bool,
    /// Overwrite a server of the same name.
    pub force: bool,
}

/// The definition that an add request asks for.
pub open spec fn defines(d: ServerDefinition, a: AddArgs) -> bool {
    &&& d.command == a.command
    &&& d.args == a.args
    &&& d.env is Some
    &&& d.env->0.wf()
    &&& d.env->0.env_map() == merged_env(a.env@)
    &&& d.timeout == (match a.timeout {
        Some(t) => t,
        None => DEFAULT_TIMEOUT_MS,
    })
    &&& d.disabled == a.disabled
}

/// `reg` is the document found in `file` with `name` set to `d` and nothing else changed.
pub open spec fn stored_with(file: ConfigFile, reg: ServerRegistry, name: Seq<char>, d: ServerDefinition) -> bool {
    &&& reg.wf()
    &&& reg.lookup(name) == Some(d)
    &&& forall|k: Seq<char>| k != name ==> reg.lookup(k) == base_lookup(file, k)
    &&& reg.exclusive == base_exclusive(file)
}

/// The writes of a successful add: the empty document first when the file was missing,
/// then the document with the new server.
pub open spec fn add_writes(location: Seq<Seq<char>>, file: ConfigFile, a: AddArgs, acts: Seq<FsAction>) -> bool {
    let n = acts.len() as int;
    &&& file is Missing ==> n == 3 && creates_default(location, acts.take(2))
    &&& file is Parsed ==> n == 1
    &&& n > 0
    &&& acts[n - 1] is Write
    &&& acts[n - 1]->Write_0@ == location
    &&& stored_with(file, acts[n - 1]->Write_1, a.name@, acts[n - 1]->Write_1.lookup(a.name@)->0)
    &&& defines(acts[n - 1]->Write_1.lookup(a.name@)->0, a)
}

impl AddArgs {
    pub open spec fn wf(&self) -> bool {
        forall|i: int| 0 <= i < self.env@.len() ==> #[trigger] self.env@[i].wf()
    }

    /// Decides an add into the file at `location`, found as `file`: the writes to make, or
    /// why nothing is written.
    pub fn execute(self, location: &Location, file: ConfigFile) -> (r: Result<Vec<FsAction>, McpError>)
        requires
            self.wf(),
            location@.len() > 0,
            file.wf(),
        ensures
            (r is Err) == (file is Malformed || (base_has(file, self.name@) && !self.force)),
            file is Malformed ==> r == Err::<Vec<FsAction>, McpError>(
                McpError::MalformedConfig(file->Malformed_0),
            ),
            (base_has(file, self.name@) && !self.force) ==> r == Err::<Vec<FsAction>, McpError>(
                McpError::DuplicateServer(self.name),
            ),
            r is Ok ==> add_writes(location@, file, self, r->Ok_0@),
    {
        let ghost f = file;
        let mut actions: Vec<FsAction> = Vec::new();
        let mut config = match ensure_config_file(location, file, &mut actions) {
            Ok(c) => c,
            Err(e) => return Err(e),
        };
        if config.contains_key(&self.name) && !self.force {
            return Err(McpError::DuplicateServer(self.name));
        }
        let env = merge_env(&self.env);
        let timeout = match self.timeout {
            Some(t) => t,
            None => DEFAULT_TIMEOUT_MS,
        };
        let tool = ServerDefinition {
            command: self.command,
            args: self.args,
            env: Some(env),
            timeout,
            disabled: self.disabled,
        };
        let ghost d = tool;
        config.insert(self.name, tool);
        actions.push(FsAction::Write(location.duplicate(), config));
        proof {
            let n = actions@.len() as int;
            if f is Missing {
                assert(actions@.take(2)[0] == actions@[0]);
                assert(actions@.take(2)[1] == actions@[1]);
            }
            assert(actions@[n - 1]->Write_1.lookup(self.name@) == Some(d));
        }
        Ok(actions)
    }
}

/// A request to remove a server.
#[derive(Debug, PartialEq, Eq)]
pub struct RemoveArgs {
    pub name: String,
    pub scope: Option<Scope>,
    pub profile: Option<String>,
}

/// How a removal went; only `Removed` asks for a write, of the document it holds.
#[derive(Debug, PartialEq, Eq)]
pub enum RemoveOutcome {
    /// The target file does not exist: nothing to remove.
    NoConfigFile,
    /// The document has no server of that name.
    NotFound,
    /// The document without the server, to be written back.
    Removed(ServerRegistry),
}

impl RemoveArgs {
    /// Decides a removal from a document found as `file`.
    pub fn execute(self, file: ConfigFile) -> (r: Result<RemoveOutcome, McpError>)
        requires
            file.wf(),
        ensures
            file is Missing ==> r == Ok::<RemoveOutcome, McpError>(RemoveOutcome::NoConfigFile),
            file is Malformed ==> r == Err::<RemoveOutcome, McpError>(
                McpError::MalformedConfig(file->Malformed_0),
            ),
            (file is Parsed && !base_has(file, self.name@)) ==> r == Ok::<
                RemoveOutcome,
                McpError,
            >(RemoveOutcome::NotFound),
            base_has(file, self.name@) ==> {
                &&& r is Ok
                &&& r->Ok_0 is Removed
                &&& r->Ok_0->Removed_0.wf()
                &&& !r->Ok_0->Removed_0.has(self.name@)
                &&& forall|k: Seq<char>|
                    k != self.name@ ==> r->Ok_0->Removed_0.lookup(k) == base_lookup(file, k)
                &&& r->Ok_0->Removed_0.exclusive == base_exclusive(file)
            },
    {
        match file {
            ConfigFile::Missing => Ok(RemoveOutcome::NoConfigFile),
            ConfigFile::Malformed(e) => Err(McpError::MalformedConfig(e)),
            ConfigFile::Parsed(mut config) => {
                match config.remove(&self.name) {
                    Some(_) => Ok(RemoveOutcome::Removed(config)),
                    None => Ok(RemoveOutcome::NotFound),
                }
            },
        }
    }
}

/// A request to copy the servers of another file into a scope.
#[derive(Debug, PartialEq, Eq)]
pub struct ImportArgs {
    pub file: String,
    pub scope: Option<Scope>,
    pub profile: Option<String>,
    /// Overwrite servers of the same name.
    pub force: bool,
}

/// What a successful import asks for.
#[derive(Debug, PartialEq, Eq)]
pub struct ImportOutcome {
    pub actions: Vec<FsAction>,
    /// How many servers were copied.
    pub added: usize,
}

/// The first server of `src`, in document order, whose name `file` already has.
pub open spec fn first_conflict(src: ServerRegistry, file: ConfigFile, i: int) -> bool {
    &&& 0 <= i < src.names().len()
    &&& base_has(file, src.names()[i])
    &&& forall|j: int| 0 <= j < i ==> !base_has(file, #[trigger] src.names()[j])
}

pub open spec fn has_conflict(src: ServerRegistry, file: ConfigFile) -> bool {
    exists|i: int| 0 <= i < src.names().len() && base_has(file, #[trigger] src.names()[i])
}

impl ImportArgs {
    /// Decides an import of the document found as `source` into the file at `location`,
    /// found as `file`. All or nothing: a conflict found before any write stops it.
    pub fn execute(self, location: &Location, file: ConfigFile, source: ConfigFile) -> (r: Result<
        ImportOutcome,
        McpError,
    >)
        requires
            location@.len() > 0,
            file.wf(),
            source.wf(),
        ensures
            source is Missing ==> r == Err::<ImportOutcome, McpError>(
                McpError::ImportSourceMissing,
            ),
            source is Malformed ==> r == Err::<ImportOutcome, McpError>(
                McpError::ImportSourceMalformed(source->Malformed_0),
            ),
            source is Parsed && file is Malformed ==> r == Err::<ImportOutcome, McpError>(
                McpError::MalformedConfig(file->Malformed_0),
            ),
            source is Parsed && !(file is Malformed) ==> {
                let src = source->Parsed_0;
                &&& (r is Err) == (has_conflict(src, file) && !self.force)
                &&& r is Err ==> exists|i: int|
                    first_conflict(src, file, i) && r->Err_0 == McpError::DuplicateServer(
                        src.servers@[i].name,
                    )
                &&& r is Ok ==> {
                    let acts = r->Ok_0.actions@;
                    let n = acts.len() as int;
                    &&& r->Ok_0.added == src.servers@.len()
                    &&& file is Missing ==> n == 3 && creates_default(location@, acts.take(2))
                    &&& file is Parsed ==> n == 1
                    &&& acts[n - 1] is Write
                    &&& acts[n - 1]->Write_0@ == location@
                    &&& acts[n - 1]->Write_1.wf()
                    &&& acts[n - 1]->Write_1.exclusive == base_exclusive(file)
                    &&& forall|k: Seq<char>|
                        #[trigger] acts[n - 1]->Write_1.lookup(k) == (if src.has(k) {
                            src.lookup(k)
                        } else {
                            base_lookup(file, k)
                        })
                }
            },
    {
        let mut src = match source {
            ConfigFile::Missing => return Err(McpError::ImportSourceMissing),
            ConfigFile::Malformed(e) => return Err(McpError::ImportSourceMalformed(e)),
            ConfigFile::Parsed(s) => s,
        };
        let ghost f = file;
        let ghost s0 = src;
        let mut actions: Vec<FsAction> = Vec::new();
        let mut dst = match ensure_config_file(location, file, &mut actions) {
            Ok(c) => c,
            Err(e) => return Err(e),
        };
        let ghost d0 = dst;
        assert(forall|k: Seq<char>| d0.has(k) == base_has(f, k));
        assert(forall|k: Seq<char>| d0.lookup(k) == base_lookup(f, k));
        if !self.force {
            let mut i: usize = 0;
            while i < src.servers.len()
                invariant
                    !self.force,
                    source == ConfigFile::Parsed(s0),
                    f == file,
                    !(file is Malformed),
                    forall|k: Seq<char>| d0.has(k) == base_has(f, k),
                    src == s0,
                    dst == d0,
                    dst.wf(),
                    i <= src.servers@.len(),
                    forall|j: int| 0 <= j < i ==> !d0.has(#[trigger] s0.names()[j]),
                decreases src.servers@.len() - i,
            {
                if dst.contains_key(&src.servers[i].name) {
                    let n = src.servers[i].name.clone();
                    proof {
                        assert(s0.names()[i as int] == src.servers@[i as int].name@);
                        assert(first_conflict(s0, f, i as int));
                        assert(has_conflict(s0, f));
                        assert(n == s0.servers@[i as int].name);
                        assert(McpError::DuplicateServer(n) == McpError::DuplicateServer(
                            s0.servers@[i as int].name,
                        ));
                    }
                    return Err(McpError::DuplicateServer(n));
                }
                i = i + 1;
            }
            proof {
                assert forall|j: int| 0 <= j < s0.names().len() implies !base_has(f, #[trigger] s0.names()[j]) by {
                    assert(!d0.has(s0.names()[j]));
                }
            }
        }
        let added = src.servers.len();
        let ghost total = s0.servers@.len();
        let mut i: usize = 0;
        while src.servers.len() > 0
            invariant
                source == ConfigFile::Parsed(s0),
                f == file,
                !(file is Malformed),
                forall|k: Seq<char>| d0.lookup(k) == base_lookup(f, k),
                !self.force ==> forall|j: int|
                    0 <= j < s0.names().len() ==> !base_has(f, #[trigger] s0.names()[j]),
                src.servers@ == s0.servers@.skip(i as int),
                i <= total,
                total == s0.servers@.len(),
                total == added,
                s0.wf(),
                dst.wf(),
                dst.exclusive == d0.exclusive,
                forall|k: Seq<char>| #[trigger]
                    dst.lookup(k) == (if s0.names().take(i as int).contains(k) {
                        s0.lookup(k)
                    } else {
                        d0.lookup(k)
                    }),
            decreases src.servers@.len(),
        {
            proof {
                assert(s0.servers@.skip(i as int).len() == total - i);
            }
            let e = src.servers.remove(0);
            proof {
                assert(e == s0.servers@[i as int]);
                assert(src.servers@ =~= s0.servers@.skip(i as int + 1));
            }
            let ghost ename = e.name@;
            let ghost econf = e.config;
            let ghost pre = dst;
            dst.insert(e.name, e.config);
            proof {
                assert(s0.names()[i as int] == ename);
                assert(s0.names().contains(ename));
                let x = s0.names().index_of(ename);
                assert(s0.names()[x] == ename);
                assert(x == i as int);
                assert(s0.lookup(ename) == Some(econf));
                let t0 = s0.names().take(i as int);
                let t1 = s0.names().take(i as int + 1);
                assert forall|k: Seq<char>| t1.contains(k) == (t0.contains(k) || k == ename) by {
                    if t1.contains(k) && k != ename {
                        let w = choose|w: int| 0 <= w < t1.len() && t1[w] == k;
                        assert(t0[w] == k);
                    }
                    if t0.contains(k) {
                        let w = choose|w: int| 0 <= w < t0.len() && t0[w] == k;
                        assert(t1[w] == k);
                    }
                    if k == ename {
                        assert(t1[i as int] == k);
                    }
                }
            }
            i = i + 1;
        }
        proof {
            assert(s0.names().take(i as int) =~= s0.names());
        }
        actions.push(FsAction::Write(location.duplicate(), dst));
        proof {
            if f is Missing {
                assert(actions@.take(2)[0] == actions@[0]);
                assert(actions@.take(2)[1] == actions@[1]);
            }
        }
        Ok(ImportOutcome { actions, added })
    }
}

/// A request to set or clear a profile's exclusivity.
#[derive(Debug, PartialEq, Eq)]
pub struct UseProfileServersOnlyArgs {
    pub profile: String,
    /// Whether only the profile's own servers are to be used.
    pub value: bool,
}

/// The directory of a named profile.
pub fn profile_dir(roots: &ConfigRoots, name: &str) -> (r: Location)
    ensures
        r@ == roots.profiles@.push(name@),
        r@ == profile_path_spec(roots, name@).drop_last(),
{
    let r = roots.profiles.join(name);
    proof {
        assert(profile_path_spec(roots, name@).drop_last() =~= roots.profiles@.push(name@));
    }
    r
}

impl UseProfileServersOnlyArgs {
    /// Decides a change of exclusivity, given whether the profile's directory exists and what
    /// was found at its configuration file. A malformed document is replaced by an empty one.
    pub fn execute(self, roots: &ConfigRoots, profile_dir_exists: bool, file: ConfigFile) -> (r:
        Result<Vec<FsAction>, McpError>)
        requires
            file.wf(),
        ensures
            !profile_dir_exists ==> r == Err::<Vec<FsAction>, McpError>(
                McpError::ProfileNotFound(self.profile),
            ),
            profile_dir_exists ==> {
                let loc = profile_path_spec(roots, self.profile@);
                &&& r is Ok
                &&& r->Ok_0@.len() == 2
                &&& r->Ok_0@[0] is CreateDirAll
                &&& r->Ok_0@[0]->CreateDirAll_0@ == loc.drop_last()
                &&& r->Ok_0@[1] is Write
                &&& r->Ok_0@[1]->Write_0@ == loc
                &&& r->Ok_0@[1]->Write_1.wf()
                &&& r->Ok_0@[1]->Write_1.exclusive == self.value
                &&& r->Ok_0@[1]->Write_1.servers@ == (match file {
                    ConfigFile::Parsed(x) => x.servers@,
                    _ => Seq::empty(),
                })
            },
    {
        if !profile_dir_exists {
            return Err(McpError::ProfileNotFound(self.profile));
        }
        let location = profile_mcp_path(roots, self.profile.as_str());
        let mut config = match file {
            ConfigFile::Parsed(x) => x,
            _ => ServerRegistry::empty(),
        };
        config.exclusive = self.value;
        let mut actions: Vec<FsAction> = Vec::new();
        actions.push(FsAction::CreateDirAll(profile_dir(roots, self.profile.as_str())));
        actions.push(FsAction::Write(location, config));
        Ok(actions)
    }
}

/// A scope of a view that holds a server of this name.
pub open spec fn holds(e: ScopeEntry, name: Seq<char>) -> bool {
    e.config is Some && e.config->0.has(name)
}

/// A request for where a server is defined.
#[derive(Debug, PartialEq, Eq)]
pub struct StatusArgs {
    pub name: String,
    pub profile: Option<String>,
}

pub open spec fn entries_wf(entries: Seq<ScopeEntry>) -> bool {
    forall|i: int| 0 <= i < entries.len() && #[trigger] entries[i].config is Some ==> entries[i].config->0.wf()
}

impl StatusArgs {
    /// The positions, in order, of the scopes of a view that define the server.
    pub fn execute(&self, entries: &Vec<ScopeEntry>) -> (r: Result<Vec<usize>, McpError>)
        requires
            entries_wf(entries@),
        ensures
            (r is Err) == (forall|i: int| 0 <= i < entries@.len() ==> !holds(#[trigger] entries@[i], self.name@)),
            r is Err ==> r->Err_0 == McpError::ServerNotFound(self.name),
            r is Ok ==> {
                let v = r->Ok_0@;
                &&& v.len() > 0
                &&& forall|j: int| 0 <= j < v.len() ==> #[trigger] v[j] < entries@.len() && holds(entries@[v[j] as int], self.name@)
                &&& forall|j: int, k: int| 0 <= j < k < v.len() ==> #[trigger] v[j] < #[trigger] v[k]
                &&& forall|i: int| 0 <= i < entries@.len() && #[trigger] holds(entries@[i], self.name@) ==> v.contains(i as usize)
            },
    {
        let mut found: Vec<usize> = Vec::new();
        let mut i: usize = 0;
        while i < entries.len()
            invariant
                entries_wf(entries@),
                i <= entries@.len(),
                forall|j: int| 0 <= j < found@.len() ==> #[trigger] found@[j] < i && holds(entries@[found@[j] as int], self.name@),
                forall|j: int, k: int| 0 <= j < k < found@.len() ==> #[trigger] found@[j] < #[trigger] found@[k],
                forall|q: int| 0 <= q < i && #[trigger] holds(entries@[q], self.name@) ==> found@.contains(q as usize),
            decreases entries@.len() - i,
        {
            let hit = match &entries[i].config {
                Some(cfg) => cfg.contains_key(&self.name),
                None => false,
            };
            if hit {
                let ghost before = found@;
                found.push(i);
                proof {
                    assert forall|q: int| 0 <= q <= i && #[trigger] holds(entries@[q], self.name@) implies found@.contains(q as usize) by {
                        if q < i {
                            let w = choose|w: int| 0 <= w < before.len() && before[w] == q as usize;
                            assert(found@[w] == q as usize);
                        } else {
                            assert(found@[before.len() as int] == i);
                        }
                    }
                }
            }
            i = i + 1;
        }
        if found.len() == 0 {
            proof {
                assert forall|q: int| 0 <= q < entries@.len() implies !holds(#[trigger] entries@[q], self.name@) by {
                    if holds(entries@[q], self.name@) {
                        assert(found@.contains(q as usize));
                    }
                }
            }
            return Err(McpError::ServerNotFound(self.name.clone()));
        }
        proof {
            let q = found@[0] as int;
            assert(holds(entries@[q], self.name@));
        }
        Ok(found)
    }
}

/// Whether a view asks for the exclusivity warning: a profile was named and its document
/// is exclusive.
pub fn exclusive_warning_applies(profile: &Option<String>, entries: &Vec<ScopeEntry>) -> (r: bool)
    ensures
        r == (profile is Some && exists|i: int| 0 <= i < entries@.len() && stops_at(#[trigger] entries@[i])),
{
    if profile.is_none() {
        return false;
    }
    let mut i: usize = 0;
    while i < entries.len()
        invariant
            profile is Some,
            i <= entries@.len(),
            forall|j: int| 0 <= j < i ==> !stops_at(#[trigger] entries@[j]),
        decreases entries@.len() - i,
    {
        let e = &entries[i];
        if e.scope == Scope::Profile {
            if let Some(cfg) = &e.config {
                if cfg.exclusive {
                    assert(stops_at(entries@[i as int]));
                    return true;
                }
            }
        }
        i = i + 1;
    }
    false
}

/// The lines of the warning shown when a profile is exclusive.
pub open spec fn exclusive_warning_text(profile_name: Seq<char>) -> Seq<Seq<char>> {
    seq![
        "⚠️  Profile '"@ + profile_name + "' is configured for exclusive server usage."@,
        "   Only MCP servers defined in this profile will be loaded."@,
        "   Global and workspace servers will be ignored."@,
    ]
}

/// The warning that a profile hides the workspace and global servers, line by line.
pub fn queue_profile_exclusive_warning(profile_name: &str) -> (r: Vec<String>)
    ensures
        r@.len() == 3,
        forall|i: int| 0 <= i < 3 ==> #[trigger] r@[i]@ == exclusive_warning_text(profile_name@)[i],
{
    proof {
        reveal_strlit("⚠️  Profile '");
        reveal_strlit("' is configured for exclusive server usage.");
        reveal_strlit("   Only MCP servers defined in this profile will be loaded.");
        reveal_strlit("   Global and workspace servers will be ignored.");
    }
    let mut first = String::from_str("⚠️  Profile '");
    first.append(profile_name);
    first.append("' is configured for exclusive server usage.");
    let mut r: Vec<String> = Vec::new();
    r.push(first);
    r.push(String::from_str("   Only MCP servers defined in this profile will be loaded."));
    r.push(String::from_str("   Global and workspace servers will be ignored."));
    r
}

/// A request to list the servers of one scope, or of all scopes in precedence order.
#[derive(Debug, PartialEq, Eq)]
pub struct ListArgs {
    pub scope: Option<Scope>,
    pub profile: Option<String>,
}

/// The server-management commands.
#[derive(Debug, PartialEq, Eq)]
pub enum McpSubcommand {
    Add(AddArgs),
    Remove(RemoveArgs),
    List(ListArgs),
    Import(ImportArgs),
    Status(StatusArgs),
    UseProfileServersOnly(UseProfileServersOnlyArgs),
}

/// The profile-management commands of a chat session.
#[derive(Debug, PartialEq, Eq)]
pub enum ProfileSubcommand {
    List,
    Create { name: String },
    Delete { name: String },
    Switch { name: String },
    Rename { old_name: String, new_name: String },
}

} // verus!
