use vstd::prelude::*;

verus! {

/// The launch timeout of a server whose definition names none, in milliseconds.
pub const DEFAULT_TIMEOUT_MS: u64 = 120000;

/// One environment variable of a server's launch environment.
#[derive(Debug, Clone, PartialEq, Eq)]
pub struct EnvVar {
    pub key: String,
    pub value: String,
}

/// A set of environment variables, each name at most once, in the order first given.
#[derive(Debug, Clone, PartialEq, Eq)]
pub struct EnvVars {
    pub vars: Vec<EnvVar>,
}

impl EnvVars {
    pub open spec fn keys(&self) -> Seq<Seq<char>> {
        self.vars@.map_values(|v: EnvVar| v.key@)
    }

    pub open spec fn wf(&self) -> bool {
        self.keys().no_duplicates()
    }

    /// The variables as a map from name to value.
    pub open spec fn env_map(&self) -> Map<Seq<char>, Seq<char>> {
        Map::new(
            |k: Seq<char>| self.keys().contains(k),
            |k: Seq<char>| self.vars@[self.keys().index_of(k)].value@,
        )
    }

    pub fn new() -> (r: EnvVars)
        ensures
            r.wf(),
            r.vars@.len() == 0,
    {
        let r = EnvVars { vars: Vec::new() };
        proof {
            assert(r.keys() =~= Seq::<Seq<char>>::empty());
        }
        r
    }

    /// The index of the variable with this name, if any.
    pub fn position(&self, key: &String) -> (r: Option<usize>)
        ensures
            match r {
                Some(i) => i < self.vars@.len() && self.keys()[i as int] == key@,
                None => !self.keys().contains(key@),
            },
    {
        let mut i: usize = 0;
        while i < self.vars.len()
            invariant
                i <= self.vars@.len(),
                forall|j: int| 0 <= j < i ==> self.keys()[j] != key@,
            decreases self.vars@.len() - i,
        {
            if self.vars[i].key.eq(key) {
                return Some(i);
            }
            i = i + 1;
        }
        None
    }

    /// Sets a variable, replacing the value of one of the same name.
    pub fn insert(&mut self, key: String, value: String)
        requires
            old(self).wf(),
        ensures
            final(self).wf(),
            final(self).env_map() == old(self).env_map().insert(key@, value@),
            final(self).keys() == (if old(self).keys().contains(key@) {
                old(self).keys()
            } else {
                old(self).keys().push(key@)
            }),
    {
        let ghost k = key@;
        let ghost v = value@;
        match self.position(&key) {
            Some(i) => {
                self.vars.set(i, EnvVar { key, value });
                proof {
                    assert(self.keys() =~= old(self).keys());
                    assert(old(self).keys().index_of(k) == i) by {
                        let j = old(self).keys().index_of(k);
                        assert(old(self).keys().contains(k));
                        assert(old(self).keys()[j] == k);
                    }
                    assert(self.env_map() =~= old(self).env_map().insert(k, v)) by {
                        assert forall|q: Seq<char>| self.keys().contains(q) implies self.vars@[self.keys().index_of(q)].value@ == (if q == k { v } else { old(self).env_map()[q] }) by {
                            let j = self.keys().index_of(q);
                            assert(self.keys()[j] == q);
                        }
                    }
                }
            },
            None => {
                self.vars.push(EnvVar { key, value });
                proof {
                    assert(self.keys() =~= old(self).keys().push(k));
                    assert(self.keys()[self.keys().len() - 1] == k);
                    assert(self.keys().no_duplicates());
                    assert forall|q: Seq<char>| self.keys().contains(q) <==> (old(self).keys().contains(q) || q == k) by {
                        if self.keys().contains(q) && q != k {
                            let j = choose|j: int| 0 <= j < self.keys().len() && self.keys()[j] == q;
                            assert(old(self).keys()[j] == q);
                        }
                        if old(self).keys().contains(q) {
                            let j = choose|j: int| 0 <= j < old(self).keys().len() && old(self).keys()[j] == q;
                            assert(self.keys()[j] == q);
                        }
                    }
                    assert(self.env_map() =~= old(self).env_map().insert(k, v)) by {
                        assert forall|q: Seq<char>| self.keys().contains(q) implies self.vars@[self.keys().index_of(q)].value@ == (if q == k { v } else { old(self).env_map()[q] }) by {
                            let j = self.keys().index_of(q);
                            let last = self.keys().len() - 1;
                            assert(self.keys()[j] == q);
                            if q != k {
                                assert(j != last);
                                assert(old(self).keys().contains(q)) by {
                                    assert(old(self).keys()[j] == q);
                                }
                                let jo = old(self).keys().index_of(q);
                                assert(old(self).keys()[jo] == q);
                                assert(self.keys()[jo] == q);
                            } else {
                                assert(self.keys()[last] == k);
                            }
                        }
                    }
                }
            },
        }
    }
}

/// One configured tool server.
#[derive(Debug, PartialEq, Eq)]
pub struct ServerDefinition {
    /// The command that launches the server.
    pub command: String,
    /// The arguments passed to the command, in order.
    pub args: Vec<String>,
    /// The launch environment; `None` when the document names none.
    pub env: Option<EnvVars>,
    /// The launch timeout in milliseconds.
    pub timeout: u64,
    /// A disabled server is not loaded.
    pub disabled: bool,
}

/// A server definition under its name.
#[derive(Debug, PartialEq, Eq)]
pub struct ServerEntry {
    pub name: String,
    pub config: ServerDefinition,
}

/// The configuration document of one scope: its servers, each name at most once and
/// in document order, and the profile-only flag.
#[derive(Debug, PartialEq, Eq)]
pub struct ServerRegistry {
    pub servers: Vec<ServerEntry>,
    /// Only meaningful for a profile's document: when set, broader scopes are hidden.
    pub exclusive: bool,
}

impl ServerRegistry {
    pub open spec fn names(&self) -> Seq<Seq<char>> {
        self.servers@.map_values(|e: ServerEntry| e.name@)
    }

    pub open spec fn wf(&self) -> bool {
        self.names().no_duplicates()
    }

    pub open spec fn has(&self, name: Seq<char>) -> bool {
        self.names().contains(name)
    }

    /// The definition stored under a name, if any.
    pub open spec fn lookup(&self, name: Seq<char>) -> Option<ServerDefinition> {
        if self.has(name) {
            Some(self.servers@[self.names().index_of(name)].config)
        } else {
            None
        }
    }

    pub open spec fn is_empty_default(&self) -> bool {
        self.servers@.len() == 0 && !self.exclusive
    }

    /// The document of a scope that has none yet.
    pub fn empty() -> (r: ServerRegistry)
        ensures
            r.wf(),
            r.is_empty_default(),
    {
        let r = ServerRegistry { servers: Vec::new(), exclusive: false };
        proof {
            assert(r.names() =~= Seq::<Seq<char>>::empty());
        }
        r
    }

    pub fn len(&self) -> (r: usize)
        ensures
            r == self.servers@.len(),
    {
        self.servers.len()
    }

    /// The index of the server with this name, if any.
    pub fn position(&self, name: &String) -> (r: Option<usize>)
        requires
            self.wf(),
        ensures
            match r {
                Some(i) => i < self.servers@.len() && self.names()[i as int] == name@
                    && self.names().index_of(name@) == i,
                None => !self.has(name@),
            },
    {
        let mut i: usize = 0;
        while i < self.servers.len()
            invariant
                self.wf(),
                i <= self.servers@.len(),
                forall|j: int| 0 <= j < i ==> self.names()[j] != name@,
            decreases self.servers@.len() - i,
        {
            if self.servers[i].name.eq(name) {
                proof {
                    assert(self.names()[i as int] == name@);
                    assert(self.names().contains(name@));
                    let j = self.names().index_of(name@);
                    assert(0 <= j < self.names().len() && self.names()[j] == name@);
                    assert(self.names().no_duplicates());
                    if j != i as int {
                        assert(self.names()[j] != self.names()[i as int]);
                    }
                }
                return Some(i);
            }
            i = i + 1;
        }
        None
    }

    pub fn contains_key(&self, name: &String) -> (r: bool)
        requires
            self.wf(),
        ensures
            r == self.has(name@),
    {
        self.position(name).is_some()
    }

    /// Stores a definition under a name, in place of one of the same name or else last.
    pub fn insert(&mut self, name: String, config: ServerDefinition)
        requires
            old(self).wf(),
        ensures
            final(self).wf(),
            final(self).exclusive == old(self).exclusive,
            final(self).lookup(name@) == Some(config),
            forall|k: Seq<char>| k != name@ ==> final(self).lookup(k) == old(self).lookup(k),
            final(self).names() == (if old(self).has(name@) {
                old(self).names()
            } else {
                old(self).names().push(name@)
            }),
            final(self).servers@ == (if old(self).has(name@) {
                old(self).servers@.update(
                    old(self).names().index_of(name@),
                    ServerEntry { name, config },
                )
            } else {
                old(self).servers@.push(ServerEntry { name, config })
            }),
    {
        let ghost n = name@;
        match self.position(&name) {
            Some(i) => {
                self.servers.set(i, ServerEntry { name, config });
                proof {
                    assert(self.names() =~= old(self).names());
                    assert forall|k: Seq<char>| k != n implies self.lookup(k) == old(self).lookup(k) by {
                        if self.has(k) {
                            let j = self.names().index_of(k);
                            assert(self.names()[j] == k);
                            assert(j != i);
                        }
                    }
                }
            },
            None => {
                self.servers.push(ServerEntry { name, config });
                proof {
                    let last = old(self).names().len() as int;
                    assert(self.names() =~= old(self).names().push(n));
                    assert(self.names()[last] == n);
                    assert(self.names().index_of(n) == last);
                    assert forall|k: Seq<char>| k != n implies self.lookup(k) == old(self).lookup(k) by {
                        if self.has(k) {
                            let j = self.names().index_of(k);
                            assert(self.names()[j] == k);
                            assert(j != last);
                            assert(old(self).names()[j] == k);
                            assert(old(self).has(k));
                            let jo = old(self).names().index_of(k);
                            assert(old(self).names()[jo] == k);
                            assert(self.names()[jo] == k);
                        }
                        if old(self).has(k) {
                            let jo = old(self).names().index_of(k);
                            assert(self.names()[jo] == k);
                        }
                    }
                }
            },
        }
    }

    /// Takes out the server with this name, if any.
    pub fn remove(&mut self, name: &String) -> (r: Option<ServerDefinition>)
        requires
            old(self).wf(),
        ensures
            final(self).wf(),
            final(self).exclusive == old(self).exclusive,
            r == old(self).lookup(name@),
            !final(self).has(name@),
            forall|k: Seq<char>| k != name@ ==> final(self).lookup(k) == old(self).lookup(k),
            final(self).servers@ == (if old(self).has(name@) {
                old(self).servers@.remove(old(self).names().index_of(name@))
            } else {
                old(self).servers@
            }),
    {
        match self.position(name) {
            Some(i) => {
                let e = self.servers.remove(i);
                proof {
                    assert(self.names() =~= old(self).names().remove(i as int));
                    assert(self.names().no_duplicates()) by {
                        assert forall|a: int, b: int|
                            0 <= a < self.names().len() && 0 <= b < self.names().len() && a != b
                            implies self.names()[a] != self.names()[b] by {
                            let oa = if a < i { a } else { a + 1 };
                            let ob = if b < i { b } else { b + 1 };
                            assert(self.names()[a] == old(self).names()[oa]);
                            assert(self.names()[b] == old(self).names()[ob]);
                        }
                    }
                    assert(!self.has(name@)) by {
                        if self.has(name@) {
                            let j = choose|j: int| 0 <= j < self.names().len() && self.names()[j] == name@;
                            let oj = if j < i { j } else { j + 1 };
                            assert(old(self).names()[oj] == name@);
                        }
                    }
                    assert forall|k: Seq<char>| k != name@ implies self.lookup(k) == old(self).lookup(k) by {
                        if self.has(k) {
                            let j = self.names().index_of(k);
                            assert(self.names()[j] == k);
                            let oj = if j < i { j } else { j + 1 };
                            assert(old(self).names()[oj] == k);
                            assert(old(self).has(k));
                            let jo = old(self).names().index_of(k);
                            assert(old(self).names()[jo] == k);
                            assert(jo == oj);
                        }
                        if old(self).has(k) {
                            let jo = old(self).names().index_of(k);
                            assert(old(self).names()[jo] == k);
                            assert(jo != i);
                            let j = if jo < i { jo } else { jo - 1 };
                            assert(self.names()[j] == k);
                        }
                    }
                }
                Some(e.config)
            },
            None => None,
        }
    }
}

/// What was found at a configuration file's location.
#[derive(Debug, PartialEq, Eq)]
pub enum ConfigFile {
    /// Nothing is there.
    Missing,
    /// A file is there but is not a valid document; the reason is kept.
    Malformed(String),
    /// A valid document.
    Parsed(ServerRegistry),
}

impl ConfigFile {
    pub open spec fn wf(&self) -> bool {
        match self {
            ConfigFile::Parsed(r) => r.wf(),
            _ => true,
        }
    }
}

/// What a contained read yields: a missing file is the empty document, a malformed one
/// leaves the scope unavailable, a valid one is taken as it is.
pub open spec fn contained_load(file: ConfigFile, r: Option<ServerRegistry>) -> bool {
    match file {
        ConfigFile::Missing => r is Some && r->0.wf() && r->0.is_empty_default(),
        ConfigFile::Malformed(_) => r is None,
        ConfigFile::Parsed(x) => r == Some(x),
    }
}

/// Reads a document that an operation is about to change: a missing file is the empty
/// document, a malformed one stops the operation.
pub fn load_cfg(file: ConfigFile) -> (r: Result<ServerRegistry, String>)
    ensures
        match file {
            ConfigFile::Missing => r is Ok && r->Ok_0.wf() && r->Ok_0.is_empty_default(),
            ConfigFile::Malformed(e) => r == Err::<ServerRegistry, String>(e),
            ConfigFile::Parsed(x) => r == Ok::<ServerRegistry, String>(x),
        },
{
    match file {
        ConfigFile::Missing => Ok(ServerRegistry::empty()),
        ConfigFile::Malformed(e) => Err(e),
        ConfigFile::Parsed(x) => Ok(x),
    }
}

/// A document written to a location and read back whole is the document that was written:
/// reading adds, drops and merges nothing.
pub proof fn lemma_saved_document_loads_back(r: ServerRegistry)
    ensures
        contained_load(ConfigFile::Parsed(r), Some(r)),
{
}

/// Reads a scope's document with contained errors: a malformed file never fails the caller.
pub fn load_config_with_error_handling(file: ConfigFile) -> (r: Option<ServerRegistry>)
    ensures
        contained_load(file, r),
{
    match file {
        ConfigFile::Missing => Some(ServerRegistry::empty()),
        ConfigFile::Malformed(_) => None,
        ConfigFile::Parsed(x) => Some(x),
    }
}

} // verus!
