use vstd::prelude::*;
use vstd::string::*;

verus! {

/// One of the three configuration layers.
#[derive(Debug, Clone, Copy, PartialEq, Eq, Structural)]
pub enum Scope {
    Workspace,
    Global,
    Profile,
}

pub open spec fn scope_name_text(scope: Scope) -> Seq<char> {
    match scope {
        Scope::Workspace => "workspace"@,
        Scope::Global => "global"@,
        Scope::Profile => "profile"@,
    }
}

pub open spec fn scope_display_text(scope: Scope) -> Seq<char> {
    match scope {
        Scope::Workspace => "📄 workspace"@,
        Scope::Global => "🌍 global"@,
        Scope::Profile => "👤 profile"@,
    }
}

impl Scope {
    /// The plain lower-case name of the scope.
    pub fn name(&self) -> (r: String)
        ensures
            r@ == scope_name_text(*self),
    {
        proof {
            reveal_strlit("workspace");
            reveal_strlit("global");
            reveal_strlit("profile");
        }
        match self {
            Scope::Workspace => String::from_str("workspace"),
            Scope::Global => String::from_str("global"),
            Scope::Profile => String::from_str("profile"),
        }
    }
}

/// The decorated label of a scope, as shown to the user.
pub fn scope_display(scope: &Scope) -> (r: String)
    ensures
        r@ == scope_display_text(*scope),
{
    proof {
        reveal_strlit("📄 workspace");
        reveal_strlit("🌍 global");
        reveal_strlit("👤 profile");
    }
    match scope {
        Scope::Workspace => String::from_str("📄 workspace"),
        Scope::Global => String::from_str("🌍 global"),
        Scope::Profile => String::from_str("👤 profile"),
    }
}

/// A file-system path, as its sequence of components.
#[derive(Debug, PartialEq, Eq)]
pub struct Location {
    pub parts: Vec<String>,
}

impl View for Location {
    type V = Seq<Seq<char>>;

    open spec fn view(&self) -> Seq<Seq<char>> {
        self.parts@.map_values(|s: String| s@)
    }
}

impl Location {
    /// A copy of this location.
    pub fn duplicate(&self) -> (r: Location)
        ensures
            r@ == self@,
    {
        let parts = self.parts.clone();
        proof {
            assert forall|i: int| 0 <= i < parts@.len() implies parts@[i] == self.parts@[i] by {
                assert(cloned(self.parts@[i], parts@[i]));
            }
            assert(parts@ =~= self.parts@);
        }
        Location { parts }
    }

    /// The location followed by one more component.
    pub fn join(&self, part: &str) -> (r: Location)
        ensures
            r@ == self@.push(part@),
    {
        let mut r = self.duplicate();
        r.parts.push(String::from_str(part));
        proof {
            assert(r@ =~= self@.push(part@));
        }
        r
    }

    /// The directory holding this location; `None` for an empty path.
    pub fn parent(&self) -> (r: Option<Location>)
        ensures
            self@.len() == 0 ==> r is None,
            self@.len() > 0 ==> r is Some && r->0@ == self@.drop_last(),
    {
        let n = self.parts.len();
        if n == 0 {
            return None;
        }
        let mut parts: Vec<String> = Vec::new();
        let mut i: usize = 0;
        while i < n - 1
            invariant
                n == self.parts@.len(),
                n > 0,
                i <= n - 1,
                parts@.len() == i,
                forall|j: int| 0 <= j < i ==> parts@[j]@ == self.parts@[j]@,
            decreases n - 1 - i,
        {
            parts.push(self.parts[i].clone());
            i = i + 1;
        }
        let r = Location { parts };
        proof {
            assert(r@ =~= self@.drop_last());
        }
        Some(r)
    }
}

/// Where the configuration files of each scope live.
pub struct ConfigRoots {
    /// The workspace configuration file.
    pub workspace: Location,
    /// The user-global configuration file.
    pub global: Location,
    /// The directory that holds one directory per profile.
    pub profiles: Location,
}

pub open spec fn config_file_name() -> Seq<char> {
    "mcp.json"@
}

/// The configuration file of a named profile.
pub open spec fn profile_path_spec(roots: &ConfigRoots, name: Seq<char>) -> Seq<Seq<char>> {
    roots.profiles@.push(name).push(config_file_name())
}

/// Why a location could not be resolved.
#[derive(Debug, Clone, Copy, PartialEq, Eq, Structural)]
pub enum ResolveError {
    MissingProfileName,
}

/// The location that a scope and an optional profile name govern: no scope means the workspace.
pub open spec fn resolve_spec(
    roots: &ConfigRoots,
    scope: Option<Scope>,
    profile: Option<Seq<char>>,
) -> Result<Seq<Seq<char>>, ResolveError> {
    match scope {
        Some(Scope::Global) => Ok(roots.global@),
        Some(Scope::Profile) => match profile {
            Some(name) => Ok(profile_path_spec(roots, name)),
            None => Err(ResolveError::MissingProfileName),
        },
        _ => Ok(roots.workspace@),
    }
}

pub open spec fn opt_view(s: Option<String>) -> Option<Seq<char>> {
    match s {
        Some(v) => Some(v@),
        None => None,
    }
}

/// The configuration file of a named profile.
pub fn profile_mcp_path(roots: &ConfigRoots, name: &str) -> (r: Location)
    ensures
        r@ == profile_path_spec(roots, name@),
{
    proof {
        reveal_strlit("mcp.json");
    }
    let dir = roots.profiles.join(name);
    dir.join("mcp.json")
}

/// Resolves a scope and an optional profile name to the configuration file that governs it.
pub fn resolve_scope_profile(
    roots: &ConfigRoots,
    scope: Option<Scope>,
    profile: Option<String>,
) -> (r: Result<Location, ResolveError>)
    ensures
        match (r, resolve_spec(roots, scope, opt_view(profile))) {
            (Ok(l), Ok(p)) => l@ == p,
            (Err(e), Err(f)) => e == f,
            _ => false,
        },
{
    match scope {
        Some(Scope::Global) => Ok(roots.global.duplicate()),
        Some(Scope::Profile) => match profile {
            Some(name) => Ok(profile_mcp_path(roots, name.as_str())),
            None => Err(ResolveError::MissingProfileName),
        },
        _ => Ok(roots.workspace.duplicate()),
    }
}

/// Resolution is a function of its inputs: equal inputs give equal locations.
pub proof fn lemma_resolve_deterministic(
    roots1: &ConfigRoots,
    roots2: &ConfigRoots,
    scope: Option<Scope>,
    profile: Option<Seq<char>>,
)
    requires
        roots1.workspace@ == roots2.workspace@,
        roots1.global@ == roots2.global@,
        roots1.profiles@ == roots2.profiles@,
    ensures
        resolve_spec(roots1, scope, profile) == resolve_spec(roots2, scope, profile),
{
}

} // verus!
