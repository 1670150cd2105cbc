use vstd::prelude::*;

use crate::registry::{contained_load, load_config_with_error_handling, ConfigFile, ServerRegistry};
use crate::scope::{
    opt_view, profile_path_spec, resolve_scope_profile, resolve_spec, ConfigRoots, Location,
    ResolveError, Scope,
};

verus! {

/// A scope to read, with the file that governs it.
#[derive(Debug, PartialEq, Eq)]
pub struct Candidate {
    pub scope: Scope,
    pub location: Location,
}

/// One scope of an aggregated view: its file, and its document unless that was malformed.
#[derive(Debug, PartialEq, Eq)]
pub struct ScopeEntry {
    pub scope: Scope,
    pub location: Location,
    pub config: Option<ServerRegistry>,
}

/// The scopes consulted, most specific first.
pub open spec fn planned_scopes(scope: Option<Scope>, profile: Option<Seq<char>>) -> Seq<Scope> {
    match scope {
        Some(s) => seq![s],
        None => if profile is Some {
            seq![Scope::Profile, Scope::Workspace, Scope::Global]
        } else {
            seq![Scope::Workspace, Scope::Global]
        },
    }
}

/// An entry after which no broader scope is read: a profile whose document is exclusive.
pub open spec fn stops_at(e: ScopeEntry) -> bool {
    e.scope == Scope::Profile && e.config is Some && e.config->0.exclusive
}

/// Reads the scopes of a view one file at a time, in precedence order, and stops
/// as soon as a profile declares itself exclusive.
pub struct Aggregator {
    pub plan: Vec<Candidate>,
    pub entries: Vec<ScopeEntry>,
}

impl Aggregator {
    pub open spec fn wf(&self) -> bool {
        &&& self.entries@.len() <= self.plan@.len()
        &&& forall|i: int|
            0 <= i < self.entries@.len() ==> {
                &&& #[trigger] self.entries@[i].scope == self.plan@[i].scope
                &&& self.entries@[i].location@ == self.plan@[i].location@
                &&& i < self.entries@.len() - 1 ==> !stops_at(self.entries@[i])
            }
    }

    /// No file is left to read.
    pub open spec fn done(&self) -> bool {
        ||| self.entries@.len() >= self.plan@.len()
        ||| (self.entries@.len() > 0 && stops_at(self.entries@.last()))
    }

    /// Nothing read yet, and the plan for this request.
    pub open spec fn planned_for(
        &self,
        roots: &ConfigRoots,
        scope: Option<Scope>,
        profile: Option<Seq<char>>,
    ) -> bool {
        &&& self.wf()
        &&& self.entries@.len() == 0
        &&& self.plan@.len() == planned_scopes(scope, profile).len()
        &&& forall|i: int|
            0 <= i < self.plan@.len() ==> {
                &&& #[trigger] self.plan@[i].scope == planned_scopes(scope, profile)[i]
                &&& resolve_spec(roots, Some(self.plan@[i].scope), profile) is Ok
                &&& self.plan@[i].location@ == resolve_spec(
                    roots,
                    Some(self.plan@[i].scope),
                    profile,
                )->Ok_0
            }
    }

    /// `b` is `a` after the next file, found as `file`, was read.
    pub open spec fn fed(a: Aggregator, file: ConfigFile, b: Aggregator) -> bool {
        let i = a.entries@.len() as int;
        &&& a.wf()
        &&& !a.done()
        &&& b.wf()
        &&& b.plan@ == a.plan@
        &&& b.entries@.len() == i + 1
        &&& b.entries@.take(i) == a.entries@
        &&& b.entries@[i].scope == a.plan@[i].scope
        &&& b.entries@[i].location@ == a.plan@[i].location@
        &&& contained_load(file, b.entries@[i].config)
    }

    /// Plans the reads of a view: one scope when it is named, else the profile (when a
    /// name is given), the workspace and the global scope.
    pub fn new(roots: &ConfigRoots, scope: Option<Scope>, profile: Option<String>) -> (r: Result<
        Aggregator,
        ResolveError,
    >)
        ensures
            (r is Err) == (scope == Some(Scope::Profile) && profile is None),
            r is Err ==> r->Err_0 == ResolveError::MissingProfileName,
            r is Ok ==> r->Ok_0.planned_for(roots, scope, opt_view(profile)),
    {
        let ghost pv = opt_view(profile);
        let mut plan: Vec<Candidate> = Vec::new();
        match scope {
            Some(s) => {
                let location = resolve_scope_profile(roots, Some(s), profile)?;
                plan.push(Candidate { scope: s, location });
            },
            None => {
                if let Some(name) = profile {
                    let location = resolve_scope_profile(roots, Some(Scope::Profile), Some(name))?;
                    plan.push(Candidate { scope: Scope::Profile, location });
                }
                let location = resolve_scope_profile(roots, Some(Scope::Workspace), None)?;
                plan.push(Candidate { scope: Scope::Workspace, location });
                let location = resolve_scope_profile(roots, Some(Scope::Global), None)?;
                plan.push(Candidate { scope: Scope::Global, location });
            },
        }
        let r = Aggregator { plan, entries: Vec::new() };
        assert(r.plan@.len() == planned_scopes(scope, pv).len());
        Ok(r)
    }

    /// The file to read next, or `None` when the view is complete.
    pub fn next_location(&self) -> (r: Option<Location>)
        requires
            self.wf(),
        ensures
            (r is None) == self.done(),
            r is Some ==> r->0@ == self.plan@[self.entries@.len() as int].location@,
    {
        let n = self.entries.len();
        if n >= self.plan.len() {
            return None;
        }
        if n > 0 {
            let last = &self.entries[n - 1];
            if last.scope == Scope::Profile {
                if let Some(cfg) = &last.config {
                    if cfg.exclusive {
                        return None;
                    }
                }
            }
        }
        Some(self.plan[n].location.duplicate())
    }

    /// Records what was found at the location that `next_location` named.
    pub fn feed(&mut self, file: ConfigFile)
        requires
            old(self).wf(),
            !old(self).done(),
        ensures
            Aggregator::fed(*old(self), file, *final(self)),
    {
        let i = self.entries.len();
        let config = load_config_with_error_handling(file);
        let entry = ScopeEntry {
            scope: self.plan[i].scope,
            location: self.plan[i].location.duplicate(),
            config,
        };
        self.entries.push(entry);
        proof {
            assert(self.entries@.take(i as int) =~= old(self).entries@);
        }
    }

    /// The view: one entry per scope read, in precedence order.
    pub fn finish(self) -> (r: Vec<ScopeEntry>)
        ensures
            r@ == self.entries@,
    {
        self.entries
    }
}

/// A view of all scopes for a profile whose document is exclusive holds that profile alone:
/// after its file is read nothing is left to read, so the workspace and global files are
/// never opened.
pub proof fn lemma_exclusive_profile_hides_broader_scopes(
    roots: &ConfigRoots,
    profile: Seq<char>,
    a: Aggregator,
    r: ServerRegistry,
    b: Aggregator,
)
    requires
        a.planned_for(roots, None, Some(profile)),
        Aggregator::fed(a, ConfigFile::Parsed(r), b),
        r.exclusive,
    ensures
        b.done(),
        b.entries@.len() == 1,
        b.entries@[0].scope == Scope::Profile,
        b.entries@[0].location@ == profile_path_spec(roots, profile),
        b.entries@[0].config == Some(r),
{
    assert(a.plan@[0].scope == planned_scopes(None, Some(profile))[0]);
}

/// When the profile's document is not exclusive, reading goes on to the workspace.
pub proof fn lemma_non_exclusive_profile_continues(
    roots: &ConfigRoots,
    profile: Seq<char>,
    a: Aggregator,
    r: ServerRegistry,
    b: Aggregator,
)
    requires
        a.planned_for(roots, None, Some(profile)),
        Aggregator::fed(a, ConfigFile::Parsed(r), b),
        !r.exclusive,
    ensures
        !b.done(),
        b.plan@[1].scope == Scope::Workspace,
        b.plan@[1].location@ == roots.workspace@,
{
    assert(a.plan@[0].scope == planned_scopes(None, Some(profile))[0]);
    assert(a.plan@[1].scope == planned_scopes(None, Some(profile))[1]);
}

/// Without exclusivity a view of all scopes for a profile holds three entries, profile,
/// workspace and global in that order, each with its own document and none merged.
pub proof fn lemma_non_exclusive_view_keeps_every_scope(
    roots: &ConfigRoots,
    profile: Seq<char>,
    a0: Aggregator,
    r0: ServerRegistry,
    a1: Aggregator,
    r1: ServerRegistry,
    a2: Aggregator,
    r2: ServerRegistry,
    a3: Aggregator,
)
    requires
        a0.planned_for(roots, None, Some(profile)),
        Aggregator::fed(a0, ConfigFile::Parsed(r0), a1),
        Aggregator::fed(a1, ConfigFile::Parsed(r1), a2),
        Aggregator::fed(a2, ConfigFile::Parsed(r2), a3),
        !r0.exclusive,
    ensures
        a3.done(),
        a3.entries@.len() == 3,
        a3.entries@[0].scope == Scope::Profile,
        a3.entries@[1].scope == Scope::Workspace,
        a3.entries@[2].scope == Scope::Global,
        a3.entries@[0].location@ == profile_path_spec(roots, profile),
        a3.entries@[1].location@ == roots.workspace@,
        a3.entries@[2].location@ == roots.global@,
        a3.entries@[0].config == Some(r0),
        a3.entries@[1].config == Some(r1),
        a3.entries@[2].config == Some(r2),
{
    let ps = planned_scopes(None, Some(profile));
    assert(a0.plan@[0].scope == ps[0]);
    assert(a0.plan@[1].scope == ps[1]);
    assert(a0.plan@[2].scope == ps[2]);
    assert(a3.entries@.take(2)[0] == a3.entries@[0]);
    assert(a3.entries@.take(2)[1] == a3.entries@[1]);
    assert(a2.entries@.take(1)[0] == a2.entries@[0]);
}

} // verus!
