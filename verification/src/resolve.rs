//! Resolution of the namespace paths that generated code references: the
//! umbrella branch when the consuming project depends on the umbrella
//! distribution, the standalone branch otherwise.

use vstd::prelude::*;
use vstd::string::*;

verus! {

// A parsed path of the syntax-tree library, carried through opaquely.
#[verifier::external_type_specification]
#[verifier::external_body]
pub struct ExSynPath(syn::Path);

/// The kind of a declared dependency; only normal-kind entries are
/// inspected during resolution.
#[derive(Debug, Clone, Copy, PartialEq, Eq, Structural)]
pub enum DependencyKind {
    Normal,
    Development,
    Build,
    Unknown,
}

/// One entry of the consuming project's direct dependency list: its name as
/// declared, and its kind.
#[derive(Debug, Clone)]
pub struct DependencyEntry {
    pub name: String,
    pub kind: DependencyKind,
}

/// The three namespace paths (core, contract binding, providers) emitted
/// code references. All three always come from the same resolution branch.
#[derive(Debug, Clone)]
pub struct NamespacePaths {
    pub core: String,
    pub contract: String,
    pub providers: String,
}

impl View for NamespacePaths {
    type V = (Seq<char>, Seq<char>, Seq<char>);

    open spec fn view(&self) -> (Seq<char>, Seq<char>, Seq<char>) {
        (self.core@, self.contract@, self.providers@)
    }
}

/// The umbrella branch: all three paths reference submodules of the
/// umbrella distribution.
pub open spec fn umbrella_paths() -> (Seq<char>, Seq<char>, Seq<char>) {
    ("ethers::core"@, "ethers::contract"@, "ethers::providers"@)
}

/// The standalone branch: each namespace is referenced directly.
pub open spec fn standalone_paths() -> (Seq<char>, Seq<char>, Seq<char>) {
    ("ethers_core"@, "ethers_contract"@, "ethers_providers"@)
}

impl NamespacePaths {
    pub open spec fn is_umbrella_branch(&self) -> bool {
        self@ == umbrella_paths()
    }

    pub open spec fn is_standalone_branch(&self) -> bool {
        self@ == standalone_paths()
    }

    /// The invariant of a resolved value: the three paths were derived
    /// together, from one branch.
    pub open spec fn well_formed(&self) -> bool {
        self.is_umbrella_branch() || self.is_standalone_branch()
    }
}

/// Whether the dependency list holds a direct, normal-kind dependency on
/// the umbrella distribution.
pub open spec fn has_umbrella_dependency(deps: Seq<DependencyEntry>) -> bool {
    exists|i: int|
        0 <= i < deps.len() && #[trigger] deps[i].kind == DependencyKind::Normal
            && deps[i].name@ == "ethers"@
}

/// What resolution yields from the outcome of the dependency query: the
/// umbrella branch exactly when the query succeeded and found the umbrella
/// dependency; a failed query (None) falls back to the standalone branch
/// and is not an error.
pub open spec fn resolved_paths(deps: Option<Seq<DependencyEntry>>) -> (
    Seq<char>,
    Seq<char>,
    Seq<char>,
) {
    match deps {
        Some(ds) => if has_umbrella_dependency(ds) {
            umbrella_paths()
        } else {
            standalone_paths()
        },
        None => standalone_paths(),
    }
}

fn umbrella_value() -> (r: NamespacePaths)
    ensures
        r@ == umbrella_paths(),
{
    NamespacePaths {
        core: String::from_str("ethers::core"),
        contract: String::from_str("ethers::contract"),
        providers: String::from_str("ethers::providers"),
    }
}

fn standalone_value() -> (r: NamespacePaths)
    ensures
        r@ == standalone_paths(),
{
    NamespacePaths {
        core: String::from_str("ethers_core"),
        contract: String::from_str("ethers_contract"),
        providers: String::from_str("ethers_providers"),
    }
}

/// Chooses the namespace branch from the consuming project's direct
/// dependency list, `None` standing for a dependency query that failed for
/// any reason. The umbrella branch is chosen exactly when a normal-kind
/// dependency named `ethers` is present; every other outcome, a failed
/// query included, silently selects the standalone branch.
pub fn determine_ethers_crates(deps: Option<&Vec<DependencyEntry>>) -> (r: NamespacePaths)
    ensures
        r.well_formed(),
        match deps {
            Some(ds) => r@ == resolved_paths(Some(ds@)),
            None => r@ == resolved_paths(None::<Seq<DependencyEntry>>),
        },
{
    match deps {
        None => standalone_value(),
        Some(ds) => {
            let needle = String::from_str("ethers");
            let mut i: usize = 0;
            while i < ds.len()
                invariant
                    deps == Some(ds),
                    i <= ds@.len(),
                    needle@ == "ethers"@,
                    forall|j: int|
                        0 <= j < i ==> !(#[trigger] ds@[j].kind == DependencyKind::Normal
                            && ds@[j].name@ == "ethers"@),
                decreases ds@.len() - i,
            {
                let d = &ds[i];
                if d.kind == DependencyKind::Normal && d.name == needle {
                    proof {
                        let wi = i as int;
                        assert(0 <= wi < ds@.len() && ds@[wi].kind == DependencyKind::Normal
                            && ds@[wi].name@ == "ethers"@);
                        assert(has_umbrella_dependency(ds@));
                    }
                    return umbrella_value();
                }
                i = i + 1;
            }
            standalone_value()
        },
    }
}

/// Resolution never depends on anything but the dependency view: two
/// resolved values obtained from the same query outcome are identical,
/// whatever else differed between the two calls.
pub proof fn lemma_resolution_deterministic(
    a: NamespacePaths,
    b: NamespacePaths,
    deps: Option<Seq<DependencyEntry>>,
)
    requires
        a@ == resolved_paths(deps),
        b@ == resolved_paths(deps),
    ensures
        a@ == b@,
{
}

/// The cleanup rule for the lock/snapshot artifact the dependency query may
/// write as a byproduct: it is removed exactly when it did not exist before
/// the query, and left untouched otherwise.
pub fn lock_cleanup_needed(lock_existed_before: bool) -> (r: bool)
    ensures
        r == !lock_existed_before,
{
    !lock_existed_before
}

/// Whether `s` parses as a (possibly qualified) path of the target
/// language, as the syntax-tree library decides it.
pub uninterp spec fn path_syntax_ok(s: Seq<char>) -> bool;

/// Relies on `syn::parse_str::<syn::Path>`: it succeeds exactly when the
/// text is path syntax.
#[verifier::external_body]
fn parse_path(s: &str) -> (r: Option<syn::Path>)
    ensures
        (r is Some) <==> path_syntax_ok(s@),
{
    syn::parse_str::<syn::Path>(s).ok()
}

/// The resolved core namespace as a parsed path.
pub fn ethers_core_crate(paths: &NamespacePaths) -> (r: Option<syn::Path>)
    ensures
        (r is Some) <==> path_syntax_ok(paths.core@),
{
    parse_path(paths.core.as_str())
}

/// The resolved contract-binding namespace as a parsed path.
pub fn ethers_contract_crate(paths: &NamespacePaths) -> (r: Option<syn::Path>)
    ensures
        (r is Some) <==> path_syntax_ok(paths.contract@),
{
    parse_path(paths.contract.as_str())
}

/// The resolved providers namespace as a parsed path.
pub fn ethers_providers_crate(paths: &NamespacePaths) -> (r: Option<syn::Path>)
    ensures
        (r is Some) <==> path_syntax_ok(paths.providers@),
{
    parse_path(paths.providers.as_str())
}

} // verus!
