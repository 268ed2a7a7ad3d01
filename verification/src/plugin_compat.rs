//! Profile plugin compatibility decided against one concrete DSH installation.
//!
//! Reading `package.json` files is the caller's part: it hands over the parsed
//! profile manifest, the resolution of every referenced package, and which of
//! the probed package names exist. Everything that decides compatibility is here.

use vstd::prelude::*;
use vstd::string::StringSliceAdditionalSpecFns;
use crate::order::{
    first_after, insert_sorted, lemma_first_after, lemma_sort_by_elements, sort_by, sort_strings,
    str_order,
    text_order, text_order_fn, views,
};
use crate::text::{bytes_of, join, join_strings, matches_at, starts_with_str};

verus! {

/// Prefix of the package names that only the selected core may provide.
pub const DSH_PACKAGE_PREFIX: &'static str = "@deepseek-ai/dsh-";

/// Client runtime shipped only by legacy cores.
pub const LEGACY_CLIENT_RUNTIME: &'static str = "@deepseek-ai/dsh-client-runtime";

pub const CODE_PACKAGE_MISSING: &'static str = "PLUGIN_PACKAGE_MISSING";

pub const CODE_BUNDLE_MISSING: &'static str = "PLUGIN_BUNDLE_MISSING";

pub const CODE_CLIENT_MODULE_MISSING: &'static str = "PLUGIN_CLIENT_MODULE_MISSING";

pub const CODE_OWNS_CORE_DEPENDENCY: &'static str = "PLUGIN_OWNS_CORE_DEPENDENCY";

pub const PACKAGE_MISSING_DETAIL: &'static str =
    "profile references a package that is absent from both the profile and the selected core";

/// One incompatibility found in a profile.
#[derive(Debug, Clone, PartialEq, Eq)]
pub struct CompatibilityIssue {
    pub code: String,
    pub package: String,
    pub dependency: String,
    pub detail: String,
}

/// The contents of an issue as character sequences.
pub struct IssueView {
    pub code: Seq<char>,
    pub package: Seq<char>,
    pub dependency: Seq<char>,
    pub detail: Seq<char>,
}

impl View for CompatibilityIssue {
    type V = IssueView;

    open spec fn view(&self) -> IssueView {
        IssueView {
            code: self.code@,
            package: self.package@,
            dependency: self.dependency@,
            detail: self.detail@,
        }
    }
}

/// The result of checking a profile against a core.
#[derive(Debug, Clone, PartialEq, Eq)]
pub struct CompatibilityReport {
    pub compatible: bool,
    pub core_path: String,
    pub profile_path: String,
    pub checked_packages: Vec<String>,
    pub issues: Vec<CompatibilityIssue>,
}

/// What the compatibility gate reads from a package's `package.json`.
#[derive(Debug, Clone)]
pub struct PackageManifest {
    /// `name`, empty when absent.
    pub name: String,
    /// `dependencies`, in key order.
    pub dependencies: Vec<(String, String)>,
    /// Whether `dsh.bundle` is present.
    pub has_bundle: bool,
    /// `dsh.client.inject`.
    pub inject: Vec<String>,
}

/// What the compatibility gate reads from the profile's `package.json`.
#[derive(Debug, Clone)]
pub struct ProfileManifest {
    /// The keys of `dependencies`.
    pub dependencies: Vec<String>,
    /// `dsh.profile.bundles`, empty when absent.
    pub bundles: Vec<String>,
}

/// Where a referenced package was found.
#[derive(Debug, Clone)]
pub enum Resolution {
    /// Neither the profile nor the core holds the package.
    Missing { reference: String },
    /// The manifest was found in the profile (`profile_owned`) or else in the core.
    Found { reference: String, manifest: PackageManifest, profile_owned: bool },
}

pub open spec fn issue_view_order() -> spec_fn(IssueView, IssueView) -> int {
    |a: IssueView, b: IssueView|
        {
            let p = text_order(a.package, b.package);
            if p != 0 {
                p
            } else {
                let c = text_order(a.code, b.code);
                if c != 0 {
                    c
                } else {
                    text_order(a.dependency, b.dependency)
                }
            }
        }
}

pub open spec fn issue_views(s: Seq<CompatibilityIssue>) -> Seq<IssueView> {
    s.map_values(|i: CompatibilityIssue| i@)
}

/// The name under which a package is reported: its manifest name, or the reference.
pub open spec fn package_label(manifest: PackageManifest, reference: Seq<char>) -> Seq<char> {
    if manifest.name@.len() == 0 {
        reference
    } else {
        manifest.name@
    }
}

pub open spec fn missing_issue(reference: Seq<char>) -> IssueView {
    IssueView {
        code: CODE_PACKAGE_MISSING@,
        package: reference,
        dependency: reference,
        detail: PACKAGE_MISSING_DETAIL@,
    }
}

pub open spec fn bundle_issue(package: Seq<char>, reference: Seq<char>) -> IssueView {
    IssueView {
        code: CODE_BUNDLE_MISSING@,
        package: package,
        dependency: reference,
        detail: package
            + " is installed as a profile dependency but declares no dsh.bundle and therefore cannot activate"@,
    }
}

pub open spec fn inject_issue(package: Seq<char>, injected: Seq<char>) -> IssueView {
    IssueView {
        code: CODE_CLIENT_MODULE_MISSING@,
        package: package,
        dependency: injected,
        detail: package + " injects "@ + injected
            + ", but the selected core and profile do not provide it"@,
    }
}

pub open spec fn core_dependency_issue(
    package: Seq<char>,
    dependency: Seq<char>,
    range: Seq<char>,
) -> IssueView {
    IssueView {
        code: CODE_OWNS_CORE_DEPENDENCY@,
        package: package,
        dependency: dependency,
        detail: package + " declares "@ + dependency + "@"@ + range
            + " as a runtime dependency; DSH packages must come from the selected core"@,
    }
}

/// Issues for injected client modules that `present` does not hold.
pub open spec fn inject_issues(
    package: Seq<char>,
    inject: Seq<String>,
    present: Seq<Seq<char>>,
) -> Seq<IssueView>
    decreases inject.len(),
{
    if inject.len() == 0 {
        seq![]
    } else {
        let prev = inject_issues(package, inject.drop_last(), present);
        if present.contains(inject.last()@) {
            prev
        } else {
            prev.push(inject_issue(package, inject.last()@))
        }
    }
}

/// Whether a dependency name lies in the core-owned `@deepseek-ai/dsh-` namespace.
pub open spec fn is_core_package(name: Seq<char>) -> bool {
    matches_at(bytes_of(name), bytes_of(DSH_PACKAGE_PREFIX@), 0)
}

/// Issues for core-owned runtime dependencies, raised only when `flagged`.
pub open spec fn core_dependency_issues(
    package: Seq<char>,
    dependencies: Seq<(String, String)>,
    flagged: bool,
) -> Seq<IssueView>
    decreases dependencies.len(),
{
    if dependencies.len() == 0 {
        seq![]
    } else {
        let prev = core_dependency_issues(package, dependencies.drop_last(), flagged);
        let (dependency, range) = dependencies.last();
        if flagged && is_core_package(dependency@) {
            prev.push(core_dependency_issue(package, dependency@, range@))
        } else {
            prev
        }
    }
}

/// The issues one resolved reference contributes, in discovery order.
pub open spec fn resolution_issues(
    r: Resolution,
    present: Seq<Seq<char>>,
    legacy_core: bool,
) -> Seq<IssueView> {
    match r {
        Resolution::Missing { reference } => seq![missing_issue(reference@)],
        Resolution::Found { reference, manifest, profile_owned } => {
            let package = package_label(manifest, reference@);
            (if profile_owned && !manifest.has_bundle {
                seq![bundle_issue(package, reference@)]
            } else {
                seq![]
            }) + inject_issues(package, manifest.inject@, present) + core_dependency_issues(
                package,
                manifest.dependencies@,
                profile_owned && !legacy_core,
            )
        },
    }
}

/// All issues in discovery order.
pub open spec fn all_issues(
    rs: Seq<Resolution>,
    present: Seq<Seq<char>>,
    legacy_core: bool,
) -> Seq<IssueView>
    decreases rs.len(),
{
    if rs.len() == 0 {
        seq![]
    } else {
        all_issues(rs.drop_last(), present, legacy_core) + resolution_issues(
            rs.last(),
            present,
            legacy_core,
        )
    }
}

/// Where a core-dependency issue may come from: the shell does not run on a
/// legacy core, and some reference resolved from the profile itself (never
/// from the core) has a manifest declaring that `@deepseek-ai/dsh-`
/// dependency, under that package's name.
pub open spec fn owned_dependency_origin(v: IssueView, rs: Seq<Resolution>, legacy_core: bool) -> bool {
    &&& !legacy_core
    &&& matches_at(bytes_of(v.dependency), bytes_of(DSH_PACKAGE_PREFIX@), 0)
    &&& exists|k: int|
        0 <= k < rs.len() && (#[trigger] rs[k] matches Resolution::Found {
            reference,
            manifest,
            profile_owned,
        } && profile_owned && v.package == (if manifest.name@.len() == 0 {
            reference@
        } else {
            manifest.name@
        }) && exists|d: int|
            0 <= d < manifest.dependencies@.len() && (#[trigger] manifest.dependencies@[d]).0@
                == v.dependency)
}

proof fn lemma_codes_distinct()
    ensures
        CODE_OWNS_CORE_DEPENDENCY@ != CODE_PACKAGE_MISSING@,
        CODE_OWNS_CORE_DEPENDENCY@ != CODE_BUNDLE_MISSING@,
        CODE_OWNS_CORE_DEPENDENCY@ != CODE_CLIENT_MODULE_MISSING@,
{
    reveal_strlit("PLUGIN_OWNS_CORE_DEPENDENCY");
    reveal_strlit("PLUGIN_PACKAGE_MISSING");
    reveal_strlit("PLUGIN_BUNDLE_MISSING");
    reveal_strlit("PLUGIN_CLIENT_MODULE_MISSING");
    assert(CODE_OWNS_CORE_DEPENDENCY@.len() != CODE_PACKAGE_MISSING@.len());
    assert(CODE_OWNS_CORE_DEPENDENCY@.len() != CODE_BUNDLE_MISSING@.len());
    assert(CODE_OWNS_CORE_DEPENDENCY@.len() != CODE_CLIENT_MODULE_MISSING@.len());
}

proof fn lemma_inject_issue_codes(package: Seq<char>, inject: Seq<String>, present: Seq<Seq<char>>)
    ensures
        forall|i: int|
            0 <= i < inject_issues(package, inject, present).len() ==> (#[trigger] inject_issues(
                package,
                inject,
                present,
            )[i]).code == CODE_CLIENT_MODULE_MISSING@,
    decreases inject.len(),
{
    if inject.len() > 0 {
        lemma_inject_issue_codes(package, inject.drop_last(), present);
        let prev = inject_issues(package, inject.drop_last(), present);
        let all = inject_issues(package, inject, present);
        assert forall|i: int| 0 <= i < all.len() implies (#[trigger] all[i]).code
            == CODE_CLIENT_MODULE_MISSING@ by {
            if i < prev.len() {
                assert(all[i] == prev[i]);
            } else {
                assert(all[i] == inject_issue(package, inject.last()@));
            }
        }
    }
}

/// What a core-dependency issue of `package` says.
pub open spec fn core_dependency_issue_fits(
    v: IssueView,
    package: Seq<char>,
    dependencies: Seq<(String, String)>,
    flagged: bool,
) -> bool {
    &&& flagged
    &&& v.code == CODE_OWNS_CORE_DEPENDENCY@
    &&& v.package == package
    &&& is_core_package(v.dependency)
    &&& exists|d: int| 0 <= d < dependencies.len() && (#[trigger] dependencies[d]).0@ == v.dependency
}

proof fn lemma_core_dependency_issue_facts(
    package: Seq<char>,
    dependencies: Seq<(String, String)>,
    flagged: bool,
)
    ensures
        forall|i: int|
            0 <= i < core_dependency_issues(package, dependencies, flagged).len()
                ==> core_dependency_issue_fits(
                #[trigger] core_dependency_issues(package, dependencies, flagged)[i],
                package,
                dependencies,
                flagged,
            ),
    decreases dependencies.len(),
{
    if dependencies.len() > 0 {
        let prev = dependencies.drop_last();
        lemma_core_dependency_issue_facts(package, prev, flagged);
        let all = core_dependency_issues(package, dependencies, flagged);
        let before = core_dependency_issues(package, prev, flagged);
        assert forall|i: int| 0 <= i < all.len() implies core_dependency_issue_fits(
            #[trigger] all[i],
            package,
            dependencies,
            flagged,
        ) by {
            if i < before.len() {
                assert(all[i] == before[i]);
                assert(core_dependency_issue_fits(before[i], package, prev, flagged));
                let d = choose|d: int| 0 <= d < prev.len() && (#[trigger] prev[d]).0@ == before[i].dependency;
                assert(dependencies[d] == prev[d]);
            } else {
                let n = dependencies.len() - 1;
                let dep = dependencies[n];
                assert(dependencies.last() == dep);
                assert(flagged && is_core_package(dep.0@));
                assert(all[i] == core_dependency_issue(package, dep.0@, dep.1@));
                assert(dependencies[n].0@ == all[i].dependency);
            }
        }
    }
}

/// A `PLUGIN_OWNS_CORE_DEPENDENCY` issue is raised only for a package the
/// profile itself holds (`profile_owned`) when the core is not a legacy
/// core, and only for a `@deepseek-ai/dsh-` dependency its manifest declares;
/// a package resolved from the selected core never yields it, whatever its
/// dependencies.
pub proof fn lemma_core_dependency_issues_only_for_profile_packages(
    rs: Seq<Resolution>,
    present: Seq<Seq<char>>,
    legacy_core: bool,
)
    ensures
        forall|i: int|
            0 <= i < all_issues(rs, present, legacy_core).len() && (#[trigger] all_issues(
                rs,
                present,
                legacy_core,
            )[i]).code == CODE_OWNS_CORE_DEPENDENCY@ ==> owned_dependency_origin(
                all_issues(rs, present, legacy_core)[i],
                rs,
                legacy_core,
            ),
    decreases rs.len(),
{
    if rs.len() > 0 {
        let prev_rs = rs.drop_last();
        lemma_core_dependency_issues_only_for_profile_packages(prev_rs, present, legacy_core);
        lemma_codes_distinct();
        let before = all_issues(prev_rs, present, legacy_core);
        let r = rs.last();
        let mine = resolution_issues(r, present, legacy_core);
        let all = all_issues(rs, present, legacy_core);
        assert(all == before + mine);
        assert forall|i: int|
            0 <= i < all.len() && (#[trigger] all[i]).code == CODE_OWNS_CORE_DEPENDENCY@ implies owned_dependency_origin(
            all[i],
            rs,
            legacy_core,
        ) by {
            if i < before.len() {
                assert(all[i] == before[i]);
                let v = before[i];
                let k = choose|k: int|
                    0 <= k < prev_rs.len() && (#[trigger] prev_rs[k] matches Resolution::Found {
                        reference,
                        manifest,
                        profile_owned,
                    } && profile_owned && v.package == (if manifest.name@.len() == 0 {
                        reference@
                    } else {
                        manifest.name@
                    }) && exists|d: int|
                        0 <= d < manifest.dependencies@.len() && (#[trigger] manifest.dependencies@[d]).0@
                            == v.dependency);
                assert(rs[k] == prev_rs[k]);
            } else {
                let j = i - before.len();
                assert(all[i] == mine[j]);
                let n = rs.len() - 1;
                assert(rs[n] == r);
                match r {
                    Resolution::Missing { reference } => {
                        assert(mine =~= seq![missing_issue(reference@)]);
                    },
                    Resolution::Found { reference, manifest, profile_owned } => {
                        let package = package_label(manifest, reference@);
                        let bp: Seq<IssueView> = if profile_owned && !manifest.has_bundle {
                            seq![bundle_issue(package, reference@)]
                        } else {
                            seq![]
                        };
                        let ip = inject_issues(package, manifest.inject@, present);
                        let cp = core_dependency_issues(
                            package,
                            manifest.dependencies@,
                            profile_owned && !legacy_core,
                        );
                        assert(mine == bp + ip + cp);
                        lemma_inject_issue_codes(package, manifest.inject@, present);
                        lemma_core_dependency_issue_facts(
                            package,
                            manifest.dependencies@,
                            profile_owned && !legacy_core,
                        );
                        if j < bp.len() {
                            assert(mine[j] == bp[j]);
                        } else if j < bp.len() + ip.len() {
                            assert(mine[j] == ip[j - bp.len()]);
                        } else {
                            assert(mine[j] == cp[j - bp.len() - ip.len()]);
                            let v = cp[j - bp.len() - ip.len()];
                            assert(core_dependency_issue_fits(
                                v,
                                package,
                                manifest.dependencies@,
                                profile_owned && !legacy_core,
                            ));
                            let d = choose|d: int|
                                0 <= d < manifest.dependencies@.len() && (#[trigger] manifest.dependencies@[d]).0@
                                    == v.dependency;
                            assert(rs[n] matches Resolution::Found { reference, manifest, profile_owned }
                                && profile_owned);
                        }
                    },
                }
            }
        }
    }
}

/// The names of the packages whose manifests were checked, in discovery order.
pub open spec fn checked_names(rs: Seq<Resolution>) -> Seq<Seq<char>>
    decreases rs.len(),
{
    if rs.len() == 0 {
        seq![]
    } else {
        let prev = checked_names(rs.drop_last());
        match rs.last() {
            Resolution::Missing { .. } => prev,
            Resolution::Found { reference, manifest, .. } => prev.push(
                package_label(manifest, reference@),
            ),
        }
    }
}

/// Insert `x` into an ascending duplicate-free sequence unless it is already there.
pub open spec fn insert_unique(s: Seq<Seq<char>>, x: Seq<char>) -> Seq<Seq<char>> {
    if s.contains(x) {
        s
    } else {
        insert_sorted(s, x, text_order_fn())
    }
}

/// The ascending set of the texts in `s`, as a `BTreeSet` orders strings.
pub open spec fn sorted_union(s: Seq<Seq<char>>) -> Seq<Seq<char>>
    decreases s.len(),
{
    if s.len() == 0 {
        s
    } else {
        insert_unique(sorted_union(s.drop_last()), s.last())
    }
}

/// The packages a profile references: its dependencies and its declared bundles,
/// each once, in ascending order.
pub fn profile_references(profile: &ProfileManifest) -> (res: Vec<String>)
    ensures
        views(res@) == sorted_union(views(profile.dependencies@ + profile.bundles@)),
{
    let mut all: Vec<String> = Vec::new();
    let mut i: usize = 0;
    while i < profile.dependencies.len()
        invariant
            i <= profile.dependencies.len(),
            all@ == profile.dependencies@.take(i as int),
        decreases profile.dependencies.len() - i,
    {
        all.push(profile.dependencies[i].clone());
        proof {
            assert(profile.dependencies@.take(i + 1) =~= profile.dependencies@.take(i as int).push(
                profile.dependencies@[i as int],
            ));
        }
        i = i + 1;
    }
    let mut j: usize = 0;
    while j < profile.bundles.len()
        invariant
            j <= profile.bundles.len(),
            all@ == profile.dependencies@ + profile.bundles@.take(j as int),
        decreases profile.bundles.len() - j,
    {
        all.push(profile.bundles[j].clone());
        proof {
            assert(profile.bundles@.take(j + 1) =~= profile.bundles@.take(j as int).push(
                profile.bundles@[j as int],
            ));
            assert(profile.dependencies@ + profile.bundles@.take(j + 1) =~= (profile.dependencies@
                + profile.bundles@.take(j as int)).push(profile.bundles@[j as int]));
        }
        j = j + 1;
    }
    proof {
        assert(profile.dependencies@.take(profile.dependencies.len() as int) =~= profile.dependencies@);
        assert(profile.bundles@.take(profile.bundles.len() as int) =~= profile.bundles@);
    }
    let mut res: Vec<String> = Vec::new();
    let mut k: usize = 0;
    while k < all.len()
        invariant
            k <= all.len(),
            views(res@) == sorted_union(views(all@).take(k as int)),
        decreases all.len() - k,
    {
        let x = all[k].clone();
        proof {
            assert(views(all@).take(k + 1).drop_last() =~= views(all@).take(k as int));
            assert(views(all@).take(k + 1).last() == x@);
        }
        if !contains_string(&res, &x) {
            let mut p: usize = 0;
            while p < res.len() && str_order(res[p].as_str(), x.as_str()) <= 0
                invariant
                    p <= res.len(),
                    forall|q: int| 0 <= q < p ==> text_order(#[trigger] views(res@)[q], x@) <= 0,
                decreases res.len() - p,
            {
                p = p + 1;
            }
            proof {
                lemma_first_after(views(res@), x@, text_order_fn(), p as int);
            }
            let ghost before = res@;
            res.insert(p, x);
            proof {
                assert(views(res@) =~= views(before).insert(p as int, x@));
            }
        }
        k = k + 1;
    }
    assert(views(all@).take(all.len() as int) =~= views(all@));
    res
}

/// Whether some string of `v` equals `x`.
pub fn contains_string(v: &Vec<String>, x: &String) -> (res: bool)
    ensures
        res == views(v@).contains(x@),
{
    let mut i: usize = 0;
    while i < v.len()
        invariant
            i <= v.len(),
            forall|q: int| 0 <= q < i ==> #[trigger] views(v@)[q] != x@,
        decreases v.len() - i,
    {
        if v[i] == *x {
            assert(views(v@)[i as int] == x@);
            return true;
        }
        i = i + 1;
    }
    false
}

/// The package names whose presence decides the report: the legacy client
/// runtime, then every injected client module of every found manifest.
pub open spec fn probe_names(rs: Seq<Resolution>) -> Seq<Seq<char>>
    decreases rs.len(),
{
    if rs.len() == 0 {
        seq![LEGACY_CLIENT_RUNTIME@]
    } else {
        match rs.last() {
            Resolution::Missing { .. } => probe_names(rs.drop_last()),
            Resolution::Found { manifest, .. } => probe_names(rs.drop_last()) + views(
                manifest.inject@,
            ),
        }
    }
}

/// The names the caller must look up in the profile and the core.
pub fn names_to_probe(resolved: &Vec<Resolution>) -> (res: Vec<String>)
    ensures
        views(res@) == probe_names(resolved@),
{
    let mut res: Vec<String> = Vec::new();
    res.push(String::from_str(LEGACY_CLIENT_RUNTIME));
    let mut i: usize = 0;
    assert(views(res@) =~= probe_names(resolved@.take(0)));
    while i < resolved.len()
        invariant
            i <= resolved.len(),
            views(res@) == probe_names(resolved@.take(i as int)),
        decreases resolved.len() - i,
    {
        proof {
            assert(resolved@.take(i + 1).drop_last() =~= resolved@.take(i as int));
        }
        match &resolved[i] {
            Resolution::Missing { .. } => {},
            Resolution::Found { manifest, .. } => {
                let mut k: usize = 0;
                let ghost base = views(res@);
                while k < manifest.inject.len()
                    invariant
                        k <= manifest.inject.len(),
                        views(res@) == base + views(manifest.inject@).take(k as int),
                    decreases manifest.inject.len() - k,
                {
                    let ghost prior = res@;
                    res.push(manifest.inject[k].clone());
                    proof {
                        assert(views(res@) =~= views(prior).push(manifest.inject@[k as int]@));
                        assert(views(manifest.inject@).take(k + 1) =~= views(manifest.inject@).take(
                            k as int,
                        ).push(manifest.inject@[k as int]@));
                    }
                    k = k + 1;
                }
                assert(views(manifest.inject@).take(manifest.inject.len() as int) =~= views(
                    manifest.inject@,
                ));
            },
        }
        i = i + 1;
    }
    assert(resolved@.take(resolved.len() as int) =~= resolved@);
    res
}


/// Compare two issues by package, then code, then dependency.
pub fn issue_order(a: &CompatibilityIssue, b: &CompatibilityIssue) -> (res: i8)
    ensures
        res as int == (issue_view_order())(a@, b@),
{
    let p = str_order(a.package.as_str(), b.package.as_str());
    if p != 0 {
        return p;
    }
    let c = str_order(a.code.as_str(), b.code.as_str());
    if c != 0 {
        return c;
    }
    str_order(a.dependency.as_str(), b.dependency.as_str())
}

/// A copy of an issue with the same contents.
pub fn copy_issue(issue: &CompatibilityIssue) -> (res: CompatibilityIssue)
    ensures
        res@ == issue@,
{
    CompatibilityIssue {
        code: issue.code.clone(),
        package: issue.package.clone(),
        dependency: issue.dependency.clone(),
        detail: issue.detail.clone(),
    }
}

/// Stable sort of issues by package, code and dependency.
pub fn sort_issues(v: &Vec<CompatibilityIssue>) -> (res: Vec<CompatibilityIssue>)
    ensures
        issue_views(res@) == sort_by(issue_views(v@), issue_view_order()),
{
    let mut res: Vec<CompatibilityIssue> = Vec::new();
    let mut i: usize = 0;
    while i < v.len()
        invariant
            i <= v.len(),
            issue_views(res@) == sort_by(issue_views(v@).take(i as int), issue_view_order()),
        decreases v.len() - i,
    {
        let x = copy_issue(&v[i]);
        let mut p: usize = 0;
        while p < res.len() && issue_order(&res[p], &x) <= 0
            invariant
                p <= res.len(),
                forall|q: int|
                    0 <= q < p ==> (issue_view_order())(#[trigger] issue_views(res@)[q], x@) <= 0,
            decreases res.len() - p,
        {
            p = p + 1;
        }
        proof {
            lemma_first_after(issue_views(res@), x@, issue_view_order(), p as int);
            assert(issue_views(v@).take(i + 1).drop_last() =~= issue_views(v@).take(i as int));
            assert(issue_views(v@).take(i + 1).last() == x@);
        }
        let ghost before = res@;
        res.insert(p, x);
        proof {
            assert(issue_views(res@) =~= issue_views(before).insert(p as int, x@));
        }
        i = i + 1;
    }
    assert(issue_views(v@).take(v.len() as int) =~= issue_views(v@));
    res
}

fn joined3(a: &str, b: &str, c: &str) -> (res: String)
    ensures
        res@ == a@ + b@ + c@,
{
    let mut s = String::from_str(a);
    s.append(b);
    s.append(c);
    s
}

/// Append issue views for the injected modules of one manifest.
fn push_inject_issues(
    issues: &mut Vec<CompatibilityIssue>,
    package: &String,
    inject: &Vec<String>,
    present: &Vec<String>,
)
    ensures
        issue_views(final(issues)@) == issue_views(old(issues)@) + inject_issues(
            package@,
            inject@,
            views(present@),
        ),
{
    let ghost start = issue_views(issues@);
    let mut k: usize = 0;
    assert(inject@.take(0) =~= Seq::<String>::empty());
    assert(start + inject_issues(package@, inject@.take(0), views(present@)) =~= start);
    while k < inject.len()
        invariant
            k <= inject.len(),
            issue_views(issues@) == start + inject_issues(
                package@,
                inject@.take(k as int),
                views(present@),
            ),
        decreases inject.len() - k,
    {
        let injected = &inject[k];
        proof {
            assert(inject@.take(k + 1).drop_last() =~= inject@.take(k as int));
            assert(inject@.take(k + 1).last() == *injected);
        }
        if !contains_string(present, injected) {
            let mut detail = joined3(package.as_str(), " injects ", injected.as_str());
            detail.append(", but the selected core and profile do not provide it");
            let issue = CompatibilityIssue {
                code: String::from_str(CODE_CLIENT_MODULE_MISSING),
                package: package.clone(),
                dependency: injected.clone(),
                detail: detail,
            };
            let ghost prior = issues@;
            issues.push(issue);
            proof {
                assert(issue_views(issues@) =~= issue_views(prior).push(issue@));
                assert(issue@ == inject_issue(package@, injected@));
            }
        }
        k = k + 1;
    }
    assert(inject@.take(inject.len() as int) =~= inject@);
}

/// Append issue views for the core-owned dependencies of one manifest.
fn push_core_dependency_issues(
    issues: &mut Vec<CompatibilityIssue>,
    package: &String,
    dependencies: &Vec<(String, String)>,
    flagged: bool,
)
    ensures
        issue_views(final(issues)@) == issue_views(old(issues)@) + core_dependency_issues(
            package@,
            dependencies@,
            flagged,
        ),
{
    let ghost start = issue_views(issues@);
    let mut k: usize = 0;
    assert(dependencies@.take(0) =~= Seq::<(String, String)>::empty());
    assert(start + core_dependency_issues(package@, dependencies@.take(0), flagged) =~= start);
    while k < dependencies.len()
        invariant
            k <= dependencies.len(),
            issue_views(issues@) == start + core_dependency_issues(
                package@,
                dependencies@.take(k as int),
                flagged,
            ),
        decreases dependencies.len() - k,
    {
        let (dependency, range) = &dependencies[k];
        proof {
            assert(dependencies@.take(k + 1).drop_last() =~= dependencies@.take(k as int));
            assert(dependencies@.take(k + 1).last() == dependencies@[k as int]);
        }
        if flagged && starts_with_str(dependency.as_str(), DSH_PACKAGE_PREFIX) {
            let mut detail = joined3(package.as_str(), " declares ", dependency.as_str());
            detail.append("@");
            detail.append(range.as_str());
            detail.append(" as a runtime dependency; DSH packages must come from the selected core");
            let issue = CompatibilityIssue {
                code: String::from_str(CODE_OWNS_CORE_DEPENDENCY),
                package: package.clone(),
                dependency: dependency.clone(),
                detail: detail,
            };
            let ghost prior = issues@;
            issues.push(issue);
            proof {
                assert(issue_views(issues@) =~= issue_views(prior).push(issue@));
                assert(issue@ == core_dependency_issue(package@, dependency@, range@));
            }
        }
        k = k + 1;
    }
    assert(dependencies@.take(dependencies.len() as int) =~= dependencies@);
}

/// The report for a profile checked against a core.
///
/// `resolved` holds the profile's references in the order of
/// `profile_references`, and `present` the names of `names_to_probe` that exist
/// in the profile or the core. The report lists every checked package and every
/// issue, both sorted, and is compatible exactly when no issue was found.
pub fn compatibility_report(
    core_path: &str,
    profile_path: &str,
    resolved: &Vec<Resolution>,
    present: &Vec<String>,
) -> (report: CompatibilityReport)
    ensures
        report.core_path@ == core_path@,
        report.profile_path@ == profile_path@,
        issue_views(report.issues@) == sort_by(
            all_issues(resolved@, views(present@), views(present@).contains(LEGACY_CLIENT_RUNTIME@)),
            issue_view_order(),
        ),
        views(report.checked_packages@) == sort_by(checked_names(resolved@), text_order_fn()),
        report.compatible == (report.issues@.len() == 0),
        forall|i: int|
            0 <= i < report.issues@.len() && (#[trigger] report.issues@[i]).code@
                == CODE_OWNS_CORE_DEPENDENCY@ ==> owned_dependency_origin(
                report.issues@[i]@,
                resolved@,
                views(present@).contains(LEGACY_CLIENT_RUNTIME@),
            ),
{
    let legacy_core = contains_string(present, &String::from_str(LEGACY_CLIENT_RUNTIME));
    let ghost pv = views(present@);
    let mut issues: Vec<CompatibilityIssue> = Vec::new();
    let mut checked: Vec<String> = Vec::new();
    let mut i: usize = 0;
    assert(resolved@.take(0) =~= Seq::<Resolution>::empty());
    while i < resolved.len()
        invariant
            i <= resolved.len(),
            legacy_core == pv.contains(LEGACY_CLIENT_RUNTIME@),
            pv == views(present@),
            issue_views(issues@) == all_issues(resolved@.take(i as int), pv, legacy_core),
            views(checked@) == checked_names(resolved@.take(i as int)),
        decreases resolved.len() - i,
    {
        proof {
            assert(resolved@.take(i + 1).drop_last() =~= resolved@.take(i as int));
            assert(resolved@.take(i + 1).last() == resolved@[i as int]);
        }
        let ghost issues_before = issue_views(issues@);
        match &resolved[i] {
            Resolution::Missing { reference } => {
                let issue = CompatibilityIssue {
                    code: String::from_str(CODE_PACKAGE_MISSING),
                    package: reference.clone(),
                    dependency: reference.clone(),
                    detail: String::from_str(PACKAGE_MISSING_DETAIL),
                };
                issues.push(issue);
                proof {
                    assert(issue_views(issues@) =~= issues_before + seq![missing_issue(reference@)]);
                }
            },
            Resolution::Found { reference, manifest, profile_owned } => {
                let package = if manifest.name.as_str().is_empty() {
                    reference.clone()
                } else {
                    manifest.name.clone()
                };
                assert(package@ == package_label(*manifest, reference@));
                let ghost checked_before = checked@;
                checked.push(package.clone());
                proof {
                    assert(views(checked@) =~= views(checked_before).push(package@));
                }
                let ghost bundle_part: Seq<IssueView> = if *profile_owned && !manifest.has_bundle {
                    seq![bundle_issue(package@, reference@)]
                } else {
                    seq![]
                };
                if *profile_owned && !manifest.has_bundle {
                    let mut detail = String::from_str(package.as_str());
                    detail.append(
                        " is installed as a profile dependency but declares no dsh.bundle and therefore cannot activate",
                    );
                    let issue = CompatibilityIssue {
                        code: String::from_str(CODE_BUNDLE_MISSING),
                        package: package.clone(),
                        dependency: reference.clone(),
                        detail: detail,
                    };
                    issues.push(issue);
                    proof {
                        assert(issue@ == bundle_issue(package@, reference@));
                        assert(issue_views(issues@) =~= issues_before + bundle_part);
                    }
                } else {
                    assert(issue_views(issues@) =~= issues_before + bundle_part);
                }
                push_inject_issues(&mut issues, &package, &manifest.inject, present);
                push_core_dependency_issues(
                    &mut issues,
                    &package,
                    &manifest.dependencies,
                    *profile_owned && !legacy_core,
                );
                proof {
                    let r = resolved@[i as int];
                    assert(resolution_issues(r, pv, legacy_core) =~= bundle_part + inject_issues(
                        package@,
                        manifest.inject@,
                        pv,
                    ) + core_dependency_issues(
                        package@,
                        manifest.dependencies@,
                        *profile_owned && !legacy_core,
                    ));
                }
            },
        }
        proof {
            assert(issue_views(issues@) =~= issues_before + resolution_issues(
                resolved@[i as int],
                pv,
                legacy_core,
            ));
        }
        i = i + 1;
    }
    assert(resolved@.take(resolved.len() as int) =~= resolved@);
    let sorted_issues = sort_issues(&issues);
    let sorted_checked = sort_strings(&checked);
    proof {
        lemma_sort_len(issue_views(issues@), issue_view_order());
        let all = all_issues(resolved@, pv, legacy_core);
        lemma_sort_by_elements(all, issue_view_order());
        lemma_core_dependency_issues_only_for_profile_packages(resolved@, pv, legacy_core);
        let sv = issue_views(sorted_issues@);
        assert forall|i: int|
            0 <= i < sorted_issues@.len() && (#[trigger] sorted_issues@[i]).code@
                == CODE_OWNS_CORE_DEPENDENCY@ implies owned_dependency_origin(
            sorted_issues@[i]@,
            resolved@,
            pv.contains(LEGACY_CLIENT_RUNTIME@),
        ) by {
            assert(sv[i] == sorted_issues@[i]@);
            let j = choose|j: int| 0 <= j < all.len() && #[trigger] sort_by(all, issue_view_order())[i] == all[j];
            assert(all[j] == sv[i]);
        }
    }
    CompatibilityReport {
        compatible: sorted_issues.len() == 0,
        core_path: String::from_str(core_path),
        profile_path: String::from_str(profile_path),
        checked_packages: sorted_checked,
        issues: sorted_issues,
    }
}

/// Sorting keeps the length.
pub proof fn lemma_sort_len<T>(s: Seq<T>, order: spec_fn(T, T) -> int)
    ensures
        sort_by(s, order).len() == s.len(),
    decreases s.len(),
{
    if s.len() > 0 {
        lemma_sort_len(s.drop_last(), order);
        crate::order::lemma_first_after_bounds(sort_by(s.drop_last(), order), s.last(), order);
    }
}

/// The report for a profile that has no `package.json`: nothing to check.
pub fn empty_report(core_path: &str, profile_path: &str) -> (report: CompatibilityReport)
    ensures
        report.compatible,
        report.core_path@ == core_path@,
        report.profile_path@ == profile_path@,
        report.checked_packages@.len() == 0,
        report.issues@.len() == 0,
{
    CompatibilityReport {
        compatible: true,
        core_path: String::from_str(core_path),
        profile_path: String::from_str(profile_path),
        checked_packages: Vec::new(),
        issues: Vec::new(),
    }
}


/// How an issue is summarised in a refusal: `code:package->dependency`.
pub open spec fn issue_summary(issue: IssueView) -> Seq<char> {
    issue.code + ":"@ + issue.package + "->"@ + issue.dependency
}

/// Accept a compatible report; refuse any other with its issues summarised.
pub fn require_compatible(report: &CompatibilityReport) -> (res: Result<(), String>)
    ensures
        res is Ok <==> report.compatible,
        res matches Err(message) ==> message@ == "PLUGIN_INCOMPATIBLE: "@ + join(
            issue_views(report.issues@).map_values(|i: IssueView| issue_summary(i)),
            ", "@,
        ),
{
    if report.compatible {
        return Ok(());
    }
    let mut parts: Vec<String> = Vec::new();
    let mut i: usize = 0;
    while i < report.issues.len()
        invariant
            i <= report.issues.len(),
            parts@.map_values(|x: String| x@) == issue_views(report.issues@).map_values(
                |i: IssueView| issue_summary(i),
            ).take(i as int),
        decreases report.issues.len() - i,
    {
        let issue = &report.issues[i];
        let mut part = joined3(issue.code.as_str(), ":", issue.package.as_str());
        part.append("->");
        part.append(issue.dependency.as_str());
        let ghost prior = parts@;
        parts.push(part);
        proof {
            assert(parts@.map_values(|x: String| x@) =~= prior.map_values(|x: String| x@).push(
                part@,
            ));
            assert(issue_views(report.issues@).map_values(|i: IssueView| issue_summary(i)).take(
                i + 1,
            ) =~= issue_views(report.issues@).map_values(|i: IssueView| issue_summary(i)).take(
                i as int,
            ).push(issue_summary(issue@)));
        }
        i = i + 1;
    }
    proof {
        assert(issue_views(report.issues@).map_values(|i: IssueView| issue_summary(i)).take(
            report.issues.len() as int,
        ) =~= issue_views(report.issues@).map_values(|i: IssueView| issue_summary(i)));
    }
    let detail = join_strings(&parts, ", ");
    let mut message = String::from_str("PLUGIN_INCOMPATIBLE: ");
    message.append(detail.as_str());
    Err(message)
}

/// The refusal reasons of a packaged plugin's injected modules missing from the core.
pub open spec fn packaged_inject_issues(
    package: Seq<char>,
    inject: Seq<String>,
    core_present: Seq<Seq<char>>,
) -> Seq<Seq<char>>
    decreases inject.len(),
{
    if inject.len() == 0 {
        seq![]
    } else {
        let prev = packaged_inject_issues(package, inject.drop_last(), core_present);
        if core_present.contains(inject.last()@) {
            prev
        } else {
            prev.push("PLUGIN_CLIENT_MODULE_MISSING:"@ + package + "->"@ + inject.last()@)
        }
    }
}

/// The refusal reasons of a packaged plugin's core-owned dependencies.
pub open spec fn packaged_dependency_issues(
    package: Seq<char>,
    dependencies: Seq<(String, String)>,
    legacy_core: bool,
) -> Seq<Seq<char>>
    decreases dependencies.len(),
{
    if dependencies.len() == 0 {
        seq![]
    } else {
        let prev = packaged_dependency_issues(package, dependencies.drop_last(), legacy_core);
        let dependency = dependencies.last().0;
        if !legacy_core && is_core_package(dependency@) {
            prev.push("PLUGIN_OWNS_CORE_DEPENDENCY:"@ + package + "->"@ + dependency@)
        } else {
            prev
        }
    }
}

/// All refusal reasons of a packaged plugin.
pub open spec fn packaged_issues(
    package: Seq<char>,
    manifest: PackageManifest,
    core_present: Seq<Seq<char>>,
) -> Seq<Seq<char>> {
    (if !manifest.has_bundle {
        seq!["PLUGIN_BUNDLE_MISSING:"@ + package]
    } else {
        seq![]
    }) + packaged_inject_issues(package, manifest.inject@, core_present)
        + packaged_dependency_issues(
        package,
        manifest.dependencies@,
        core_present.contains(LEGACY_CLIENT_RUNTIME@),
    )
}

/// Validate one packaged plugin before it is installed into a profile.
///
/// `core_present` names the packages of `LEGACY_CLIENT_RUNTIME` and
/// `manifest.inject` that the core's `node_modules` holds.
pub fn require_packaged_plugin_compatible(
    plugin_dir: &str,
    manifest: &PackageManifest,
    core_present: &Vec<String>,
) -> (res: Result<(), String>)
    ensures
        ({
            let package = if manifest.name@.len() == 0 {
                plugin_dir@
            } else {
                manifest.name@
            };
            let issues = packaged_issues(package, *manifest, views(core_present@));
            &&& res is Ok <==> issues.len() == 0
            &&& res matches Err(message) ==> message@ == "PLUGIN_INCOMPATIBLE: "@ + join(
                issues,
                ", "@,
            )
        }),
{
    let package = if manifest.name.as_str().is_empty() {
        String::from_str(plugin_dir)
    } else {
        manifest.name.clone()
    };
    let legacy_core = contains_string(core_present, &String::from_str(LEGACY_CLIENT_RUNTIME));
    let ghost cp = views(core_present@);
    let mut issues: Vec<String> = Vec::new();
    if !manifest.has_bundle {
        issues.push(joined3("PLUGIN_BUNDLE_MISSING:", package.as_str(), ""));
        proof {
            reveal_strlit("");
            assert(issues@[0]@ =~= "PLUGIN_BUNDLE_MISSING:"@ + package@);
        }
    }
    let ghost first = views(issues@);
    assert(first =~= (if !manifest.has_bundle {
        seq!["PLUGIN_BUNDLE_MISSING:"@ + package@]
    } else {
        seq![]
    }));
    let mut k: usize = 0;
    assert(manifest.inject@.take(0) =~= Seq::<String>::empty());
    assert(first + packaged_inject_issues(package@, manifest.inject@.take(0), cp) =~= first);
    while k < manifest.inject.len()
        invariant
            k <= manifest.inject.len(),
            cp == views(core_present@),
            views(issues@) == first + packaged_inject_issues(
                package@,
                manifest.inject@.take(k as int),
                cp,
            ),
        decreases manifest.inject.len() - k,
    {
        let injected = &manifest.inject[k];
        proof {
            assert(manifest.inject@.take(k + 1).drop_last() =~= manifest.inject@.take(k as int));
            assert(manifest.inject@.take(k + 1).last() == *injected);
        }
        if !contains_string(core_present, injected) {
            let mut part = joined3("PLUGIN_CLIENT_MODULE_MISSING:", package.as_str(), "->");
            part.append(injected.as_str());
            let ghost prior = issues@;
            issues.push(part);
            proof {
                assert(views(issues@) =~= views(prior).push(part@));
            }
        }
        k = k + 1;
    }
    assert(manifest.inject@.take(manifest.inject.len() as int) =~= manifest.inject@);
    let ghost second = views(issues@);
    let mut d: usize = 0;
    assert(manifest.dependencies@.take(0) =~= Seq::<(String, String)>::empty());
    assert(second + packaged_dependency_issues(package@, manifest.dependencies@.take(0), legacy_core)
        =~= second);
    while d < manifest.dependencies.len()
        invariant
            d <= manifest.dependencies.len(),
            views(issues@) == second + packaged_dependency_issues(
                package@,
                manifest.dependencies@.take(d as int),
                legacy_core,
            ),
        decreases manifest.dependencies.len() - d,
    {
        let dependency = &manifest.dependencies[d].0;
        proof {
            assert(manifest.dependencies@.take(d + 1).drop_last() =~= manifest.dependencies@.take(
                d as int,
            ));
            assert(manifest.dependencies@.take(d + 1).last() == manifest.dependencies@[d as int]);
        }
        if !legacy_core && starts_with_str(dependency.as_str(), DSH_PACKAGE_PREFIX) {
            let mut part = joined3("PLUGIN_OWNS_CORE_DEPENDENCY:", package.as_str(), "->");
            part.append(dependency.as_str());
            let ghost prior = issues@;
            issues.push(part);
            proof {
                assert(views(issues@) =~= views(prior).push(part@));
            }
        }
        d = d + 1;
    }
    assert(manifest.dependencies@.take(manifest.dependencies.len() as int)
        =~= manifest.dependencies@);
    if issues.len() == 0 {
        Ok(())
    } else {
        let detail = join_strings(&issues, ", ");
        let mut message = String::from_str("PLUGIN_INCOMPATIBLE: ");
        message.append(detail.as_str());
        Err(message)
    }
}
} // verus!
