//! Framework detection from manifest dependencies and workspace layout.
//!
//! Detection is deliberately loose: a false positive only skews a
//! scoring multiplier, a false negative only lowers a score.

use vstd::prelude::*;

use crate::config::{ConfigContext, WorkspaceConfig};
use crate::text::{contains, contains_str, starts_with, starts_with_str, str_eq_chars, to_chars};

verus! {

/// A framework whose entry points the scorer recognises.
#[derive(Debug, Clone, Copy, PartialEq, Eq, Hash, Structural)]
pub enum Framework {
    AspNet,
    Django,
    Expo,
    Express,
    FastApi,
    Flask,
    Koa,
    Laravel,
    NextJs,
    Rails,
    Spring,
    Symfony,
}

pub open spec fn framework_label(f: Framework) -> Seq<char> {
    match f {
        Framework::NextJs => "Next.js"@,
        Framework::Django => "Django"@,
        Framework::Spring => "Spring"@,
        Framework::AspNet => "ASP.NET"@,
        Framework::FastApi => "FastAPI"@,
        Framework::Rails => "Rails"@,
        Framework::Laravel => "Laravel"@,
        Framework::Symfony => "Symfony"@,
        Framework::Expo => "Expo"@,
        Framework::Express => "Express"@,
        Framework::Koa => "Koa"@,
        Framework::Flask => "Flask"@,
    }
}

impl Framework {
    /// Human-readable name used in community labels.
    pub fn label(self) -> (r: &'static str)
        ensures
            r@ == framework_label(self),
    {
        match self {
            Framework::NextJs => "Next.js",
            Framework::Django => "Django",
            Framework::Spring => "Spring",
            Framework::AspNet => "ASP.NET",
            Framework::FastApi => "FastAPI",
            Framework::Rails => "Rails",
            Framework::Laravel => "Laravel",
            Framework::Symfony => "Symfony",
            Framework::Expo => "Expo",
            Framework::Express => "Express",
            Framework::Koa => "Koa",
            Framework::Flask => "Flask",
        }
    }
}

/// Every framework detected in a project; each recorded once.
pub struct FrameworkContext {
    pub detected: Vec<Framework>,
}

impl View for FrameworkContext {
    type V = Set<Framework>;

    open spec fn view(&self) -> Set<Framework> {
        self.detected@.to_set()
    }
}

impl FrameworkContext {
    /// No framework is recorded twice.
    pub open spec fn wf(&self) -> bool {
        self.detected@.no_duplicates()
    }

    pub fn has(&self, fw: Framework) -> (b: bool)
        ensures
            b == self@.contains(fw),
    {
        let mut i: usize = 0;
        while i < self.detected.len()
            invariant
                i <= self.detected@.len(),
                forall|k: int| 0 <= k < i ==> self.detected@[k] != fw,
            decreases self.detected@.len() - i,
        {
            if self.detected[i] == fw {
                assert(self.detected@.contains(fw));
                return true;
            }
            i += 1;
        }
        false
    }

    pub fn is_empty(&self) -> (b: bool)
        ensures
            b == (self@.len() == 0),
    {
        proof {
            self.detected@.lemma_cardinality_of_set();
            if self.detected@.len() > 0 {
                assert(self@.contains(self.detected@[0]));
                vstd::seq_lib::seq_to_set_is_finite(self.detected@);
            }
        }
        self.detected.len() == 0
    }

    pub fn len(&self) -> (n: usize)
        ensures
            n == self.detected@.len(),
            self.wf() ==> n == self@.len(),
    {
        proof {
            if self.wf() {
                self.detected@.unique_seq_to_set();
            }
        }
        self.detected.len()
    }
}

impl Default for FrameworkContext {
    fn default() -> (c: FrameworkContext)
        ensures
            c.detected@.len() == 0,
    {
        FrameworkContext { detected: Vec::new() }
    }
}

/// Some dependency is exactly `name`.
pub open spec fn lists(deps: Seq<&str>, name: Seq<char>) -> bool {
    exists|k: int| 0 <= k < deps.len() && (#[trigger] deps[k])@ == name
}

/// Some dependency starts with `prefix`.
pub open spec fn lists_prefix(deps: Seq<&str>, prefix: Seq<char>) -> bool {
    exists|k: int| 0 <= k < deps.len() && starts_with((#[trigger] deps[k])@, prefix)
}

/// Some dependency contains `part`.
pub open spec fn lists_part(deps: Seq<&str>, part: Seq<char>) -> bool {
    exists|k: int| 0 <= k < deps.len() && contains((#[trigger] deps[k])@, part)
}

/// A tsconfig path target pointing into `app/` or `pages/`.
pub open spec fn is_pages_target(t: Seq<char>) -> bool {
    contains(t, "app/"@) || contains(t, "pages/"@)
}

pub open spec fn alias_targets_pages(targets: Seq<String>) -> bool {
    exists|t: int| 0 <= t < targets.len() && is_pages_target((#[trigger] targets[t])@)
}

pub open spec fn workspace_targets_pages(w: WorkspaceConfig) -> bool {
    exists|a: int| 0 <= a < w.ts_paths@.len() && alias_targets_pages(
        (#[trigger] w.ts_paths@[a]).targets@,
    )
}

/// Some workspace's tsconfig paths point into `app/` or `pages/`.
pub open spec fn targets_pages(ws: Seq<WorkspaceConfig>) -> bool {
    exists|w: int| 0 <= w < ws.len() && workspace_targets_pages(#[trigger] ws[w])
}

/// The signals that mark each framework as present.
pub open spec fn framework_detected(
    f: Framework,
    config: ConfigContext,
    npm: Seq<&str>,
    composer: Seq<&str>,
    python: Seq<&str>,
    gems: Seq<&str>,
    maven: Seq<&str>,
) -> bool {
    match f {
        Framework::NextJs => lists(npm, "next"@) || lists(npm, "next.js"@) || targets_pages(
            config.workspaces@,
        ),
        Framework::Expo => lists(npm, "expo"@) || lists(npm, "expo-router"@),
        Framework::Express => lists(npm, "express"@),
        Framework::Koa => lists(npm, "koa"@),
        Framework::Django => lists(python, "django"@) || lists(python, "Django"@),
        Framework::FastApi => lists(python, "fastapi"@) || lists(python, "FastAPI"@),
        Framework::Flask => lists(python, "flask"@) || lists(python, "Flask"@),
        Framework::Laravel => lists_prefix(composer, "laravel/"@),
        Framework::Symfony => lists_prefix(composer, "symfony/"@),
        Framework::Rails => lists(gems, "rails"@),
        Framework::Spring => lists_part(maven, "org.springframework"@),
        Framework::AspNet => false,
    }
}

/// Every dependency of `a` also stands in `b`.
pub open spec fn names_within(a: Seq<&str>, b: Seq<&str>) -> bool {
    forall|k: int| 0 <= k < a.len() ==> exists|m: int| 0 <= m < b.len() && (#[trigger] b[m])@ == (#[trigger] a[k])@
}

proof fn lemma_lists_grow(a: Seq<&str>, b: Seq<&str>, x: Seq<char>)
    requires
        names_within(a, b),
    ensures
        lists(a, x) ==> lists(b, x),
        lists_prefix(a, x) ==> lists_prefix(b, x),
        lists_part(a, x) ==> lists_part(b, x),
{
    if lists(a, x) {
        let k = choose|k: int| 0 <= k < a.len() && (#[trigger] a[k])@ == x;
        let m = choose|m: int| 0 <= m < b.len() && (#[trigger] b[m])@ == a[k]@;
        assert(b[m]@ == x);
    }
    if lists_prefix(a, x) {
        let k = choose|k: int| 0 <= k < a.len() && starts_with((#[trigger] a[k])@, x);
        let m = choose|m: int| 0 <= m < b.len() && (#[trigger] b[m])@ == a[k]@;
        assert(starts_with(b[m]@, x));
    }
    if lists_part(a, x) {
        let k = choose|k: int| 0 <= k < a.len() && contains((#[trigger] a[k])@, x);
        let m = choose|m: int| 0 <= m < b.len() && (#[trigger] b[m])@ == a[k]@;
        assert(contains(b[m]@, x));
    }
}

/// Detection only grows with the dependency lists: a framework detected
/// from some lists is still detected when every list gains entries.
pub proof fn law_detect_monotone(
    f: Framework,
    config: ConfigContext,
    npm1: Seq<&str>,
    composer1: Seq<&str>,
    python1: Seq<&str>,
    gems1: Seq<&str>,
    maven1: Seq<&str>,
    npm2: Seq<&str>,
    composer2: Seq<&str>,
    python2: Seq<&str>,
    gems2: Seq<&str>,
    maven2: Seq<&str>,
)
    requires
        names_within(npm1, npm2),
        names_within(composer1, composer2),
        names_within(python1, python2),
        names_within(gems1, gems2),
        names_within(maven1, maven2),
    ensures
        framework_detected(f, config, npm1, composer1, python1, gems1, maven1) ==> framework_detected(
            f,
            config,
            npm2,
            composer2,
            python2,
            gems2,
            maven2,
        ),
{
    lemma_lists_grow(npm1, npm2, "next"@);
    lemma_lists_grow(npm1, npm2, "next.js"@);
    lemma_lists_grow(npm1, npm2, "expo"@);
    lemma_lists_grow(npm1, npm2, "expo-router"@);
    lemma_lists_grow(npm1, npm2, "express"@);
    lemma_lists_grow(npm1, npm2, "koa"@);
    lemma_lists_grow(python1, python2, "django"@);
    lemma_lists_grow(python1, python2, "Django"@);
    lemma_lists_grow(python1, python2, "fastapi"@);
    lemma_lists_grow(python1, python2, "FastAPI"@);
    lemma_lists_grow(python1, python2, "flask"@);
    lemma_lists_grow(python1, python2, "Flask"@);
    lemma_lists_grow(composer1, composer2, "laravel/"@);
    lemma_lists_grow(composer1, composer2, "symfony/"@);
    lemma_lists_grow(gems1, gems2, "rails"@);
    lemma_lists_grow(maven1, maven2, "org.springframework"@);
}

/// Each dependency name the detector knows marks its framework: a
/// list naming it is enough, whatever else the lists hold.
pub proof fn law_detect_known_names(
    config: ConfigContext,
    npm: Seq<&str>,
    composer: Seq<&str>,
    python: Seq<&str>,
    gems: Seq<&str>,
    maven: Seq<&str>,
    k: int,
)
    ensures
        0 <= k < npm.len() && (npm[k]@ == "next"@ || npm[k]@ == "next.js"@) ==> framework_detected(
            Framework::NextJs, config, npm, composer, python, gems, maven),
        0 <= k < npm.len() && (npm[k]@ == "expo"@ || npm[k]@ == "expo-router"@) ==> framework_detected(
            Framework::Expo, config, npm, composer, python, gems, maven),
        0 <= k < npm.len() && npm[k]@ == "express"@ ==> framework_detected(
            Framework::Express, config, npm, composer, python, gems, maven),
        0 <= k < npm.len() && npm[k]@ == "koa"@ ==> framework_detected(
            Framework::Koa, config, npm, composer, python, gems, maven),
        0 <= k < python.len() && (python[k]@ == "django"@ || python[k]@ == "Django"@) ==> framework_detected(
            Framework::Django, config, npm, composer, python, gems, maven),
        0 <= k < python.len() && (python[k]@ == "fastapi"@ || python[k]@ == "FastAPI"@) ==> framework_detected(
            Framework::FastApi, config, npm, composer, python, gems, maven),
        0 <= k < python.len() && (python[k]@ == "flask"@ || python[k]@ == "Flask"@) ==> framework_detected(
            Framework::Flask, config, npm, composer, python, gems, maven),
        0 <= k < composer.len() && starts_with(composer[k]@, "laravel/"@) ==> framework_detected(
            Framework::Laravel, config, npm, composer, python, gems, maven),
        0 <= k < composer.len() && starts_with(composer[k]@, "symfony/"@) ==> framework_detected(
            Framework::Symfony, config, npm, composer, python, gems, maven),
        0 <= k < gems.len() && gems[k]@ == "rails"@ ==> framework_detected(
            Framework::Rails, config, npm, composer, python, gems, maven),
        0 <= k < maven.len() && contains(maven[k]@, "org.springframework"@) ==> framework_detected(
            Framework::Spring, config, npm, composer, python, gems, maven),
{
}

/// Detection needs its signal: a framework other than Next.js is
/// detected only when one of its dependency names is listed, and Next.js
/// only then or when a tsconfig path points into `app/` or `pages/`;
/// ASP.NET never comes from the lists.
pub proof fn law_detect_needs_signal(
    config: ConfigContext,
    npm: Seq<&str>,
    composer: Seq<&str>,
    python: Seq<&str>,
    gems: Seq<&str>,
    maven: Seq<&str>,
)
    ensures
        framework_detected(Framework::Expo, config, npm, composer, python, gems, maven) ==> exists|k: int|
            0 <= k < npm.len() && ((#[trigger] npm[k])@ == "expo"@ || npm[k]@ == "expo-router"@),
        framework_detected(Framework::Express, config, npm, composer, python, gems, maven) ==> exists|k: int|
            0 <= k < npm.len() && (#[trigger] npm[k])@ == "express"@,
        framework_detected(Framework::Koa, config, npm, composer, python, gems, maven) ==> exists|k: int|
            0 <= k < npm.len() && (#[trigger] npm[k])@ == "koa"@,
        framework_detected(Framework::Django, config, npm, composer, python, gems, maven) ==> exists|k: int|
            0 <= k < python.len() && ((#[trigger] python[k])@ == "django"@ || python[k]@ == "Django"@),
        framework_detected(Framework::FastApi, config, npm, composer, python, gems, maven) ==> exists|k: int|
            0 <= k < python.len() && ((#[trigger] python[k])@ == "fastapi"@ || python[k]@ == "FastAPI"@),
        framework_detected(Framework::Flask, config, npm, composer, python, gems, maven) ==> exists|k: int|
            0 <= k < python.len() && ((#[trigger] python[k])@ == "flask"@ || python[k]@ == "Flask"@),
        framework_detected(Framework::Laravel, config, npm, composer, python, gems, maven) ==> exists|k: int|
            0 <= k < composer.len() && starts_with((#[trigger] composer[k])@, "laravel/"@),
        framework_detected(Framework::Symfony, config, npm, composer, python, gems, maven) ==> exists|k: int|
            0 <= k < composer.len() && starts_with((#[trigger] composer[k])@, "symfony/"@),
        framework_detected(Framework::Rails, config, npm, composer, python, gems, maven) ==> exists|k: int|
            0 <= k < gems.len() && (#[trigger] gems[k])@ == "rails"@,
        framework_detected(Framework::Spring, config, npm, composer, python, gems, maven) ==> exists|k: int|
            0 <= k < maven.len() && contains((#[trigger] maven[k])@, "org.springframework"@),
        framework_detected(Framework::NextJs, config, npm, composer, python, gems, maven) ==> (exists|k: int|
            0 <= k < npm.len() && ((#[trigger] npm[k])@ == "next"@ || npm[k]@ == "next.js"@))
            || targets_pages(config.workspaces@),
        !framework_detected(Framework::AspNet, config, npm, composer, python, gems, maven),
{
}

/// With no workspace and empty dependency lists nothing is detected.
pub proof fn law_detect_nothing_from_nothing(f: Framework, config: ConfigContext)
    requires
        config.workspaces@.len() == 0,
    ensures
        !framework_detected(f, config, seq![], seq![], seq![], seq![], seq![]),
{
}

fn lists_exec(deps: &[&str], name: &str) -> (b: bool)
    ensures
        b == lists(deps@, name@),
{
    let n = to_chars(name);
    let mut i: usize = 0;
    while i < deps.len()
        invariant
            i <= deps@.len(),
            n@ == name@,
            forall|k: int| 0 <= k < i ==> (#[trigger] deps@[k])@ != name@,
        decreases deps@.len() - i,
    {
        if str_eq_chars(deps[i], n.as_slice()) {
            return true;
        }
        i += 1;
    }
    false
}

fn lists_prefix_exec(deps: &[&str], prefix: &str) -> (b: bool)
    ensures
        b == lists_prefix(deps@, prefix@),
{
    let mut i: usize = 0;
    while i < deps.len()
        invariant
            i <= deps@.len(),
            forall|k: int| 0 <= k < i ==> !starts_with((#[trigger] deps@[k])@, prefix@),
        decreases deps@.len() - i,
    {
        let d = to_chars(deps[i]);
        if starts_with_str(d.as_slice(), prefix) {
            return true;
        }
        i += 1;
    }
    false
}

fn lists_part_exec(deps: &[&str], part: &str) -> (b: bool)
    ensures
        b == lists_part(deps@, part@),
{
    let mut i: usize = 0;
    while i < deps.len()
        invariant
            i <= deps@.len(),
            forall|k: int| 0 <= k < i ==> !contains((#[trigger] deps@[k])@, part@),
        decreases deps@.len() - i,
    {
        let d = to_chars(deps[i]);
        if contains_str(d.as_slice(), part) {
            return true;
        }
        i += 1;
    }
    false
}

fn alias_targets_pages_exec(targets: &Vec<String>) -> (b: bool)
    ensures
        b == alias_targets_pages(targets@),
{
    let mut t: usize = 0;
    while t < targets.len()
        invariant
            t <= targets@.len(),
            forall|k: int| 0 <= k < t ==> !is_pages_target((#[trigger] targets@[k])@),
        decreases targets@.len() - t,
    {
        let c = to_chars(targets[t].as_str());
        if contains_str(c.as_slice(), "app/") || contains_str(c.as_slice(), "pages/") {
            return true;
        }
        t += 1;
    }
    false
}

fn workspace_targets_pages_exec(w: &WorkspaceConfig) -> (b: bool)
    ensures
        b == workspace_targets_pages(*w),
{
    let mut a: usize = 0;
    while a < w.ts_paths.len()
        invariant
            a <= w.ts_paths@.len(),
            forall|k: int| 0 <= k < a ==> !alias_targets_pages((#[trigger] w.ts_paths@[k]).targets@),
        decreases w.ts_paths@.len() - a,
    {
        if alias_targets_pages_exec(&w.ts_paths[a].targets) {
            return true;
        }
        a += 1;
    }
    false
}

fn targets_pages_exec(ws: &Vec<WorkspaceConfig>) -> (b: bool)
    ensures
        b == targets_pages(ws@),
{
    let mut w: usize = 0;
    while w < ws.len()
        invariant
            w <= ws@.len(),
            forall|k: int| 0 <= k < w ==> !workspace_targets_pages(#[trigger] ws@[k]),
        decreases ws@.len() - w,
    {
        if workspace_targets_pages_exec(&ws[w]) {
            return true;
        }
        w += 1;
    }
    false
}

fn push_if(v: &mut Vec<Framework>, c: bool, f: Framework)
    requires
        old(v)@.no_duplicates(),
        !old(v)@.contains(f),
    ensures
        final(v)@.no_duplicates(),
        forall|x: Framework| final(v)@.contains(x) <==> (old(v)@.contains(x) || (c && x == f)),
{
    if c {
        let ghost before = v@;
        v.push(f);
        assert forall|p: int, q: int| 0 <= p < v@.len() && 0 <= q < v@.len() && p != q implies v@[p]
            != v@[q] by {
            if p == before.len() as int {
                assert(before.contains(v@[q]));
            } else if q == before.len() as int {
                assert(before.contains(v@[p]));
            }
        }
        assert forall|x: Framework| v@.contains(x) <==> (before.contains(x) || x == f) by {
            if v@.contains(x) && x != f {
                let k = choose|k: int| 0 <= k < v@.len() && v@[k] == x;
                assert(before[k] == x);
            }
            if before.contains(x) {
                let k = choose|k: int| 0 <= k < before.len() && before[k] == x;
                assert(v@[k] == x);
            }
            if x == f {
                assert(v@[before.len() as int] == f);
            }
        }
    }
}

/// Detect frameworks from manifest dependency lists (npm, Composer,
/// Python, Gemfile, Maven coordinates) and from tsconfig paths that
/// point into `app/` or `pages/`.
pub fn detect(
    config: &ConfigContext,
    package_json_deps: &[&str],
    composer_deps: &[&str],
    python_deps: &[&str],
    gemfile_deps: &[&str],
    maven_coords: &[&str],
) -> (r: FrameworkContext)
    ensures
        r.wf(),
        forall|f: Framework|
            r@.contains(f) <==> framework_detected(
                f,
                *config,
                package_json_deps@,
                composer_deps@,
                python_deps@,
                gemfile_deps@,
                maven_coords@,
            ),
{
    let next = lists_exec(package_json_deps, "next") || lists_exec(package_json_deps, "next.js")
        || targets_pages_exec(&config.workspaces);
    let expo = lists_exec(package_json_deps, "expo") || lists_exec(package_json_deps, "expo-router");
    let express = lists_exec(package_json_deps, "express");
    let koa = lists_exec(package_json_deps, "koa");
    let django = lists_exec(python_deps, "django") || lists_exec(python_deps, "Django");
    let fastapi = lists_exec(python_deps, "fastapi") || lists_exec(python_deps, "FastAPI");
    let flask = lists_exec(python_deps, "flask") || lists_exec(python_deps, "Flask");
    let laravel = lists_prefix_exec(composer_deps, "laravel/");
    let symfony = lists_prefix_exec(composer_deps, "symfony/");
    let rails = lists_exec(gemfile_deps, "rails");
    let spring = lists_part_exec(maven_coords, "org.springframework");
    let mut v: Vec<Framework> = Vec::new();
    push_if(&mut v, django, Framework::Django);
    push_if(&mut v, expo, Framework::Expo);
    push_if(&mut v, express, Framework::Express);
    push_if(&mut v, fastapi, Framework::FastApi);
    push_if(&mut v, flask, Framework::Flask);
    push_if(&mut v, koa, Framework::Koa);
    push_if(&mut v, laravel, Framework::Laravel);
    push_if(&mut v, next, Framework::NextJs);
    push_if(&mut v, rails, Framework::Rails);
    push_if(&mut v, spring, Framework::Spring);
    push_if(&mut v, symfony, Framework::Symfony);
    let r = FrameworkContext { detected: v };
    r
}

} // verus!
