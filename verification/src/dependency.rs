//! The impact resolver: from the services of a repository and the files
//! that have changed to the services that must be built, each with the
//! first cause that was found for it.

use crate::cli::Opts;
use crate::config::{
    accepted, compilable, compile_all, compiled_list, compiled_view, compiled_views,
    lemma_compiled_views, pattern_views, DepPattern, PatternView,
};
use crate::path::{
    cleaned, is_absolute, joined, lemma_parent_shorter, located, parent, parent_of, path_views,
    PathError, PathInfo, PathView,
};
use crate::service::{cause_of, AutoDependency, BuildTrigger, Cause, Service};
use crate::text::{chars_eq, to_chars};
use crate::utils::{lemma_views_push, reversed, views};
use vstd::prelude::*;

verus! {

/// One of the declared dependencies of `s` applies to `path`.
pub open spec fn declared_match(s: Service, path: Seq<char>) -> bool {
    exists|j: int|
        0 <= j < s.depsfile.dependencies@.len() && (#[trigger] s.depsfile.dependencies@[j]).matches(
            path,
        )
}

/// One of the discovered dependencies of `s` applies to `path`.
pub open spec fn discovered_match(s: Service, path: Seq<char>) -> bool {
    exists|j: int|
        0 <= j < s.auto_dependencies@.len() && (#[trigger] s.auto_dependencies@[j]).pattern.matches(
            path,
        )
}

/// One of the dependencies of `s` applies to `path`.
pub open spec fn depends_on(s: Service, path: Seq<char>) -> bool {
    declared_match(s, path) || discovered_match(s, path)
}

/// Position of the first of `sources`, at or after `from`, that `s`
/// depends on; `sources.len()` when there is none.
pub open spec fn first_source(s: Service, sources: Seq<PathView>, from: int) -> int
    decreases sources.len() - from,
{
    if from < 0 || from >= sources.len() {
        sources.len() as int
    } else if depends_on(s, sources[from].canonical) {
        from
    } else {
        first_source(s, sources, from + 1)
    }
}

/// The cause that `sources` give to build `s`: the first source that `s`
/// depends on, named as written, and whether only a discovered
/// dependency applies to it. `peer` tells services as sources from files.
pub open spec fn dependency_cause(s: Service, sources: Seq<PathView>, peer: bool) -> Option<Cause> {
    let k = first_source(s, sources, 0);
    if k < sources.len() {
        let auto = !declared_match(s, sources[k].canonical);
        let name = sources[k].display;
        if peer {
            Some(Cause::PeerDependency(name, auto))
        } else {
            Some(Cause::Dependency(name, auto))
        }
    } else {
        None
    }
}

/// What the triggers say.
pub open spec fn causes(triggers: Seq<Option<BuildTrigger>>) -> Seq<Option<Cause>> {
    triggers.map_values(|t: Option<BuildTrigger>| cause_of(t))
}

/// What the services' own triggers say.
pub open spec fn own_causes(services: Seq<Service>) -> Seq<Option<Cause>> {
    services.map_values(|s: Service| cause_of(s.trigger))
}

/// The causes after one round of matching: a service with a cause keeps
/// it, every other one gets the cause that `sources` give it, if any.
pub open spec fn after_round(
    services: Seq<Service>,
    before: Seq<Option<Cause>>,
    sources: Seq<PathView>,
    peer: bool,
) -> Seq<Option<Cause>> {
    Seq::new(
        services.len(),
        |i: int|
            if before[i] is Some {
                before[i]
            } else {
                dependency_cause(services[i], sources, peer)
            },
    )
}

/// The paths of the services among the first `upto` that a round of
/// matching gives a cause to, in the order of the services.
pub open spec fn newly_triggered(
    services: Seq<Service>,
    before: Seq<Option<Cause>>,
    sources: Seq<PathView>,
    peer: bool,
    upto: int,
) -> Seq<PathView>
    decreases upto,
{
    if upto <= 0 {
        Seq::<PathView>::empty()
    } else {
        let earlier = newly_triggered(services, before, sources, peer, upto - 1);
        if before[upto - 1] is None && dependency_cause(services[upto - 1], sources, peer)
            is Some {
            earlier.push(services[upto - 1].path@)
        } else {
            earlier
        }
    }
}

/// Number of services without a cause.
pub open spec fn untriggered(causes: Seq<Option<Cause>>) -> nat
    decreases causes.len(),
{
    if causes.len() == 0 {
        0
    } else if causes.last() is None {
        untriggered(causes.drop_last()) + 1
    } else {
        untriggered(causes.drop_last())
    }
}

/// Whether any of `patterns` applies to `path`.
fn any_match(patterns: &Vec<DepPattern>, path: &str) -> (r: bool)
    ensures
        r == exists|j: int| 0 <= j < patterns@.len() && (#[trigger] patterns@[j]).matches(path@),
{
    let mut j: usize = 0;
    while j < patterns.len()
        invariant
            j <= patterns.len(),
            forall|k: int| 0 <= k < j ==> !(#[trigger] patterns@[k]).matches(path@),
        decreases patterns.len() - j,
    {
        if patterns[j].is_match(path) {
            return true;
        }
        j = j + 1;
    }
    false
}

/// Whether any of the discovered `dependencies` applies to `path`.
fn any_auto_match(dependencies: &Vec<AutoDependency>, path: &str) -> (r: bool)
    ensures
        r == exists|j: int|
            0 <= j < dependencies@.len() && (#[trigger] dependencies@[j]).pattern.matches(path@),
{
    let mut j: usize = 0;
    while j < dependencies.len()
        invariant
            j <= dependencies.len(),
            forall|k: int| 0 <= k < j ==> !(#[trigger] dependencies@[k]).pattern.matches(path@),
        decreases dependencies.len() - j,
    {
        if dependencies[j].pattern.is_match(path) {
            return true;
        }
        j = j + 1;
    }
    false
}

/// The first of `sources` that `service` depends on, with the flag that
/// tells whether only a discovered dependency applies to it.
pub fn service_has_dependency(service: &Service, sources: &Vec<PathInfo>) -> (r: Option<
    (usize, bool),
>)
    ensures
        r is Some <==> first_source(*service, path_views(sources@), 0) < sources@.len(),
        match r {
            Some((k, auto)) => k == first_source(*service, path_views(sources@), 0) && auto
                == !declared_match(*service, sources@[k as int].canonicalized@),
            None => true,
        },
{
    let mut k: usize = 0;
    while k < sources.len()
        invariant
            k <= sources.len(),
            first_source(*service, path_views(sources@), k as int) == first_source(
                *service,
                path_views(sources@),
                0,
            ),
        decreases sources.len() - k,
    {
        let path = sources[k].canonicalized.as_str();
        assert(path_views(sources@)[k as int] == sources@[k as int]@);
        if any_match(&service.depsfile.dependencies, path) {
            return Some((k, false));
        }
        if any_auto_match(&service.auto_dependencies, path) {
            return Some((k, true));
        }
        k = k + 1;
    }
    None
}

/// The trigger that stands for a dependency on the source `name`.
fn dependency_trigger(name: &str, auto: bool, peer: bool) -> (r: BuildTrigger)
    ensures
        r@ == (if peer {
            Cause::PeerDependency(name@, auto)
        } else {
            Cause::Dependency(name@, auto)
        }),
{
    if peer {
        BuildTrigger::PeerDependency(name.to_owned(), auto)
    } else {
        BuildTrigger::Dependency(name.to_owned(), auto)
    }
}

/// One round of matching: gives every service that has no trigger yet
/// and depends on one of `sources` its trigger, and returns the paths of
/// those services.
pub fn check_direct_dependencies(
    services: &Vec<Service>,
    triggers: &mut Vec<Option<BuildTrigger>>,
    sources: &Vec<PathInfo>,
    peer: bool,
) -> (changed: Vec<PathInfo>)
    requires
        old(triggers)@.len() == services@.len(),
    ensures
        final(triggers)@.len() == services@.len(),
        causes(final(triggers)@) == after_round(
            services@,
            causes(old(triggers)@),
            path_views(sources@),
            peer,
        ),
        path_views(changed@) == newly_triggered(
            services@,
            causes(old(triggers)@),
            path_views(sources@),
            peer,
            services@.len() as int,
        ),
{
    let mut changed: Vec<PathInfo> = Vec::new();
    let ghost before = causes(triggers@);
    let ghost from = path_views(sources@);
    let mut i: usize = 0;
    assert(path_views(changed@) =~= Seq::<PathView>::empty());
    while i < services.len()
        invariant
            i <= services.len(),
            triggers@.len() == services@.len(),
            before.len() == services@.len(),
            from == path_views(sources@),
            forall|k: int|
                0 <= k < i ==> cause_of(#[trigger] triggers@[k]) == after_round(
                    services@,
                    before,
                    from,
                    peer,
                )[k],
            forall|k: int|
                i <= k < services@.len() ==> cause_of(#[trigger] triggers@[k]) == before[k],
            path_views(changed@) == newly_triggered(services@, before, from, peer, i as int),
        decreases services.len() - i,
    {
        if triggers[i].is_none() {
            match service_has_dependency(&services[i], sources) {
                Some((k, auto)) => {
                    assert(from[k as int] == sources@[k as int]@);
                    let path = services[i].path.duplicate();
                    assert(path_views(changed@.push(path)) =~= path_views(changed@).push(path@));
                    changed.push(path);
                    let trigger = dependency_trigger(sources[k].display_path.as_str(), auto, peer);
                    triggers.set(i, Some(trigger));
                },
                None => {},
            }
        }
        i = i + 1;
    }
    assert(causes(triggers@) =~= after_round(services@, before, from, peer));
    changed
}

/// Position of the first service, at or after `from`, whose directory is
/// `dir`; `services.len()` when there is none.
pub open spec fn service_at(services: Seq<Service>, dir: Seq<char>, from: int) -> int
    decreases services.len() - from,
{
    if from < 0 || from >= services.len() {
        services.len() as int
    } else if services[from].path.canonicalized@ == dir {
        from
    } else {
        service_at(services, dir, from + 1)
    }
}

/// The service that owns what lies in `dir`: the service whose directory
/// is `dir` or, failing that, the nearest directory above it, looking no
/// higher than `root`.
pub open spec fn owner_from(services: Seq<Service>, dir: Seq<char>, root: Seq<char>) -> Option<int>
    decreases dir.len(),
{
    let at = service_at(services, dir, 0);
    if at < services.len() {
        Some(at)
    } else if dir == root {
        None
    } else {
        match parent_of(dir) {
            Some(up) => {
                proof {
                    lemma_parent_shorter(dir);
                }
                owner_from(services, up, root)
            },
            None => None,
        }
    }
}

/// The service that owns `file`: the one whose directory is the nearest
/// above the file, looking no higher than `root`.
pub open spec fn owner(services: Seq<Service>, file: Seq<char>, root: Seq<char>) -> Option<int> {
    match parent_of(file) {
        Some(dir) => owner_from(services, dir, root),
        None => None,
    }
}

/// The causes after the first `upto` changed files were attributed: a
/// service with a cause keeps it, and every other one that owns one of
/// those files has `FileChange`.
pub open spec fn after_files(
    services: Seq<Service>,
    before: Seq<Option<Cause>>,
    changed: Seq<PathView>,
    root: Seq<char>,
    upto: int,
) -> Seq<Option<Cause>> {
    Seq::new(
        services.len(),
        |i: int|
            if before[i] is Some {
                before[i]
            } else if exists|f: int|
                0 <= f < upto && owner(services, (#[trigger] changed[f]).canonical, root)
                    == Some(i) {
                Some(Cause::FileChange)
            } else {
                None
            },
    )
}

/// The paths of the services that own the first `upto` changed files,
/// one for each file that has an owner, in the order of the files.
pub open spec fn owners_of(
    services: Seq<Service>,
    changed: Seq<PathView>,
    root: Seq<char>,
    upto: int,
) -> Seq<PathView>
    decreases upto,
{
    if upto <= 0 {
        Seq::<PathView>::empty()
    } else {
        let earlier = owners_of(services, changed, root, upto - 1);
        match owner(services, changed[upto - 1].canonical, root) {
            Some(i) => earlier.push(services[i].path@),
            None => earlier,
        }
    }
}

/// One of the global patterns applies to one of the changed files.
pub open spec fn global_hit(globals: Seq<PatternView>, changed: Seq<PathView>) -> bool {
    exists|g: int, f: int|
        0 <= g < globals.len() && 0 <= f < changed.len() && (#[trigger] globals[g]).matches(
            (#[trigger] changed[f]).canonical,
        )
}

/// The causes after everything was marked: a service with a cause keeps
/// it, every other one has `GlobalDependency`.
pub open spec fn all_marked(before: Seq<Option<Cause>>) -> Seq<Option<Cause>> {
    Seq::new(
        before.len(),
        |i: int|
            if before[i] is Some {
                before[i]
            } else {
                Some(Cause::GlobalDependency)
            },
    )
}

/// The causes once the services that were just given a cause have been
/// followed to the services that depend on them, round after round,
/// until a round gives no service a cause.
pub open spec fn propagated(
    services: Seq<Service>,
    before: Seq<Option<Cause>>,
    sources: Seq<PathView>,
) -> Seq<Option<Cause>>
    decreases untriggered(before),
    when before.len() == services.len()
{
    let newly = newly_triggered(services, before, sources, true, services.len() as int);
    if newly.len() == 0 {
        before
    } else {
        proof {
            lemma_round_progress(services, before, sources, true);
        }
        propagated(services, after_round(services, before, sources, true), newly)
    }
}

/// The cause of each service once the changed files are accounted for.
/// Where a global pattern applies to a changed file, every service is
/// marked. Otherwise a changed file is attributed to the service that
/// owns it, then the services that depend on a changed file get their
/// cause, then those that depend on a service that has just got one,
/// until nothing is added. A cause, once there, stays.
pub open spec fn resolution(
    services: Seq<Service>,
    before: Seq<Option<Cause>>,
    changed: Seq<PathView>,
    globals: Seq<PatternView>,
    root: Seq<char>,
) -> Seq<Option<Cause>> {
    if global_hit(globals, changed) {
        all_marked(before)
    } else {
        let owned = after_files(services, before, changed, root, changed.len() as int);
        let direct = after_round(services, owned, changed, false);
        let sources = owners_of(services, changed, root, changed.len() as int) + newly_triggered(
            services,
            owned,
            changed,
            false,
            services.len() as int,
        );
        propagated(services, direct, sources)
    }
}

/// What a round of matching does to the number of services without a
/// cause: it takes away as many as the round names.
pub proof fn lemma_round_count(
    services: Seq<Service>,
    before: Seq<Option<Cause>>,
    sources: Seq<PathView>,
    peer: bool,
    upto: int,
)
    requires
        before.len() == services.len(),
        0 <= upto <= services.len(),
    ensures
        untriggered(after_round(services, before, sources, peer).take(upto)) + newly_triggered(
            services,
            before,
            sources,
            peer,
            upto,
        ).len() == untriggered(before.take(upto)),
        newly_triggered(services, before, sources, peer, upto).len() == 0 ==> after_round(
            services,
            before,
            sources,
            peer,
        ).take(upto) == before.take(upto),
    decreases upto,
{
    let after = after_round(services, before, sources, peer);
    if upto > 0 {
        lemma_round_count(services, before, sources, peer, upto - 1);
        assert(after.take(upto).drop_last() =~= after.take(upto - 1));
        assert(before.take(upto).drop_last() =~= before.take(upto - 1));
        assert(after.take(upto).last() == after[upto - 1]);
        assert(before.take(upto).last() == before[upto - 1]);
        if newly_triggered(services, before, sources, peer, upto).len() == 0 {
            assert(after.take(upto) =~= before.take(upto));
        }
    } else {
        assert(after.take(upto) =~= before.take(upto));
    }
}

/// A round of matching that names a service leaves fewer services
/// without a cause; one that names none changes nothing.
pub proof fn lemma_round_progress(
    services: Seq<Service>,
    before: Seq<Option<Cause>>,
    sources: Seq<PathView>,
    peer: bool,
)
    requires
        before.len() == services.len(),
    ensures
        after_round(services, before, sources, peer).len() == services.len(),
        newly_triggered(services, before, sources, peer, services.len() as int).len() > 0
            ==> untriggered(after_round(services, before, sources, peer)) < untriggered(before),
        newly_triggered(services, before, sources, peer, services.len() as int).len() == 0
            ==> after_round(services, before, sources, peer) == before,
{
    let after = after_round(services, before, sources, peer);
    lemma_round_count(services, before, sources, peer, services.len() as int);
    assert(after.take(services.len() as int) =~= after);
    assert(before.take(services.len() as int) =~= before);
}

/// Position of the first service whose directory is `dir`.
fn find_service(services: &Vec<Service>, dir: &Vec<char>) -> (r: Option<usize>)
    ensures
        match r {
            Some(i) => i == service_at(services@, dir@, 0) && i < services@.len(),
            None => service_at(services@, dir@, 0) == services@.len(),
        },
{
    let mut i: usize = 0;
    while i < services.len()
        invariant
            i <= services.len(),
            service_at(services@, dir@, i as int) == service_at(services@, dir@, 0),
        decreases services.len() - i,
    {
        let own = to_chars(services[i].path.canonicalized.as_str());
        if chars_eq(&own, dir) {
            return Some(i);
        }
        i = i + 1;
    }
    None
}

/// The service that owns `file`, looking no higher than `root`.
pub fn find_owner(services: &Vec<Service>, file: &str, root: &str) -> (r: Option<usize>)
    ensures
        match r {
            Some(i) => owner(services@, file@, root@) == Some(i as int) && i < services@.len(),
            None => owner(services@, file@, root@) is None,
        },
{
    let top = to_chars(root);
    let mut dir = parent(&to_chars(file));
    loop
        invariant
            top@ == root@,
            owner(services@, file@, root@) == (match dir {
                Some(d) => owner_from(services@, d@, root@),
                None => None,
            }),
        decreases
            (match dir {
                Some(d) => d@.len() + 1,
                None => 0,
            }),
    {
        match dir {
            None => {
                return None;
            },
            Some(d) => {
                match find_service(services, &d) {
                    Some(i) => {
                        return Some(i);
                    },
                    None => {},
                }
                if chars_eq(&d, &top) {
                    return None;
                }
                proof {
                    lemma_parent_shorter(d@);
                }
                dir = parent(&d);
            },
        }
    }
}

/// Attributes one changed file: the service that owns it gets
/// `FileChange`, unless it has a trigger already. Returns the path of
/// that service.
pub fn check_file_dependency(
    services: &Vec<Service>,
    triggers: &mut Vec<Option<BuildTrigger>>,
    file: &PathInfo,
    root: &str,
) -> (r: Option<PathInfo>)
    requires
        old(triggers)@.len() == services@.len(),
    ensures
        final(triggers)@.len() == services@.len(),
        match owner(services@, file.canonicalized@, root@) {
            Some(i) => {
                &&& 0 <= i < services@.len()
                &&& r == Some(services@[i].path)
                &&& causes(final(triggers)@) == causes(old(triggers)@).update(
                    i,
                    if old(triggers)@[i] is Some {
                        cause_of(old(triggers)@[i])
                    } else {
                        Some(Cause::FileChange)
                    },
                )
            },
            None => r is None && final(triggers)@ == old(triggers)@,
        },
{
    match find_owner(services, file.canonicalized.as_str(), root) {
        Some(i) => {
            if triggers[i].is_none() {
                triggers.set(i, Some(BuildTrigger::FileChange));
            }
            assert(causes(triggers@) =~= causes(old(triggers)@).update(
                i as int,
                if old(triggers)@[i as int] is Some {
                    cause_of(old(triggers)@[i as int])
                } else {
                    Some(Cause::FileChange)
                },
            ));
            Some(services[i].path.duplicate())
        },
        None => None,
    }
}

/// Whether one of the global patterns applies to one of the changed files.
pub fn any_global_match(globals: &Vec<DepPattern>, changed: &Vec<PathInfo>) -> (r: bool)
    ensures
        r == global_hit(pattern_views(globals@), path_views(changed@)),
{
    let ghost patterns = pattern_views(globals@);
    let ghost files = path_views(changed@);
    let mut g: usize = 0;
    while g < globals.len()
        invariant
            g <= globals.len(),
            patterns == pattern_views(globals@),
            files == path_views(changed@),
            forall|a: int, f: int|
                0 <= a < g && 0 <= f < files.len() ==> !(#[trigger] patterns[a]).matches(
                    (#[trigger] files[f]).canonical,
                ),
        decreases globals.len() - g,
    {
        let mut f: usize = 0;
        while f < changed.len()
            invariant
                g < globals.len(),
                f <= changed.len(),
                patterns == pattern_views(globals@),
                files == path_views(changed@),
                forall|b: int|
                    0 <= b < f ==> !patterns[g as int].matches((#[trigger] files[b]).canonical),
            decreases changed.len() - f,
        {
            assert(patterns[g as int] == globals@[g as int]@);
            assert(files[f as int] == changed@[f as int]@);
            if globals[g].is_match(changed[f].canonicalized.as_str()) {
                return true;
            }
            f = f + 1;
        }
        g = g + 1;
    }
    false
}

/// The positions among the first `upto` that have a cause, in order.
pub open spec fn kept(causes: Seq<Option<Cause>>, upto: int) -> Seq<int>
    decreases upto,
{
    if upto <= 0 {
        Seq::<int>::empty()
    } else if causes[upto - 1] is Some {
        kept(causes, upto - 1).push(upto - 1)
    } else {
        kept(causes, upto - 1)
    }
}

/// `out` holds the services that have a cause, in their order, each as
/// it was but for its trigger, which says that cause.
pub open spec fn is_selection(
    out: Seq<Service>,
    services: Seq<Service>,
    causes: Seq<Option<Cause>>,
) -> bool {
    let positions = kept(causes, services.len() as int);
    &&& out.len() == positions.len()
    &&& forall|k: int|
        0 <= k < out.len() ==> {
            let i = positions[k];
            &&& 0 <= i < services.len()
            &&& causes[i] is Some
            &&& (#[trigger] out[k]).path == services[i].path
            &&& out[k].depsfile == services[i].depsfile
            &&& out[k].auto_dependencies == services[i].auto_dependencies
            &&& cause_of(out[k].trigger) == causes[i]
        }
}

/// The triggers of the services, one for one.
fn copy_triggers(services: &Vec<Service>) -> (r: Vec<Option<BuildTrigger>>)
    ensures
        r@.len() == services@.len(),
        causes(r@) == own_causes(services@),
{
    let mut out: Vec<Option<BuildTrigger>> = Vec::new();
    let mut i: usize = 0;
    while i < services.len()
        invariant
            i <= services.len(),
            out@.len() == i,
            forall|k: int| 0 <= k < i ==> cause_of(#[trigger] out@[k]) == cause_of(
                services@[k].trigger,
            ),
        decreases services.len() - i,
    {
        match &services[i].trigger {
            Some(t) => {
                out.push(Some(t.duplicate()));
            },
            None => {
                out.push(None);
            },
        }
        i = i + 1;
    }
    assert(causes(out@) =~= own_causes(services@));
    out
}

/// Gives every service that has no trigger `GlobalDependency`.
fn mark_all(triggers: &mut Vec<Option<BuildTrigger>>)
    ensures
        final(triggers)@.len() == old(triggers)@.len(),
        causes(final(triggers)@) == all_marked(causes(old(triggers)@)),
{
    let ghost before = causes(triggers@);
    let mut i: usize = 0;
    while i < triggers.len()
        invariant
            i <= triggers.len(),
            triggers@.len() == before.len(),
            forall|k: int|
                0 <= k < i ==> cause_of(#[trigger] triggers@[k]) == all_marked(before)[k],
            forall|k: int|
                i <= k < triggers@.len() ==> cause_of(#[trigger] triggers@[k]) == before[k],
        decreases triggers.len() - i,
    {
        if triggers[i].is_none() {
            triggers.set(i, Some(BuildTrigger::GlobalDependency));
        }
        i = i + 1;
    }
    assert(causes(triggers@) =~= all_marked(before));
}

/// The services that have a trigger, each with its trigger put in.
fn select(services: Vec<Service>, triggers: Vec<Option<BuildTrigger>>) -> (out: Vec<Service>)
    requires
        triggers@.len() == services@.len(),
    ensures
        is_selection(out@, services@, causes(triggers@)),
{
    let ghost all = causes(triggers@);
    let ghost n = services@.len();
    let mut rest = reversed(services);
    let mut rest_triggers = reversed(triggers);
    let mut out: Vec<Service> = Vec::new();
    while rest.len() > 0
        invariant
            n == services@.len(),
            all == causes(triggers@),
            triggers@.len() == n,
            rest@.len() == rest_triggers@.len(),
            rest@.len() <= n,
            forall|i: int| 0 <= i < rest@.len() ==> rest@[i] == services@[n - 1 - i],
            forall|i: int| 0 <= i < rest@.len() ==> rest_triggers@[i] == triggers@[n - 1 - i],
            out@.len() == kept(all, n - rest@.len()).len(),
            forall|k: int|
                0 <= k < out@.len() ==> {
                    let i = kept(all, n - rest@.len())[k];
                    &&& 0 <= i < n
                    &&& all[i] is Some
                    &&& (#[trigger] out@[k]).path == services@[i].path
                    &&& out@[k].depsfile == services@[i].depsfile
                    &&& out@[k].auto_dependencies == services@[i].auto_dependencies
                    &&& cause_of(out@[k].trigger) == all[i]
                },
        decreases rest.len(),
    {
        let ghost at = n - rest@.len();
        let service = rest.pop();
        let trigger = rest_triggers.pop();
        match (service, trigger) {
            (Some(s), Some(t)) => {
                assert(s == services@[at]);
                assert(t == triggers@[at]);
                assert(all[at] == cause_of(t));
                if t.is_some() {
                    out.push(
                        Service {
                            path: s.path,
                            depsfile: s.depsfile,
                            auto_dependencies: s.auto_dependencies,
                            trigger: t,
                        },
                    );
                }
            },
            _ => {},
        }
    }
    out
}

/// Determines which services must be built, given the changed files in
/// canonical form and the compiled global patterns. Where a global
/// pattern applies to a changed file every service is returned.
/// Otherwise a service is returned when it owns a changed file, depends
/// on one, or depends on a service that is returned. Each service is
/// returned with the first cause found for it; one that came with a
/// trigger keeps it.
pub fn resolve_canonical(
    services: Vec<Service>,
    changed: &Vec<PathInfo>,
    globals: &Vec<DepPattern>,
    root: &str,
) -> (out: Vec<Service>)
    ensures
        is_selection(
            out@,
            services@,
            resolution(
                services@,
                own_causes(services@),
                path_views(changed@),
                pattern_views(globals@),
                root@,
            ),
        ),
        forall|k: int| 0 <= k < out@.len() ==> (#[trigger] out@[k]).trigger is Some,
{
    let mut triggers = copy_triggers(&services);
    let ghost before = causes(triggers@);
    let ghost files = path_views(changed@);
    if any_global_match(globals, changed) {
        mark_all(&mut triggers);
    } else {
        let mut updated: Vec<PathInfo> = Vec::new();
        let mut f: usize = 0;
        assert(causes(triggers@) =~= after_files(services@, before, files, root@, 0));
        assert(path_views(updated@) =~= Seq::<PathView>::empty());
        while f < changed.len()
            invariant
                f <= changed.len(),
                files == path_views(changed@),
                triggers@.len() == services@.len(),
                before.len() == services@.len(),
                causes(triggers@) == after_files(services@, before, files, root@, f as int),
                path_views(updated@) == owners_of(services@, files, root@, f as int),
            decreases changed.len() - f,
        {
            let ghost earlier = causes(triggers@);
            assert(files[f as int] == changed@[f as int]@);
            match check_file_dependency(&services, &mut triggers, &changed[f], root) {
                Some(path) => {
                    assert(path_views(updated@.push(path)) =~= path_views(updated@).push(path@));
                    updated.push(path);
                },
                None => {},
            }
            proof {
                let hit = owner(services@, files[f as int].canonical, root@);
                let next = after_files(services@, before, files, root@, f + 1);
                assert forall|i: int| 0 <= i < services@.len() implies causes(triggers@)[i]
                    == next[i] by {
                    if before[i] is None {
                        if exists|g: int|
                            0 <= g < f + 1 && owner(
                                services@,
                                (#[trigger] files[g]).canonical,
                                root@,
                            ) == Some(i) {
                            let g = choose|g: int|
                                0 <= g < f + 1 && owner(
                                    services@,
                                    (#[trigger] files[g]).canonical,
                                    root@,
                                ) == Some(i);
                            if g < f {
                                assert(earlier[i] == Some(Cause::FileChange));
                            }
                        } else {
                            assert(hit != Some(i));
                            assert(earlier[i] is None);
                        }
                    }
                }
                assert(causes(triggers@) =~= next);
            }
            f = f + 1;
        }
        let ghost owned = causes(triggers@);
        let ghost owners = path_views(updated@);
        let mut direct = check_direct_dependencies(&services, &mut triggers, changed, false);
        let ghost named = path_views(direct@);
        updated.append(&mut direct);
        assert(path_views(updated@) =~= owners + named);
        let ghost target = propagated(services@, causes(triggers@), path_views(updated@));
        loop
            invariant
                triggers@.len() == services@.len(),
                propagated(services@, causes(triggers@), path_views(updated@)) == target,
            ensures
                causes(triggers@) == target,
            decreases untriggered(causes(triggers@)),
        {
            let ghost current = causes(triggers@);
            proof {
                lemma_round_progress(services@, current, path_views(updated@), true);
            }
            let next = check_direct_dependencies(&services, &mut triggers, &updated, true);
            if next.len() == 0 {
                break ;
            }
            updated = next;
        }
    }
    let out = select(services, triggers);
    proof {
        let all = resolution(
            services@,
            own_causes(services@),
            files,
            pattern_views(globals@),
            root@,
        );
        assert(all == causes(triggers@));
    }
    out
}

/// The changed `files`, each located below the absolute `root`.
pub open spec fn located_files(files: Seq<Seq<char>>, root: Seq<char>) -> Seq<PathView> {
    files.map_values(
        |file: Seq<char>| PathView { display: file, canonical: cleaned(joined(root, file)) },
    )
}

/// `changed` are the changed `files`, each located below `root`.
pub open spec fn located_all(
    changed: Seq<PathView>,
    files: Seq<Seq<char>>,
    root: Seq<char>,
) -> bool {
    &&& changed.len() == files.len()
    &&& forall|i: int|
        0 <= i < changed.len() ==> (#[trigger] changed[i]).display == files[i] && exists|
            resolved: Option<Seq<char>>,
        |
            changed[i].canonical == #[trigger] located(root, files[i], resolved)
}

/// `globals` say what the compilable ones among `names` compile to,
/// declared for `root`.
pub open spec fn compiled_all(
    globals: Seq<PatternView>,
    names: Seq<Seq<char>>,
    root: Seq<char>,
) -> bool {
    exists|patterns: Seq<DepPattern>|
        pattern_views(patterns) == globals && #[trigger] compiled_list(
            patterns,
            names,
            root,
        )
}

/// Determines which services must be built when `changed_files` have
/// changed. The files are located below the target of `opts`, the global
/// dependencies of its configuration are compiled for that target (one
/// that does not compile is left out), and the rest is
/// `resolve_canonical`. Every service that is returned has a trigger.
/// Where the target is absolute, as a canonical path is, the outcome is
/// a function of the arguments.
pub fn resolve_files(
    services: Vec<Service>,
    changed_files: Vec<String>,
    opts: &Opts,
) -> (out: Vec<Service>)
    ensures
        forall|k: int| 0 <= k < out@.len() ==> (#[trigger] out@[k]).trigger is Some,
        is_absolute(opts.target.canonicalized@) ==> is_selection(
            out@,
            services@,
            resolution(
                services@,
                own_causes(services@),
                located_files(views(changed_files@), opts.target.canonicalized@),
                compiled_views(
                    views(opts.config.global_dependencies@),
                    opts.target.canonicalized@,
                ),
                opts.target.canonicalized@,
            ),
        ),
        exists|changed: Seq<PathView>, globals: Seq<PatternView>|
            {
                &&& located_all(changed, views(changed_files@), opts.target.canonicalized@)
                &&& compiled_all(
                    globals,
                    views(opts.config.global_dependencies@),
                    opts.target.canonicalized@,
                )
                &&& #[trigger] is_selection(
                    out@,
                    services@,
                    resolution(
                        services@,
                        own_causes(services@),
                        changed,
                        globals,
                        opts.target.canonicalized@,
                    ),
                )
            },
{
    let root = opts.target.canonicalized.as_str();
    let ghost files = views(changed_files@);
    let mut changed: Vec<PathInfo> = Vec::new();
    let mut i: usize = 0;
    while i < changed_files.len()
        invariant
            i <= changed_files.len(),
            root@ == opts.target.canonicalized@,
            files == views(changed_files@),
            changed@.len() == i,
            forall|k: int|
                0 <= k < i ==> (#[trigger] changed@[k]).display_path@ == files[k] && (exists|
                    resolved: Option<Seq<char>>,
                |
                    changed@[k].canonicalized@ == #[trigger] located(
                        root@,
                        files[k],
                        resolved,
                    )) && (is_absolute(root@) ==> changed@[k].canonicalized@ == cleaned(
                    joined(root@, files[k]),
                )),
        decreases changed_files.len() - i,
    {
        assert(files[i as int] == changed_files@[i as int]@);
        changed.push(PathInfo::locate(changed_files[i].as_str(), root));
        i = i + 1;
    }
    let globals = compile_all(&opts.config.global_dependencies, root);
    let out = resolve_canonical(services, &changed, &globals, root);
    proof {
        let placed = path_views(changed@);
        let compiled = pattern_views(globals@);
        assert(located_all(placed, files, root@)) by {
            assert forall|k: int| 0 <= k < placed.len() implies (#[trigger] placed[k]).display
                == files[k] && exists|resolved: Option<Seq<char>>|
                placed[k].canonical == #[trigger] located(
                    root@,
                    files[k],
                    resolved,
                ) by {
                assert(placed[k] == changed@[k]@);
            }
        }
        assert(compiled_all(compiled, views(opts.config.global_dependencies@), root@));
        assert(is_selection(
            out@,
            services@,
            resolution(services@, own_causes(services@), placed, compiled, root@),
        ));
        if is_absolute(root@) {
            lemma_compiled_views(globals@, views(opts.config.global_dependencies@), root@);
            assert(placed =~= located_files(files, root@)) by {
                assert forall|k: int| 0 <= k < placed.len() implies placed[k] == located_files(
                    files,
                    root@,
                )[k] by {
                    assert(placed[k] == changed@[k]@);
                }
            }
        }
    }
    out
}

/// The files among the first `upto` of `files` that no service owns, in order.
pub open spec fn unowned(
    services: Seq<Service>,
    files: Seq<Seq<char>>,
    root: Seq<char>,
    upto: int,
) -> Seq<Seq<char>>
    decreases upto,
{
    if upto <= 0 {
        Seq::<Seq<char>>::empty()
    } else {
        let before = unowned(services, files, root, upto - 1);
        if owner(services, cleaned(joined(root, files[upto - 1])), root) is None {
            before.push(files[upto - 1])
        } else {
            before
        }
    }
}

/// The changed files that are passed over because no service owns them:
/// none where a global pattern applies to a changed file, since then
/// files are not attributed at all.
pub open spec fn ignored_files(services: Seq<Service>, files: Seq<Seq<char>>, opts: Opts) -> Seq<
    Seq<char>,
> {
    let root = opts.target.canonicalized@;
    if global_hit(
        compiled_views(views(opts.config.global_dependencies@), root),
        located_files(files, root),
    ) {
        Seq::<Seq<char>>::empty()
    } else {
        unowned(services, files, root, files.len() as int)
    }
}

/// The changed files that are passed over because no service owns them,
/// as written.
pub fn unowned_files(services: &Vec<Service>, changed_files: &Vec<String>, opts: &Opts) -> (r: Vec<
    String,
>)
    requires
        is_absolute(opts.target.canonicalized@),
    ensures
        views(r@) == ignored_files(services@, views(changed_files@), *opts),
{
    let root = opts.target.canonicalized.as_str();
    let ghost files = views(changed_files@);
    let mut out: Vec<String> = Vec::new();
    assert(views(out@) =~= Seq::<Seq<char>>::empty());
    let mut changed: Vec<PathInfo> = Vec::new();
    let mut i: usize = 0;
    while i < changed_files.len()
        invariant
            i <= changed_files.len(),
            root@ == opts.target.canonicalized@,
            is_absolute(root@),
            files == views(changed_files@),
            changed@.len() == i,
            forall|k: int|
                0 <= k < i ==> (#[trigger] changed@[k])@ == located_files(files, root@)[k],
        decreases changed_files.len() - i,
    {
        assert(files[i as int] == changed_files@[i as int]@);
        changed.push(PathInfo::locate(changed_files[i].as_str(), root));
        i = i + 1;
    }
    assert(path_views(changed@) =~= located_files(files, root@));
    let globals = compile_all(&opts.config.global_dependencies, root);
    proof {
        lemma_compiled_views(globals@, views(opts.config.global_dependencies@), root@);
    }
    if any_global_match(&globals, &changed) {
        return out;
    }
    let mut f: usize = 0;
    while f < changed_files.len()
        invariant
            f <= changed_files.len(),
            root@ == opts.target.canonicalized@,
            files == views(changed_files@),
            changed@.len() == changed_files@.len(),
            path_views(changed@) == located_files(files, root@),
            views(out@) == unowned(services@, files, root@, f as int),
        decreases changed_files.len() - f,
    {
        assert(path_views(changed@)[f as int] == changed@[f as int]@);
        assert(files[f as int] == changed_files@[f as int]@);
        if find_owner(services, changed[f].canonicalized.as_str(), root).is_none() {
            let name = changed_files[f].clone();
            proof {
                lemma_views_push(out@, name);
            }
            out.push(name);
        }
        f = f + 1;
    }
    out
}

/// Determines which services must be built when `changed_files` have
/// changed, as `resolve_files` does. This never fails.
pub fn resolve(services: Vec<Service>, changed_files: Vec<String>, opts: &Opts) -> (r: Result<
    Vec<Service>,
    PathError,
>)
    ensures
        r is Ok,
        forall|k: int| 0 <= k < r->Ok_0@.len() ==> (#[trigger] r->Ok_0@[k]).trigger is Some,
        is_absolute(opts.target.canonicalized@) ==> is_selection(
            r->Ok_0@,
            services@,
            resolution(
                services@,
                own_causes(services@),
                located_files(views(changed_files@), opts.target.canonicalized@),
                compiled_views(
                    views(opts.config.global_dependencies@),
                    opts.target.canonicalized@,
                ),
                opts.target.canonicalized@,
            ),
        ),
        exists|changed: Seq<PathView>, globals: Seq<PatternView>|
            {
                &&& located_all(changed, views(changed_files@), opts.target.canonicalized@)
                &&& compiled_all(
                    globals,
                    views(opts.config.global_dependencies@),
                    opts.target.canonicalized@,
                )
                &&& #[trigger] is_selection(
                    r->Ok_0@,
                    services@,
                    resolution(
                        services@,
                        own_causes(services@),
                        changed,
                        globals,
                        opts.target.canonicalized@,
                    ),
                )
            },
{
    Ok(resolve_files(services, changed_files, opts))
}

/// Following services to their dependents never changes a cause that is
/// there, and leaves one cause for each service.
pub proof fn lemma_propagated_keeps(
    services: Seq<Service>,
    before: Seq<Option<Cause>>,
    sources: Seq<PathView>,
)
    requires
        before.len() == services.len(),
    ensures
        propagated(services, before, sources).len() == services.len(),
        forall|i: int|
            0 <= i < services.len() && (#[trigger] before[i]) is Some ==> propagated(
                services,
                before,
                sources,
            )[i] == before[i],
    decreases untriggered(before),
{
    let newly = newly_triggered(services, before, sources, true, services.len() as int);
    if newly.len() > 0 {
        let next = after_round(services, before, sources, true);
        lemma_round_progress(services, before, sources, true);
        lemma_propagated_keeps(services, next, newly);
        assert forall|i: int| 0 <= i < services.len() && (#[trigger] before[i]) is Some implies
            propagated(services, before, sources)[i] == before[i] by {
            assert(next[i] == before[i]);
        }
    }
}

/// Triggers are set once: whatever has changed, a service that came
/// with a cause has that cause in the end, and there is one outcome for
/// each service.
pub proof fn lemma_set_once(
    services: Seq<Service>,
    before: Seq<Option<Cause>>,
    changed: Seq<PathView>,
    globals: Seq<PatternView>,
    root: Seq<char>,
)
    requires
        before.len() == services.len(),
    ensures
        resolution(services, before, changed, globals, root).len() == services.len(),
        forall|i: int|
            0 <= i < services.len() && (#[trigger] before[i]) is Some ==> resolution(
                services,
                before,
                changed,
                globals,
                root,
            )[i] == before[i],
{
    if !global_hit(globals, changed) {
        let owned = after_files(services, before, changed, root, changed.len() as int);
        let direct = after_round(services, owned, changed, false);
        let sources = owners_of(services, changed, root, changed.len() as int) + newly_triggered(
            services,
            owned,
            changed,
            false,
            services.len() as int,
        );
        lemma_propagated_keeps(services, direct, sources);
        assert forall|i: int| 0 <= i < services.len() && (#[trigger] before[i]) is Some implies
            resolution(services, before, changed, globals, root)[i] == before[i] by {
            assert(owned[i] == before[i]);
            assert(direct[i] == before[i]);
        }
    }
}

/// The services that a round names depend only on the cause that the
/// sources give each service.
proof fn lemma_newly_same(
    services: Seq<Service>,
    before: Seq<Option<Cause>>,
    a: Seq<PathView>,
    b: Seq<PathView>,
    peer: bool,
    upto: int,
)
    requires
        0 <= upto <= services.len(),
        forall|i: int|
            0 <= i < services.len() ==> dependency_cause(#[trigger] services[i], a, peer)
                == dependency_cause(services[i], b, peer),
    ensures
        newly_triggered(services, before, a, peer, upto) == newly_triggered(
            services,
            before,
            b,
            peer,
            upto,
        ),
    decreases upto,
{
    if upto > 0 {
        lemma_newly_same(services, before, a, b, peer, upto - 1);
        assert(dependency_cause(services[upto - 1], a, peer) == dependency_cause(
            services[upto - 1],
            b,
            peer,
        ));
    }
}

/// The outcome is stable under reordering of the changed files: where
/// `b` holds the files of `a` in another order that keeps, for each
/// service, the first file it depends on, and keeps the order in which
/// files are attributed to their owners, every service has the same
/// cause for `b` as for `a`.
pub proof fn lemma_reordering_keeps_causes(
    services: Seq<Service>,
    before: Seq<Option<Cause>>,
    a: Seq<PathView>,
    b: Seq<PathView>,
    globals: Seq<PatternView>,
    root: Seq<char>,
)
    requires
        before.len() == services.len(),
        forall|f: int| 0 <= f < a.len() ==> b.contains(#[trigger] a[f]),
        forall|f: int| 0 <= f < b.len() ==> a.contains(#[trigger] b[f]),
        owners_of(services, a, root, a.len() as int) == owners_of(
            services,
            b,
            root,
            b.len() as int,
        ),
        forall|i: int|
            0 <= i < services.len() ==> dependency_cause(#[trigger] services[i], a, false)
                == dependency_cause(services[i], b, false),
    ensures
        resolution(services, before, a, globals, root) == resolution(
            services,
            before,
            b,
            globals,
            root,
        ),
{
    assert(global_hit(globals, a) == global_hit(globals, b)) by {
        if global_hit(globals, a) {
            let (g, f) = choose|g: int, f: int|
                0 <= g < globals.len() && 0 <= f < a.len() && (#[trigger] globals[g]).matches(
                    (#[trigger] a[f]).canonical,
                );
            assert(b.contains(a[f]));
            let f2 = choose|f2: int| 0 <= f2 < b.len() && b[f2] == a[f];
            assert(globals[g].matches(b[f2].canonical));
        }
        if global_hit(globals, b) {
            let (g, f) = choose|g: int, f: int|
                0 <= g < globals.len() && 0 <= f < b.len() && (#[trigger] globals[g]).matches(
                    (#[trigger] b[f]).canonical,
                );
            assert(a.contains(b[f]));
            let f2 = choose|f2: int| 0 <= f2 < a.len() && a[f2] == b[f];
            assert(globals[g].matches(a[f2].canonical));
        }
    }
    if !global_hit(globals, a) {
        let owned_a = after_files(services, before, a, root, a.len() as int);
        let owned_b = after_files(services, before, b, root, b.len() as int);
        assert forall|i: int| 0 <= i < services.len() implies owned_a[i] == owned_b[i] by {
            if before[i] is None {
                if exists|f: int|
                    0 <= f < a.len() && owner(services, (#[trigger] a[f]).canonical, root)
                        == Some(i) {
                    let f = choose|f: int|
                        0 <= f < a.len() && owner(services, (#[trigger] a[f]).canonical, root)
                            == Some(i);
                    assert(b.contains(a[f]));
                    let f2 = choose|f2: int| 0 <= f2 < b.len() && b[f2] == a[f];
                    assert(owner(services, b[f2].canonical, root) == Some(i));
                }
                if exists|f: int|
                    0 <= f < b.len() && owner(services, (#[trigger] b[f]).canonical, root)
                        == Some(i) {
                    let f = choose|f: int|
                        0 <= f < b.len() && owner(services, (#[trigger] b[f]).canonical, root)
                            == Some(i);
                    assert(a.contains(b[f]));
                    let f2 = choose|f2: int| 0 <= f2 < a.len() && a[f2] == b[f];
                    assert(owner(services, a[f2].canonical, root) == Some(i));
                }
            }
        }
        assert(owned_a =~= owned_b);
        assert(after_round(services, owned_a, a, false) =~= after_round(
            services,
            owned_a,
            b,
            false,
        ));
        lemma_newly_same(services, owned_a, a, b, false, services.len() as int);
    }
}

/// Two causes are of one kind: both are absent, or both are there and
/// of the same variant.
pub open spec fn same_kind(x: Option<Cause>, y: Option<Cause>) -> bool {
    match (x, y) {
        (None, None) => true,
        (Some(Cause::FileChange), Some(Cause::FileChange)) => true,
        (Some(Cause::Dependency(_, _)), Some(Cause::Dependency(_, _))) => true,
        (Some(Cause::PeerDependency(_, _)), Some(Cause::PeerDependency(_, _))) => true,
        (Some(Cause::GlobalDependency), Some(Cause::GlobalDependency)) => true,
        _ => false,
    }
}

/// `a` and `b` hold the same paths, in whatever order and number.
pub open spec fn same_paths(a: Seq<PathView>, b: Seq<PathView>) -> bool {
    &&& forall|f: int| 0 <= f < a.len() ==> b.contains(#[trigger] a[f])
    &&& forall|f: int| 0 <= f < b.len() ==> a.contains(#[trigger] b[f])
}

/// What `first_source` finds is a source that `s` depends on, and `s`
/// depends on none at or after `from` and before it.
proof fn lemma_first_source(s: Service, sources: Seq<PathView>, from: int)
    requires
        0 <= from <= sources.len(),
    ensures
        from <= first_source(s, sources, from) <= sources.len(),
        first_source(s, sources, from) < sources.len() ==> depends_on(
            s,
            sources[first_source(s, sources, from)].canonical,
        ),
        forall|k: int|
            from <= k < first_source(s, sources, from) ==> !depends_on(
                s,
                (#[trigger] sources[k]).canonical,
            ),
    decreases sources.len() - from,
{
    if from < sources.len() && !depends_on(s, sources[from].canonical) {
        lemma_first_source(s, sources, from + 1);
    }
}

/// Sources that hold the same paths give a service a cause of one kind.
proof fn lemma_cause_same_kind(s: Service, a: Seq<PathView>, b: Seq<PathView>, peer: bool)
    requires
        same_paths(a, b),
    ensures
        same_kind(dependency_cause(s, a, peer), dependency_cause(s, b, peer)),
{
    lemma_first_source(s, a, 0);
    lemma_first_source(s, b, 0);
    let ka = first_source(s, a, 0);
    let kb = first_source(s, b, 0);
    if ka < a.len() && kb >= b.len() {
        assert(b.contains(a[ka]));
        let f = choose|f: int| 0 <= f < b.len() && b[f] == a[ka];
        assert(!depends_on(s, b[f].canonical));
    }
    if kb < b.len() && ka >= a.len() {
        assert(a.contains(b[kb]));
        let f = choose|f: int| 0 <= f < a.len() && a[f] == b[kb];
        assert(!depends_on(s, a[f].canonical));
    }
}

/// Rounds on causes of one kind, with sources that hold the same paths,
/// name the same services.
proof fn lemma_newly_alike(
    services: Seq<Service>,
    x: Seq<Option<Cause>>,
    y: Seq<Option<Cause>>,
    a: Seq<PathView>,
    b: Seq<PathView>,
    peer: bool,
    upto: int,
)
    requires
        0 <= upto <= services.len(),
        x.len() == services.len(),
        y.len() == services.len(),
        same_paths(a, b),
        forall|i: int| 0 <= i < services.len() ==> same_kind(#[trigger] x[i], y[i]),
    ensures
        newly_triggered(services, x, a, peer, upto) == newly_triggered(
            services,
            y,
            b,
            peer,
            upto,
        ),
    decreases upto,
{
    if upto > 0 {
        lemma_newly_alike(services, x, y, a, b, peer, upto - 1);
        lemma_cause_same_kind(services[upto - 1], a, b, peer);
        assert(same_kind(x[upto - 1], y[upto - 1]));
    }
}

/// Following services to their dependents from causes of one kind,
/// with sources that hold the same paths, ends in causes of one kind.
proof fn lemma_propagated_alike(
    services: Seq<Service>,
    x: Seq<Option<Cause>>,
    y: Seq<Option<Cause>>,
    a: Seq<PathView>,
    b: Seq<PathView>,
)
    requires
        x.len() == services.len(),
        y.len() == services.len(),
        same_paths(a, b),
        forall|i: int| 0 <= i < services.len() ==> same_kind(#[trigger] x[i], y[i]),
    ensures
        forall|i: int|
            0 <= i < services.len() ==> same_kind(
                #[trigger] propagated(services, x, a)[i],
                propagated(services, y, b)[i],
            ),
    decreases untriggered(x),
{
    let n = services.len() as int;
    let newly = newly_triggered(services, x, a, true, n);
    lemma_newly_alike(services, x, y, a, b, true, n);
    if newly.len() > 0 {
        let next_x = after_round(services, x, a, true);
        let next_y = after_round(services, y, b, true);
        lemma_round_progress(services, x, a, true);
        lemma_round_progress(services, y, b, true);
        assert forall|i: int| 0 <= i < services.len() implies same_kind(
            #[trigger] next_x[i],
            next_y[i],
        ) by {
            assert(same_kind(x[i], y[i]));
            lemma_cause_same_kind(services[i], a, b, true);
        }
        lemma_propagated_alike(services, next_x, next_y, newly, newly);
        assert(propagated(services, x, a) == propagated(services, next_x, newly));
        assert(propagated(services, y, b) == propagated(services, next_y, newly));
        assert forall|i: int| 0 <= i < services.len() implies same_kind(
            #[trigger] propagated(services, x, a)[i],
            propagated(services, y, b)[i],
        ) by {
            assert(same_kind(
                propagated(services, next_x, newly)[i],
                propagated(services, next_y, newly)[i],
            ));
        }
    } else {
        assert(propagated(services, x, a) == x);
        assert(propagated(services, y, b) == y);
    }
}

/// The owner of each of the first `upto` changed files is among the
/// owners of those files.
proof fn lemma_owner_listed(
    services: Seq<Service>,
    changed: Seq<PathView>,
    root: Seq<char>,
    upto: int,
    f: int,
)
    requires
        0 <= f < upto,
        owner(services, changed[f].canonical, root) is Some,
    ensures
        owners_of(services, changed, root, upto).contains(
            services[owner(services, changed[f].canonical, root)->0].path@,
        ),
    decreases upto,
{
    let earlier = owners_of(services, changed, root, upto - 1);
    let all = owners_of(services, changed, root, upto);
    if f == upto - 1 {
        assert(all.last() == services[owner(services, changed[f].canonical, root)->0].path@);
    } else {
        lemma_owner_listed(services, changed, root, upto - 1, f);
        let k = choose|k: int|
            0 <= k < earlier.len() && earlier[k] == services[owner(
                services,
                changed[f].canonical,
                root,
            )->0].path@;
        assert(all[k] == earlier[k]);
    }
}

/// Each of the owners of the first `upto` changed files owns one of them.
proof fn lemma_listed_owner(
    services: Seq<Service>,
    changed: Seq<PathView>,
    root: Seq<char>,
    upto: int,
    k: int,
) -> (f: int)
    requires
        0 <= k < owners_of(services, changed, root, upto).len(),
    ensures
        0 <= f < upto,
        owner(services, changed[f].canonical, root) is Some,
        owners_of(services, changed, root, upto)[k] == services[owner(
            services,
            changed[f].canonical,
            root,
        )->0].path@,
    decreases upto,
{
    let earlier = owners_of(services, changed, root, upto - 1);
    if k < earlier.len() {
        lemma_listed_owner(services, changed, root, upto - 1, k)
    } else {
        upto - 1
    }
}

/// Changed files that hold the same paths have the same owners.
proof fn lemma_owners_alike(
    services: Seq<Service>,
    a: Seq<PathView>,
    b: Seq<PathView>,
    root: Seq<char>,
)
    requires
        forall|f: int| 0 <= f < a.len() ==> b.contains(#[trigger] a[f]),
    ensures
        forall|k: int|
            0 <= k < owners_of(services, a, root, a.len() as int).len() ==> owners_of(
                services,
                b,
                root,
                b.len() as int,
            ).contains(#[trigger] owners_of(services, a, root, a.len() as int)[k]),
{
    let owners_a = owners_of(services, a, root, a.len() as int);
    let owners_b = owners_of(services, b, root, b.len() as int);
    assert forall|k: int| 0 <= k < owners_a.len() implies owners_b.contains(
        #[trigger] owners_a[k],
    ) by {
        let f = lemma_listed_owner(services, a, root, a.len() as int, k);
        assert(b.contains(a[f]));
        let f2 = choose|f2: int| 0 <= f2 < b.len() && b[f2] == a[f];
        lemma_owner_listed(services, b, root, b.len() as int, f2);
    }
}

/// The outcome is stable under every reordering of the changed files:
/// where `a` and `b` hold the same paths, each service has for `b` a
/// cause of the kind that it has for `a`, or none for either; and where
/// no global pattern applies, a service that came without a cause and
/// owns one of the files has `FileChange` for both.
pub proof fn lemma_reordering_keeps_kinds(
    services: Seq<Service>,
    before: Seq<Option<Cause>>,
    a: Seq<PathView>,
    b: Seq<PathView>,
    globals: Seq<PatternView>,
    root: Seq<char>,
)
    requires
        before.len() == services.len(),
        same_paths(a, b),
    ensures
        forall|i: int|
            0 <= i < services.len() ==> same_kind(
                #[trigger] resolution(services, before, a, globals, root)[i],
                resolution(services, before, b, globals, root)[i],
            ),
        forall|i: int, f: int|
            0 <= i < services.len() && 0 <= f < a.len() && !global_hit(globals, a)
                && (#[trigger] before[i]) is None && owner(
                services,
                (#[trigger] a[f]).canonical,
                root,
            ) == Some(i) ==> resolution(services, before, a, globals, root)[i] == Some(
                Cause::FileChange,
            ) && resolution(services, before, b, globals, root)[i] == Some(Cause::FileChange),
{
    let n = services.len() as int;
    assert(global_hit(globals, a) == global_hit(globals, b)) by {
        if global_hit(globals, a) {
            let (g, f) = choose|g: int, f: int|
                0 <= g < globals.len() && 0 <= f < a.len() && (#[trigger] globals[g]).matches(
                    (#[trigger] a[f]).canonical,
                );
            assert(b.contains(a[f]));
            let f2 = choose|f2: int| 0 <= f2 < b.len() && b[f2] == a[f];
            assert(globals[g].matches(b[f2].canonical));
        }
        if global_hit(globals, b) {
            let (g, f) = choose|g: int, f: int|
                0 <= g < globals.len() && 0 <= f < b.len() && (#[trigger] globals[g]).matches(
                    (#[trigger] b[f]).canonical,
                );
            assert(a.contains(b[f]));
            let f2 = choose|f2: int| 0 <= f2 < a.len() && a[f2] == b[f];
            assert(globals[g].matches(a[f2].canonical));
        }
    }
    if !global_hit(globals, a) {
        let owned_a = after_files(services, before, a, root, a.len() as int);
        let owned_b = after_files(services, before, b, root, b.len() as int);
        assert forall|i: int| 0 <= i < services.len() implies owned_a[i] == owned_b[i] by {
            if before[i] is None {
                if exists|f: int|
                    0 <= f < a.len() && owner(services, (#[trigger] a[f]).canonical, root)
                        == Some(i) {
                    let f = choose|f: int|
                        0 <= f < a.len() && owner(services, (#[trigger] a[f]).canonical, root)
                            == Some(i);
                    assert(b.contains(a[f]));
                    let f2 = choose|f2: int| 0 <= f2 < b.len() && b[f2] == a[f];
                    assert(owner(services, b[f2].canonical, root) == Some(i));
                }
                if exists|f: int|
                    0 <= f < b.len() && owner(services, (#[trigger] b[f]).canonical, root)
                        == Some(i) {
                    let f = choose|f: int|
                        0 <= f < b.len() && owner(services, (#[trigger] b[f]).canonical, root)
                            == Some(i);
                    assert(a.contains(b[f]));
                    let f2 = choose|f2: int| 0 <= f2 < a.len() && a[f2] == b[f];
                    assert(owner(services, a[f2].canonical, root) == Some(i));
                }
            }
        }
        assert(owned_a =~= owned_b);
        let direct_a = after_round(services, owned_a, a, false);
        let direct_b = after_round(services, owned_a, b, false);
        assert forall|i: int| 0 <= i < services.len() implies same_kind(
            #[trigger] direct_a[i],
            direct_b[i],
        ) by {
            lemma_cause_same_kind(services[i], a, b, false);
        }
        let named = newly_triggered(services, owned_a, a, false, n);
        assert forall|i: int| 0 <= i < services.len() implies same_kind(
            #[trigger] owned_a[i],
            owned_a[i],
        ) by {}
        lemma_newly_alike(services, owned_a, owned_a, a, b, false, n);
        let owners_a = owners_of(services, a, root, a.len() as int);
        let owners_b = owners_of(services, b, root, b.len() as int);
        lemma_owners_alike(services, a, b, root);
        lemma_owners_alike(services, b, a, root);
        let sources_a = owners_a + named;
        let sources_b = owners_b + named;
        assert forall|f: int| 0 <= f < sources_a.len() implies sources_b.contains(
            #[trigger] sources_a[f],
        ) by {
            if f < owners_a.len() {
                assert(owners_b.contains(owners_a[f]));
                let k = choose|k: int| 0 <= k < owners_b.len() && owners_b[k] == owners_a[f];
                assert(sources_b[k] == sources_a[f]);
            } else {
                assert(sources_b[owners_b.len() + (f - owners_a.len())] == sources_a[f]);
            }
        }
        assert forall|f: int| 0 <= f < sources_b.len() implies sources_a.contains(
            #[trigger] sources_b[f],
        ) by {
            if f < owners_b.len() {
                assert(owners_a.contains(owners_b[f]));
                let k = choose|k: int| 0 <= k < owners_a.len() && owners_a[k] == owners_b[f];
                assert(sources_a[k] == sources_b[f]);
            } else {
                assert(sources_a[owners_a.len() + (f - owners_b.len())] == sources_b[f]);
            }
        }
        lemma_propagated_alike(services, direct_a, direct_b, sources_a, sources_b);
        lemma_propagated_keeps(services, direct_a, sources_a);
        lemma_propagated_keeps(services, direct_b, sources_b);
        assert forall|i: int, f: int|
            0 <= i < services.len() && 0 <= f < a.len() && (#[trigger] before[i]) is None
                && owner(services, (#[trigger] a[f]).canonical, root) == Some(
                i,
            ) implies resolution(services, before, a, globals, root)[i] == Some(
            Cause::FileChange,
        ) && resolution(services, before, b, globals, root)[i] == Some(Cause::FileChange) by {
            assert(owned_a[i] == Some(Cause::FileChange));
            assert(direct_a[i] == owned_a[i]);
            assert(direct_b[i] == owned_a[i]);
        }
    } else {
        let all = all_marked(before);
        assert forall|i: int| 0 <= i < services.len() implies same_kind(
            #[trigger] all[i],
            all[i],
        ) by {}
    }
}

/// Causes of one kind keep the same services.
proof fn lemma_kept_alike(x: Seq<Option<Cause>>, y: Seq<Option<Cause>>, upto: int)
    requires
        0 <= upto <= x.len(),
        upto <= y.len(),
        forall|i: int| 0 <= i < upto ==> same_kind(#[trigger] x[i], y[i]),
    ensures
        kept(x, upto) == kept(y, upto),
    decreases upto,
{
    if upto > 0 {
        lemma_kept_alike(x, y, upto - 1);
        assert(same_kind(x[upto - 1], y[upto - 1]));
    }
}

/// What is kept are positions among the first `upto`.
proof fn lemma_kept_in_range(causes: Seq<Option<Cause>>, upto: int)
    requires
        0 <= upto <= causes.len(),
    ensures
        forall|k: int|
            0 <= k < kept(causes, upto).len() ==> 0 <= (#[trigger] kept(causes, upto)[k]) < upto,
    decreases upto,
{
    if upto > 0 {
        lemma_kept_in_range(causes, upto - 1);
        let earlier = kept(causes, upto - 1);
        assert forall|k: int| 0 <= k < kept(causes, upto).len() implies 0 <= (#[trigger] kept(
            causes,
            upto,
        )[k]) < upto by {
            if k < earlier.len() {
                assert(kept(causes, upto)[k] == earlier[k]);
            }
        }
    }
}

/// Resolving is stable under every reordering of the changed files.
/// Where no two services stand in one directory and `files_a` and
/// `files_b` hold the same files, the two results
/// hold the same services in the same order, the trigger of each is of
/// the same variant in both, and a service that came without a trigger
/// and owns one of the files has `FileChange` in both, unless a global
/// dependency applies.
pub proof fn lemma_reordering_keeps_result(
    out_a: Seq<Service>,
    out_b: Seq<Service>,
    services: Seq<Service>,
    files_a: Seq<Seq<char>>,
    files_b: Seq<Seq<char>>,
    names: Seq<Seq<char>>,
    root: Seq<char>,
)
    requires
        forall|i: int, j: int|
            0 <= i < j < services.len() ==> (#[trigger] services[i]).path.canonicalized@ != (
            #[trigger] services[j]).path.canonicalized@,
        forall|f: int| 0 <= f < files_a.len() ==> files_b.contains(#[trigger] files_a[f]),
        forall|f: int| 0 <= f < files_b.len() ==> files_a.contains(#[trigger] files_b[f]),
        is_selection(
            out_a,
            services,
            resolution(
                services,
                own_causes(services),
                located_files(files_a, root),
                compiled_views(names, root),
                root,
            ),
        ),
        is_selection(
            out_b,
            services,
            resolution(
                services,
                own_causes(services),
                located_files(files_b, root),
                compiled_views(names, root),
                root,
            ),
        ),
    ensures
        out_a.len() == out_b.len(),
        forall|k: int|
            0 <= k < out_a.len() ==> (#[trigger] out_a[k]).path == out_b[k].path && same_kind(
                cause_of(out_a[k].trigger),
                cause_of(out_b[k].trigger),
            ),
        forall|k: int, i: int, f: int|
            0 <= k < out_a.len() && 0 <= i < services.len() && 0 <= f < files_a.len()
                && !global_hit(compiled_views(names, root), located_files(files_a, root))
                && (#[trigger] out_a[k]).path == (#[trigger] services[i]).path
                && services[i].trigger is None && owner(
                services,
                cleaned(joined(root, #[trigger] files_a[f])),
                root,
            ) == Some(i) ==> cause_of(out_a[k].trigger) == Some(Cause::FileChange) && cause_of(
                out_b[k].trigger,
            ) == Some(Cause::FileChange),
{
    let n = services.len() as int;
    let a = located_files(files_a, root);
    let b = located_files(files_b, root);
    let globals = compiled_views(names, root);
    let before = own_causes(services);
    let causes_a = resolution(services, before, a, globals, root);
    let causes_b = resolution(services, before, b, globals, root);
    assert forall|f: int| 0 <= f < a.len() implies b.contains(#[trigger] a[f]) by {
        assert(files_b.contains(files_a[f]));
        let j = choose|j: int| 0 <= j < files_b.len() && files_b[j] == files_a[f];
        assert(b[j] == a[f]);
    }
    assert forall|f: int| 0 <= f < b.len() implies a.contains(#[trigger] b[f]) by {
        assert(files_a.contains(files_b[f]));
        let j = choose|j: int| 0 <= j < files_a.len() && files_a[j] == files_b[f];
        assert(a[j] == b[f]);
    }
    lemma_set_once(services, before, a, globals, root);
    lemma_set_once(services, before, b, globals, root);
    lemma_reordering_keeps_kinds(services, before, a, b, globals, root);
    lemma_kept_alike(causes_a, causes_b, n);
    lemma_kept_in_range(causes_a, n);
    let positions = kept(causes_a, n);
    assert forall|k: int| 0 <= k < out_a.len() implies (#[trigger] out_a[k]).path
        == out_b[k].path && same_kind(cause_of(out_a[k].trigger), cause_of(out_b[k].trigger)) by {
        let i = positions[k];
        assert(out_b[k].path == services[i].path);
        assert(same_kind(causes_a[i], causes_b[i]));
    }
    assert forall|k: int, i: int, f: int|
        0 <= k < out_a.len() && 0 <= i < services.len() && 0 <= f < files_a.len() && !global_hit(
            globals,
            a,
        ) && (#[trigger] out_a[k]).path == (#[trigger] services[i]).path
            && services[i].trigger is None && owner(
            services,
            cleaned(joined(root, #[trigger] files_a[f])),
            root,
        ) == Some(i) implies cause_of(out_a[k].trigger) == Some(Cause::FileChange) && cause_of(
        out_b[k].trigger,
    ) == Some(Cause::FileChange) by {
        let p = positions[k];
        assert(out_a[k].path == services[p].path);
        assert(out_b[k].path == services[p].path);
        if p < i {
            assert(services[p].path.canonicalized@ != services[i].path.canonicalized@);
        }
        if i < p {
            assert(services[i].path.canonicalized@ != services[p].path.canonicalized@);
        }
        assert(p == i);
        assert(a[f].canonical == cleaned(joined(root, files_a[f])));
        assert(before[i] is None);
        assert(causes_a[i] == Some(Cause::FileChange));
        assert(causes_b[i] == Some(Cause::FileChange));
    }
}

/// Where a global pattern applies to a changed file, the result holds
/// every service, in order, and each one that came without a trigger
/// has `GlobalDependency`.
pub proof fn lemma_global_marks_all(
    out: Seq<Service>,
    services: Seq<Service>,
    changed: Seq<PathView>,
    globals: Seq<PatternView>,
    root: Seq<char>,
)
    requires
        global_hit(globals, changed),
        is_selection(
            out,
            services,
            resolution(services, own_causes(services), changed, globals, root),
        ),
    ensures
        out.len() == services.len(),
        forall|i: int|
            0 <= i < services.len() ==> (#[trigger] out[i]).path == services[i].path && (
            services[i].trigger is None ==> cause_of(out[i].trigger) == Some(
                Cause::GlobalDependency,
            )),
{
    let all = resolution(services, own_causes(services), changed, globals, root);
    lemma_all_kept(all, services.len() as int);
}

/// A dependency among `names` that can be compiled is among the accepted ones.
proof fn lemma_accepted_holds(names: Seq<Seq<char>>, g: int) -> (j: int)
    requires
        0 <= g < names.len(),
        compilable(names[g]),
    ensures
        0 <= j < accepted(names).len(),
        accepted(names)[j] == names[g],
    decreases names.len(),
{
    if g == names.len() - 1 {
        accepted(names).len() - 1
    } else {
        lemma_accepted_holds(names.drop_last(), g)
    }
}

/// Where one of the global dependencies `names` can be compiled and, as
/// compiled for `root`, applies to one of the changed `files` as it is
/// located below `root`, resolving gives every service, in order, and
/// each one that came without a trigger has `GlobalDependency`.
pub proof fn lemma_global_dependency_marks_all(
    out: Seq<Service>,
    services: Seq<Service>,
    files: Seq<Seq<char>>,
    names: Seq<Seq<char>>,
    root: Seq<char>,
)
    requires
        exists|g: int, f: int|
            0 <= g < names.len() && 0 <= f < files.len() && compilable(#[trigger] names[g])
                && compiled_view(names[g], root).matches(
                cleaned(joined(root, #[trigger] files[f])),
            ),
        is_selection(
            out,
            services,
            resolution(
                services,
                own_causes(services),
                located_files(files, root),
                compiled_views(names, root),
                root,
            ),
        ),
    ensures
        out.len() == services.len(),
        forall|i: int|
            0 <= i < services.len() ==> (#[trigger] out[i]).path == services[i].path && (
            services[i].trigger is None ==> cause_of(out[i].trigger) == Some(
                Cause::GlobalDependency,
            )),
{
    let (g, f) = choose|g: int, f: int|
        0 <= g < names.len() && 0 <= f < files.len() && compilable(#[trigger] names[g])
            && compiled_view(names[g], root).matches(cleaned(joined(root, #[trigger] files[f])));
    let j = lemma_accepted_holds(names, g);
    let globals = compiled_views(names, root);
    let changed = located_files(files, root);
    assert(globals[j] == compiled_view(names[g], root));
    assert(changed[f].canonical == cleaned(joined(root, files[f])));
    assert(globals[j].matches(changed[f].canonical));
    lemma_global_marks_all(out, services, changed, globals, root);
}

/// Where each of the first `upto` has a cause, each is kept.
proof fn lemma_all_kept(causes: Seq<Option<Cause>>, upto: int)
    requires
        0 <= upto <= causes.len(),
        forall|i: int| 0 <= i < upto ==> (#[trigger] causes[i]) is Some,
    ensures
        kept(causes, upto) == Seq::new(upto as nat, |i: int| i),
    decreases upto,
{
    if upto > 0 {
        lemma_all_kept(causes, upto - 1);
    }
    assert(kept(causes, upto) =~= Seq::new(upto as nat, |i: int| i));
}

/// No service of the result is the root of the repository, where none
/// of the services is: the result holds only services that came in,
/// each under its own path.
pub proof fn lemma_result_below_root(
    out: Seq<Service>,
    services: Seq<Service>,
    causes: Seq<Option<Cause>>,
    root: Seq<char>,
)
    requires
        is_selection(out, services, causes),
        forall|i: int|
            0 <= i < services.len() ==> (#[trigger] services[i]).path.canonicalized@ != root,
    ensures
        forall|k: int|
            0 <= k < out.len() ==> (#[trigger] out[k]).path.canonicalized@ != root && exists|
                i: int,
            |
                0 <= i < services.len() && (#[trigger] services[i]).path == out[k].path,
{
    let positions = kept(causes, services.len() as int);
    assert forall|k: int| 0 <= k < out.len() implies (#[trigger] out[k]).path.canonicalized@
        != root && exists|i: int|
        0 <= i < services.len() && (#[trigger] services[i]).path == out[k].path by {
        let i = positions[k];
        assert(services[i].path == out[k].path);
    }
}

} // verus!
