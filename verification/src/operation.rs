//! The two operations: which services must be built, and what one
//! service depends on.

use crate::cli::Opts;
use crate::config::compiled_views;
use crate::dependency::{
    ignored_files, is_selection, lemma_result_below_root, located_files, own_causes, resolution,
    resolve_files, unowned_files,
};
use crate::discovery::{
    determined, determined_diagnostics, diagnostic_views, discovery, discovery_diagnostics,
    service_views, Diagnostic, DiagnosticView, DiscoverError,
};
use crate::files::FileTree;
use crate::output::{validation, validation_text};
use crate::path::is_absolute;
use crate::service::Service;
use crate::utils::views;
use vstd::prelude::*;

verus! {

/// Whether `out` are the services that must be built when
/// `changed_files` have changed: those among the discovered `services`
/// that have a cause, each with its cause.
pub open spec fn is_impact(
    out: Seq<Service>,
    services: Seq<Service>,
    changed_files: Seq<String>,
    opts: Opts,
) -> bool {
    let root = opts.target.canonicalized@;
    is_selection(
        out,
        services,
        resolution(
            services,
            own_causes(services),
            located_files(views(changed_files), root),
            compiled_views(views(opts.config.global_dependencies@), root),
            root,
        ),
    )
}

/// The outcome of the operation that determines what must be built.
#[derive(Debug)]
pub struct Impact {
    /// The services that must be built.
    pub services: Vec<Service>,
    /// What was passed over while the services were discovered.
    pub diagnostics: Vec<Diagnostic>,
    /// The changed files that no service owns, as written.
    pub unowned: Vec<String>,
}

/// The services that must be built. The services of the repository are
/// discovered among the files `tree`; where `opts` asks for all of them
/// they are returned as they are, otherwise those that the changed files
/// give a cause to, each with its cause. With them comes what was passed
/// over during discovery and, unless all services are asked for, the
/// changed files that no service owns. Fails where the marker of a
/// service cannot be loaded. No service that is returned stands for the
/// root of the repository, and unless all are asked for each has a
/// trigger.
pub fn dependencies(tree: &FileTree, changed_files: Vec<String>, opts: &Opts) -> (r: Result<
    Impact,
    DiscoverError,
>)
    requires
        is_absolute(opts.target.canonicalized@),
    ensures
        match discovery(*tree, *opts) {
            Err(e) => r == Err::<Impact, DiscoverError>(e),
            Ok(all) => r is Ok && diagnostic_views(r->Ok_0.diagnostics@) == discovery_diagnostics(
                *tree,
                *opts,
            ) && if opts.all {
                service_views(r->Ok_0.services@) == all && r->Ok_0.unowned@.len() == 0
            } else {
                exists|services: Seq<Service>|
                    service_views(services) == all && #[trigger] is_impact(
                        r->Ok_0.services@,
                        services,
                        changed_files@,
                        *opts,
                    ) && views(r->Ok_0.unowned@) == ignored_files(
                        services,
                        views(changed_files@),
                        *opts,
                    )
            },
        },
        r is Ok ==> forall|k: int|
            0 <= k < r->Ok_0.services@.len() ==> (
            #[trigger] r->Ok_0.services@[k]).path.canonicalized@ != opts.target.canonicalized@,
        r is Ok && !opts.all ==> forall|k: int|
            0 <= k < r->Ok_0.services@.len() ==> (#[trigger] r->Ok_0.services@[k]).trigger is Some,
{
    let mut diagnostics: Vec<Diagnostic> = Vec::new();
    assert(diagnostic_views(diagnostics@) =~= Seq::<DiagnosticView>::empty());
    let services = match Service::discover_reporting(tree, opts, &mut diagnostics) {
        Ok(services) => services,
        Err(e) => {
            return Err(e);
        },
    };
    assert(diagnostic_views(diagnostics@) =~= discovery_diagnostics(*tree, *opts));
    if opts.all {
        return Ok(Impact { services, diagnostics, unowned: Vec::new() });
    }
    let ghost found = services@;
    let unowned = unowned_files(&services, &changed_files, opts);
    let out = resolve_files(services, changed_files, opts);
    proof {
        assert(is_impact(out@, found, changed_files@, *opts));
        let root = opts.target.canonicalized@;
        lemma_result_below_root(
            out@,
            found,
            resolution(
                found,
                own_causes(found),
                located_files(views(changed_files@), root),
                compiled_views(views(opts.config.global_dependencies@), root),
                root,
            ),
            root,
        );
    }
    Ok(Impact { services: out, diagnostics, unowned })
}

/// The outcome of the operation that shows what one service depends on.
#[derive(Debug)]
pub struct Validation {
    /// The declared and the discovered dependencies of the service, as text.
    pub text: String,
    /// What was passed over while the service was determined.
    pub diagnostics: Vec<Diagnostic>,
}

/// What is shown of the service at `service_path`: its declared and its
/// discovered dependencies, and with them what was passed over while the
/// service was determined. Fails where no marker stands at the path or
/// in the directory, and where the marker cannot be loaded.
pub fn validate(service_path: &str, tree: &FileTree, opts: &Opts) -> (r: Result<
    Validation,
    DiscoverError,
>)
    requires
        is_absolute(opts.target.canonicalized@),
    ensures
        match determined(*tree, *opts, service_path@) {
            Err(e) => r == Err::<Validation, DiscoverError>(e),
            Ok(view) => r is Ok && diagnostic_views(r->Ok_0.diagnostics@) == determined_diagnostics(
                *tree,
                *opts,
                service_path@,
            ) && exists|service: Service|
                service@ == view && r->Ok_0.text@ == #[trigger] validation_text(service),
        },
{
    let mut diagnostics: Vec<Diagnostic> = Vec::new();
    assert(diagnostic_views(diagnostics@) =~= Seq::<DiagnosticView>::empty());
    match Service::try_determine_reporting(service_path, tree, opts, &mut diagnostics) {
        Ok(service) => {
            let text = validation(&service);
            assert(diagnostic_views(diagnostics@) =~= determined_diagnostics(
                *tree,
                *opts,
                service_path@,
            ));
            assert(service@ == determined(*tree, *opts, service_path@)->Ok_0 && text@
                == validation_text(service));
            Ok(Validation { text, diagnostics })
        },
        Err(e) => Err(e),
    }
}

} // verus!
