//! The result as text: one path for each service, plain, as JSON or as YAML.

use crate::cli::{Opts, OutputFormat};
use crate::path::relative;
use crate::config::DepPattern;
use crate::service::{auto_text, cause_of, AutoDependency, Service};
use crate::text::{from_chars, lines_of, split_lines, to_chars};
use crate::utils::{lemma_views_push, views};
use vstd::prelude::*;
use vstd::string::StringExecFns;

verus! {

/// The JSON array of strings that `serde_json::to_string` writes for `items`.
pub uninterp spec fn json_text(items: Seq<Seq<char>>) -> Seq<char>;

/// The YAML document that `yaml_rust::YamlEmitter::dump` writes for the
/// sequence of the strings `items`, with the line that starts the document.
pub uninterp spec fn yaml_text(items: Seq<Seq<char>>) -> Seq<char>;

/// Calls `serde_json::to_string` on the list of strings, which writes a
/// JSON array of strings and cannot fail for such a list.
#[verifier::external_body]
fn to_json(items: &Vec<String>) -> (r: String)
    ensures
        r@ == json_text(views(items@)),
{
    serde_json::to_string(items).unwrap_or_default()
}

/// Builds a `yaml_rust::Yaml::Array` of `Yaml::String` from the list
/// and calls `yaml_rust::YamlEmitter::dump` on it.
#[verifier::external_body]
fn to_yaml(items: &Vec<String>) -> (r: String)
    ensures
        r@ == yaml_text(views(items@)),
{
    let mut out = String::new();
    let document = yaml_rust::Yaml::Array(
        items.iter().map(|item| yaml_rust::Yaml::String(item.clone())).collect(),
    );
    let _ = yaml_rust::YamlEmitter::new(&mut out).dump(&document);
    out
}

/// The path under which a service is reported: as seen from the target
/// where relative paths are asked for, else its canonical path.
pub open spec fn location_of(service: Service, opts: Opts) -> Seq<char> {
    if opts.relative {
        relative(service.path.canonicalized@, opts.target.canonicalized@)
    } else {
        service.path.canonicalized@
    }
}

/// The paths under which the first `upto` services are reported.
pub open spec fn locations_of(services: Seq<Service>, opts: Opts, upto: int) -> Seq<Seq<char>>
    decreases upto,
{
    if upto <= 0 {
        Seq::<Seq<char>>::empty()
    } else {
        locations_of(services, opts, upto - 1).push(location_of(services[upto - 1], opts))
    }
}

/// The line of a service in the plain format: its path and, where the
/// output is verbose, its trigger in square brackets.
pub open spec fn plain_line(service: Service, opts: Opts) -> Seq<char> {
    if opts.verbose {
        location_of(service, opts) + " ["@ + (match cause_of(service.trigger) {
            Some(cause) => cause.text(),
            None => Seq::<char>::empty(),
        }) + "]\n"@
    } else {
        location_of(service, opts) + "\n"@
    }
}

/// The first `upto` services in the plain format, one line each.
pub open spec fn plain_text(services: Seq<Service>, opts: Opts, upto: int) -> Seq<char>
    decreases upto,
{
    if upto <= 0 {
        Seq::<char>::empty()
    } else {
        plain_text(services, opts, upto - 1) + plain_line(services[upto - 1], opts)
    }
}

/// The first `upto` of `lines` after the first, each ended by a line feed.
pub open spec fn following_lines(lines: Seq<Seq<char>>, upto: int) -> Seq<char>
    decreases upto,
{
    if upto <= 1 {
        Seq::<char>::empty()
    } else {
        following_lines(lines, upto - 1) + lines[upto - 1] + seq!['\n']
    }
}

/// `text` without its first line.
pub open spec fn without_first_line(text: Seq<char>) -> Seq<char> {
    following_lines(lines_of(text), lines_of(text).len() as int)
}

/// The services as text in the format that `opts` asks for: one line
/// for each in the plain format, a JSON array of the paths, or the YAML
/// sequence of the paths without the line that starts the document.
pub open spec fn rendered(services: Seq<Service>, opts: Opts) -> Seq<char> {
    let paths = locations_of(services, opts, services.len() as int);
    match opts.output {
        OutputFormat::Plain => plain_text(services, opts, services.len() as int),
        OutputFormat::Json => json_text(paths),
        OutputFormat::Yaml => without_first_line(yaml_text(paths)),
    }
}

/// The path under which `service` is reported.
pub fn service_loc(service: &Service, opts: &Opts) -> (r: String)
    ensures
        r@ == location_of(*service, *opts),
{
    if opts.relative {
        service.path.relative_to(&opts.target)
    } else {
        service.path.canonicalized.clone()
    }
}

/// The paths under which the services are reported.
pub fn service_locations(services: &Vec<Service>, opts: &Opts) -> (r: Vec<String>)
    ensures
        views(r@) == locations_of(services@, *opts, services@.len() as int),
{
    let mut out: Vec<String> = Vec::new();
    let mut i: usize = 0;
    assert(views(out@) =~= Seq::<Seq<char>>::empty());
    while i < services.len()
        invariant
            i <= services.len(),
            views(out@) == locations_of(services@, *opts, i as int),
        decreases services.len() - i,
    {
        let loc = service_loc(&services[i], opts);
        proof {
            lemma_views_push(out@, loc);
        }
        out.push(loc);
        i = i + 1;
    }
    out
}

/// The services in the plain format: one line for each, with the
/// trigger in square brackets where the output is verbose.
pub fn print_services(services: &Vec<Service>, opts: &Opts) -> (r: String)
    ensures
        r@ == plain_text(services@, *opts, services@.len() as int),
{
    let mut out = String::new();
    let mut i: usize = 0;
    while i < services.len()
        invariant
            i <= services.len(),
            out@ == plain_text(services@, *opts, i as int),
        decreases services.len() - i,
    {
        let svc = &services[i];
        let ghost before = out@;
        let loc = service_loc(svc, opts);
        out.append(loc.as_str());
        if opts.verbose {
            out.append(" [");
            match &svc.trigger {
                Some(trigger) => {
                    let text = trigger.to_text();
                    out.append(text.as_str());
                },
                None => {
                    assert(out@ + Seq::<char>::empty() =~= out@);
                },
            }
            out.append("]\n");
        } else {
            out.append("\n");
        }
        assert(out@ =~= before + plain_line(*svc, *opts));
        i = i + 1;
    }
    out
}

/// `text` without its first line, each remaining line ended by a line feed.
pub fn skip_first_line(text: &str) -> (r: String)
    ensures
        r@ == without_first_line(text@),
{
    let lines = split_lines(&to_chars(text));
    let ghost all = lines_of(text@);
    let mut out: Vec<char> = Vec::new();
    let mut i: usize = 1;
    while i < lines.len()
        invariant
            1 <= i,
            i <= lines.len() || (lines.len() == 0 && i == 1),
            all == lines_of(text@),
            lines@.len() == all.len(),
            forall|k: int| 0 <= k < lines@.len() ==> lines@[k]@ == #[trigger] all[k],
            out@ == following_lines(all, i as int),
        decreases lines.len() - i,
    {
        let ghost before = out@;
        let line = &lines[i];
        let mut k: usize = 0;
        while k < line.len()
            invariant
                k <= line.len(),
                out@ == before + line@.take(k as int),
            decreases line.len() - k,
        {
            out.push(line[k]);
            assert(before + line@.take(k + 1) =~= (before + line@.take(k as int)).push(
                line@[k as int],
            ));
            k = k + 1;
        }
        assert(line@.take(line.len() as int) =~= line@);
        out.push('\n');
        assert(out@ =~= before + all[i as int] + seq!['\n']);
        i = i + 1;
    }
    proof {
        if lines.len() == 0 {
            assert(following_lines(all, 0) =~= following_lines(all, 1));
        }
    }
    from_chars(&out)
}

/// The first `upto` of `items`, each on a line of its own after two
/// spaces and a dash.
pub open spec fn listed(items: Seq<Seq<char>>, upto: int) -> Seq<char>
    decreases upto,
{
    if upto <= 0 {
        Seq::<char>::empty()
    } else {
        listed(items, upto - 1) + "  - "@ + items[upto - 1] + "\n"@
    }
}

/// What is shown of one service: under a heading each, its declared
/// dependencies and its discovered dependencies, as far as it has any.
pub open spec fn validation_text(service: Service) -> Seq<char> {
    let declared = service.depsfile.dependencies@.map_values(|p: DepPattern| p@.text());
    let discovered = service.auto_dependencies@.map_values(|d: AutoDependency| auto_text(d));
    (if declared.len() > 0 {
        "Dependencies (configured):\n"@ + listed(declared, declared.len() as int)
    } else {
        Seq::<char>::empty()
    }) + (if discovered.len() > 0 {
        "Dependencies (auto-discovered):\n"@ + listed(discovered, discovered.len() as int)
    } else {
        Seq::<char>::empty()
    })
}

/// What is shown of one service: its declared and its discovered dependencies.
pub fn validation(service: &Service) -> (r: String)
    ensures
        r@ == validation_text(*service),
{
    let ghost declared = service.depsfile.dependencies@.map_values(|p: DepPattern| p@.text());
    let ghost discovered = service.auto_dependencies@.map_values(
        |d: AutoDependency| auto_text(d),
    );
    let mut out = String::new();
    if service.depsfile.dependencies.len() > 0 {
        out.append("Dependencies (configured):\n");
        let ghost before = out@;
        let mut i: usize = 0;
        assert(before + listed(declared, 0) =~= before);
        while i < service.depsfile.dependencies.len()
            invariant
                i <= service.depsfile.dependencies.len(),
                declared == service.depsfile.dependencies@.map_values(|p: DepPattern| p@.text()),
                out@ == before + listed(declared, i as int),
            decreases service.depsfile.dependencies.len() - i,
        {
            let ghost so_far = listed(declared, i as int);
            let text = service.depsfile.dependencies[i].to_text();
            out.append("  - ");
            out.append(text.as_str());
            out.append("\n");
            assert(out@ =~= before + (so_far + "  - "@ + declared[i as int] + "\n"@));
            i = i + 1;
        }
    }
    let ghost first = out@;
    assert(first =~= first + Seq::<char>::empty());
    if service.auto_dependencies.len() > 0 {
        out.append("Dependencies (auto-discovered):\n");
        let ghost before = out@;
        let mut k: usize = 0;
        assert(before + listed(discovered, 0) =~= before);
        while k < service.auto_dependencies.len()
            invariant
                k <= service.auto_dependencies.len(),
                discovered == service.auto_dependencies@.map_values(
                    |d: AutoDependency| auto_text(d),
                ),
                out@ == before + listed(discovered, k as int),
            decreases service.auto_dependencies.len() - k,
        {
            let ghost so_far = listed(discovered, k as int);
            let text = service.auto_dependencies[k].to_text();
            out.append("  - ");
            out.append(text.as_str());
            out.append("\n");
            assert(out@ =~= before + (so_far + "  - "@ + discovered[k as int] + "\n"@));
            k = k + 1;
        }
        assert(out@ =~= first + ("Dependencies (auto-discovered):\n"@ + listed(
            discovered,
            discovered.len() as int,
        )));
    }
    out
}

/// The services as text, in the format that `opts` asks for.
pub fn output(services: &Vec<Service>, opts: &Opts) -> (r: String)
    ensures
        r@ == rendered(services@, *opts),
{
    match opts.output {
        OutputFormat::Plain => print_services(services, opts),
        OutputFormat::Json => {
            let to_output = service_locations(services, opts);
            to_json(&to_output)
        },
        OutputFormat::Yaml => {
            let to_output = service_locations(services, opts);
            let dump = to_yaml(&to_output);
            skip_first_line(dump.as_str())
        },
    }
}

} // verus!
