//! Makefiles: the files that a Makefile includes.

use crate::config::{
    literal_from, literal_view, regex_compiles, regex_is_match, regex_matches, regex_valid,
    DepPattern, PatternError, PatternView,
};
use crate::text::{
    from_chars, has_prefix, lemma_split_nonempty, split, split_chars, starts_with, str_eq, to_chars,
};
use crate::files::FileTree;
use crate::path::is_absolute;
use crate::service::finder::{follow_all, is_outcome, references_of_files, LineRule, RuleView};
use crate::service::AnalyzerError;
use vstd::prelude::*;

verus! {

/// The analyzer for Makefiles.
#[derive(Debug)]
pub struct MakefileAnalyzer {
    /// The regular expression that finds a reference to a make variable.
    pub variable_rgx: String,
}

/// The regular expression that finds a reference to a make variable,
/// such as `$(ROOT)`.
pub open spec fn variable_pattern() -> Seq<char> {
    "\\$\\([^)]+\\)"@
}

/// Whether `token` holds a reference to a make variable.
pub open spec fn has_variable(variable: Seq<char>, token: Seq<char>) -> bool {
    regex_valid(variable) && regex_matches(variable, token)
}

/// The words after the first among the first `upto` of `tokens` that
/// hold no reference to a make variable, in order.
pub open spec fn included(tokens: Seq<Seq<char>>, variable: Seq<char>, upto: int) -> Seq<Seq<char>>
    decreases upto,
{
    if upto <= 1 {
        Seq::<Seq<char>>::empty()
    } else if has_variable(variable, tokens[upto - 1]) {
        included(tokens, variable, upto - 1)
    } else {
        included(tokens, variable, upto - 1).push(tokens[upto - 1])
    }
}

/// The paths that a line of a Makefile includes: where the line begins
/// with `include`, what stands between the single spaces after the first
/// word, but for what holds a reference to a make variable.
pub open spec fn included_paths(line: Seq<char>, variable: Seq<char>) -> Seq<Seq<char>> {
    if has_prefix(line, "include"@) {
        included(split(line, ' '), variable, split(line, ' ').len() as int)
    } else {
        Seq::<Seq<char>>::empty()
    }
}

/// The files that a line of a Makefile in the absolute `dir` refers to.
pub open spec fn makefile_references(
    line: Seq<char>,
    dir: Seq<char>,
    variable: Seq<char>,
) -> Seq<PatternView> {
    included_paths(line, variable).map_values(|path: Seq<char>| literal_view(path, dir))
}

impl MakefileAnalyzer {
    /// The analyzer, where the regular expression for make variables compiles.
    pub fn new() -> (r: Result<MakefileAnalyzer, PatternError>)
        ensures
            r is Ok <==> regex_valid(variable_pattern()),
            r is Ok ==> r->Ok_0.variable_rgx@ == variable_pattern(),
            r is Err ==> r == Err::<MakefileAnalyzer, PatternError>(PatternError::InvalidPattern),
    {
        let source = "\\$\\([^)]+\\)";
        if regex_compiles(source) {
            Ok(MakefileAnalyzer { variable_rgx: source.to_owned() })
        } else {
            Err(PatternError::InvalidPattern)
        }
    }

    /// Whether the analyzer reads a file of this name, given in lower case.
    pub fn file_relevant(&self, file_name: &str) -> (r: bool)
        ensures
            r == (file_name@ == "makefile"@),
    {
        str_eq(file_name, "makefile")
    }

    /// The dependencies that the Makefiles `files` of a service show:
    /// what each of them includes, followed from file to file. Fails
    /// where a file that is referred to cannot be read.
    pub fn dependencies(&self, tree: &FileTree, files: &Vec<usize>) -> (r: Result<
        Vec<DepPattern>,
        AnalyzerError,
    >)
        requires
            forall|k: int|
                0 <= k < files@.len() ==> (#[trigger] files@[k]) < tree.entries@.len()
                    && is_absolute(tree.entries@[files@[k] as int].path@),
        ensures
            is_outcome(
                r,
                references_of_files(
                    *tree,
                    RuleView::Makefile(self.variable_rgx@),
                    files@,
                    files@.len() as int,
                ),
            ),
    {
        follow_all(tree, &LineRule::Makefile(self), files)
    }

    /// The files that a line of a Makefile in `dir` includes, each as a
    /// literal pattern declared for `dir`.
    pub fn extract_from_line(&self, line: &str, dir: &str) -> (r: Vec<DepPattern>)
        ensures
            r@.len() == included_paths(line@, self.variable_rgx@).len(),
            forall|k: int|
                0 <= k < r@.len() ==> literal_from(
                    #[trigger] r@[k],
                    included_paths(line@, self.variable_rgx@)[k],
                    dir@,
                ),
    {
        let mut out: Vec<DepPattern> = Vec::new();
        let chars = to_chars(line);
        if !starts_with(&chars, &to_chars("include")) {
            return out;
        }
        let tokens = split_chars(&chars, ' ');
        let ghost words = split(line@, ' ');
        let ghost variable = self.variable_rgx@;
        let mut i: usize = 1;
        while i < tokens.len()
            invariant
                1 <= i,
                i <= tokens.len() || (tokens.len() == 0 && i == 1),
                words == split(line@, ' '),
                variable == self.variable_rgx@,
                tokens@.len() == words.len(),
                forall|k: int| 0 <= k < tokens@.len() ==> tokens@[k]@ == #[trigger] words[k],
                out@.len() == included(words, variable, i as int).len(),
                forall|k: int|
                    0 <= k < out@.len() ==> literal_from(
                        #[trigger] out@[k],
                        included(words, variable, i as int)[k],
                        dir@,
                    ),
            decreases tokens.len() - i,
        {
            let token = from_chars(&tokens[i]);
            assert(token@ == words[i as int]);
            if !regex_is_match(self.variable_rgx.as_str(), token.as_str()) {
                out.push(DepPattern::literal(token.as_str(), dir));
            }
            i = i + 1;
        }
        proof {
            if tokens.len() == 0 {
                lemma_split_nonempty(line@, ' ');
            }
        }
        out
    }
}

} // verus!
