//! The manifest parser: from the text of a manifest to its validated
//! processes and global environment.

pub mod ast;
pub mod command;
pub mod declaration;
pub mod items;
pub mod laws;
pub mod number;
pub mod options;
pub mod stability;
pub mod tokenizer;
pub mod trim;
pub mod validate;

use vstd::prelude::*;
use crate::deps::acyclic;
use crate::parser::ast::{processes_view, EnvMap, ProcessDef, ProcessModel, Procfile};
use crate::parser::declaration::{declaration_of, parse_declaration};
use crate::parser::items::{
    items_of, items_view, line_number, line_of, parse_procfile, ItemModel, ProcfileItem,
    SyntaxErrorKind,
};
use crate::parser::options::{ErrorModel, ParseError};
use crate::parser::validate::{
    check_circular_deps, check_duplicate_names, dep_graph, dependency_fault, distinct,
    duplicate_error, proc_names, resolves,
};
use crate::text::{chars_of, string_of};

verus! {

/// What is reported for each kind of syntax error.
pub open spec fn syntax_message(kind: SyntaxErrorKind) -> Seq<char> {
    match kind {
        SyntaxErrorKind::UnterminatedQuote => "unterminated quoted string"@,
        SyntaxErrorKind::EmptyDeclaration => "missing process name before ':'"@,
        SyntaxErrorKind::MissingColon => "missing ':' separator"@,
        SyntaxErrorKind::UnexpectedCharacter => "unexpected character"@,
    }
}

/// The environment and the processes that the items from `i` on add to `env`
/// and `procs`, or the error of the first declaration that is refused.
pub open spec fn collected_from(
    items: Seq<ItemModel>,
    i: int,
    env: Map<Seq<char>, Seq<char>>,
    procs: Seq<ProcessModel>,
) -> Result<(Map<Seq<char>, Seq<char>>, Seq<ProcessModel>), ErrorModel>
    decreases items.len() - i,
{
    if i < 0 || i >= items.len() {
        Ok((env, procs))
    } else {
        match items[i] {
            ItemModel::GlobalEnv { key, value } => collected_from(
                items,
                i + 1,
                env.insert(key, value),
                procs,
            ),
            ItemModel::Process { tokens, command, line } => match declaration_of(
                tokens,
                command,
                line,
            ) {
                Err(e) => Err(e),
                Ok(p) => collected_from(items, i + 1, env, procs.push(p)),
            },
        }
    }
}

/// The environment and the processes that the manifest `s` declares, before
/// they are validated against each other; or its first error, with the line
/// on which it stands.
pub open spec fn lowered(s: Seq<char>) -> Result<
    (Map<Seq<char>, Seq<char>>, Seq<ProcessModel>),
    ErrorModel,
> {
    match items_of(s) {
        Err((kind, pos)) => Err(
            ErrorModel { line: line_of(s, pos), message: syntax_message(kind) },
        ),
        Ok(items) => collected_from(items, 0, Map::empty(), Seq::empty()),
    }
}

/// Whether the processes fit together: no name twice, every dependency a
/// process of the manifest, no cycle among the dependencies.
pub open spec fn valid_manifest(procs: Seq<ProcessModel>) -> bool {
    distinct(proc_names(procs)) && resolves(procs) && acyclic(dep_graph(procs))
}

/// Whether `message` reports what keeps `procs` from fitting together: the
/// first name that repeats an earlier one; else the first dependency that
/// names no process; else a cycle among the dependencies.
pub open spec fn validation_fault(procs: Seq<ProcessModel>, message: Seq<char>) -> bool {
    if !distinct(proc_names(procs)) {
        message == duplicate_error(proc_names(procs)).message
    } else {
        dependency_fault(procs, message)
    }
}

/// Parses a manifest.
///
/// Succeeds exactly where every line is an item, every declaration is
/// accepted and the processes fit together, and then gives the environment
/// and the processes in document order. An error of a line carries its line
/// number; an error of validation carries line 0.
pub fn parse(input: &str) -> (r: Result<Procfile, ParseError>)
    ensures
        match r {
            Ok(p) => lowered(input@) == Ok::<
                (Map<Seq<char>, Seq<char>>, Seq<ProcessModel>),
                ErrorModel,
            >((p@.global_env, p@.processes)) && valid_manifest(p@.processes),
            Err(e) => match lowered(input@) {
                Err(f) => e@ == f,
                Ok((env, procs)) => !valid_manifest(procs) && e.line == 0 && validation_fault(
                    procs,
                    e.message@,
                ),
            },
        },
{
    let s = chars_of(input);
    let items = match parse_procfile(&s) {
        Ok(items) => items,
        Err(e) => {
            let text = match e.kind {
                SyntaxErrorKind::UnterminatedQuote => chars_of("unterminated quoted string"),
                SyntaxErrorKind::EmptyDeclaration => chars_of("missing process name before ':'"),
                SyntaxErrorKind::MissingColon => chars_of("missing ':' separator"),
                SyntaxErrorKind::UnexpectedCharacter => chars_of("unexpected character"),
            };
            return Err(ParseError { line: line_number(&s, e.pos), message: string_of(&text) });
        },
    };
    let ghost models = items_view(items@);
    let mut global_env = EnvMap::new();
    let mut processes: Vec<ProcessDef> = Vec::new();
    let mut i: usize = 0;
    assert(processes_view(processes@) =~= Seq::empty());
    while i < items.len()
        invariant
            i <= items@.len(),
            models == items_view(items@),
            lowered(input@) == collected_from(
                models,
                i as int,
                global_env@,
                processes_view(processes@),
            ),
        decreases items@.len() - i,
    {
        assert(models[i as int] == items@[i as int]@);
        match &items[i] {
            ProcfileItem::GlobalEnv { key, value } => {
                global_env.insert(key.clone(), value.clone());
            },
            ProcfileItem::Process(line) => {
                match parse_declaration(&line.declaration_tokens, line.command.as_str(), line.line) {
                    Ok(p) => {
                        let ghost before = processes_view(processes@);
                        let ghost model = p@;
                        processes.push(p);
                        assert(processes_view(processes@) =~= before.push(model));
                    },
                    Err(e) => {
                        return Err(e);
                    },
                }
            },
        }
        i += 1;
    }
    match check_duplicate_names(&processes) {
        Ok(_) => {},
        Err(e) => {
            return Err(e);
        },
    }
    match check_circular_deps(&processes) {
        Ok(_) => {},
        Err(e) => {
            return Err(e);
        },
    }
    Ok(Procfile { global_env, processes })
}

} // verus!
