//! Validation of the collected processes: unique names, dependencies that
//! resolve, and no dependency cycle.

use vstd::prelude::*;
use crate::deps::{acyclic, dependency_order, is_cycle, links, wf_adj};
use crate::parser::ast::{processes_view, ProcessDef, ProcessModel};
use crate::parser::options::{ErrorModel, ParseError};
use crate::text::append_chars;
use crate::text::{chars_of, same_chars, string_of};

verus! {

/// The names of the processes, in document order.
pub open spec fn proc_names(procs: Seq<ProcessModel>) -> Seq<Seq<char>> {
    Seq::new(procs.len(), |i: int| procs[i].name)
}

/// The index of the first of `names` that equals `x`, or -1 where none does.
pub open spec fn index_of(names: Seq<Seq<char>>, x: Seq<char>) -> int
    decreases names.len(),
{
    if names.len() == 0 {
        -1
    } else if index_of(names.drop_last(), x) >= 0 {
        index_of(names.drop_last(), x)
    } else if names.last() == x {
        names.len() - 1
    } else {
        -1
    }
}

/// `index_of` is the least index that holds `x`, and -1 exactly where no
/// index does.
pub proof fn lemma_index_of(names: Seq<Seq<char>>, x: Seq<char>)
    ensures
        -1 <= index_of(names, x) < names.len(),
        index_of(names, x) >= 0 ==> names[index_of(names, x)] == x,
        forall|j: int|
            0 <= j < names.len() && (index_of(names, x) < 0 || j < index_of(names, x))
                ==> #[trigger] names[j] != x,
    decreases names.len(),
{
    if names.len() > 0 {
        lemma_index_of(names.drop_last(), x);
        assert forall|j: int|
            0 <= j < names.len() && (index_of(names, x) < 0 || j < index_of(names, x))
                implies #[trigger] names[j] != x by {
            if j < names.len() - 1 {
                assert(names.drop_last()[j] == names[j]);
            }
        }
    }
}

/// Whether no two of `names` are equal.
pub open spec fn distinct(names: Seq<Seq<char>>) -> bool {
    forall|i: int, j: int| 0 <= i < j < names.len() ==> names[i] != names[j]
}

/// In a list of distinct names each name is found at its own index.
pub proof fn lemma_index_of_own(names: Seq<Seq<char>>, j: int)
    requires
        distinct(names),
        0 <= j < names.len(),
    ensures
        index_of(names, names[j]) == j,
{
    lemma_index_of(names, names[j]);
    let k = index_of(names, names[j]);
    if k < j {
        assert(names[k] != names[j]);
    }
}

/// The index of the first name that an earlier one equals, from `i` on; -1
/// where there is none.
pub open spec fn first_duplicate_from(names: Seq<Seq<char>>, i: int) -> int
    decreases names.len() - i,
{
    if i < 0 || i >= names.len() {
        -1
    } else if index_of(names.take(i), names[i]) >= 0 {
        i
    } else {
        first_duplicate_from(names, i + 1)
    }
}

/// The index of the first name that repeats an earlier one, or -1.
pub open spec fn first_duplicate(names: Seq<Seq<char>>) -> int {
    first_duplicate_from(names, 0)
}

/// Names are distinct exactly where there is no first duplicate.
pub proof fn lemma_first_duplicate(names: Seq<Seq<char>>, i: int)
    requires
        0 <= i <= names.len(),
        distinct(names.take(i)),
    ensures
        distinct(names) == (first_duplicate_from(names, i) < 0),
        first_duplicate_from(names, i) < names.len(),
        first_duplicate_from(names, i) >= 0 ==> first_duplicate_from(names, i) >= i,
    decreases names.len() - i,
{
    if i >= names.len() {
        assert(names.take(i) =~= names);
    } else {
        lemma_index_of(names.take(i), names[i]);
        let k = index_of(names.take(i), names[i]);
        if k >= 0 {
            assert(names.take(i)[k] == names[k]);
            assert(names[k] == names[i]);
        } else {
            let longer = names.take(i + 1);
            assert forall|a: int, b: int| 0 <= a < b < longer.len() implies longer[a]
                != longer[b] by {
                if b < i {
                    assert(names.take(i)[a] != names.take(i)[b]);
                } else {
                    assert(names.take(i)[a] != names[i]);
                }
            }
            lemma_first_duplicate(names, i + 1);
        }
    }
}

/// The position of the first of the processes before `limit` whose name is
/// `x`.
pub fn find_name(processes: &Vec<ProcessDef>, limit: usize, x: &Vec<char>) -> (r: Option<usize>)
    requires
        limit <= processes@.len(),
    ensures
        match r {
            Some(i) => index_of(proc_names(processes_view(processes@)).take(limit as int), x@)
                == i && i < limit,
            None => index_of(proc_names(processes_view(processes@)).take(limit as int), x@) < 0,
        },
{
    let ghost names = proc_names(processes_view(processes@)).take(limit as int);
    let mut i: usize = 0;
    while i < limit
        invariant
            i <= limit <= processes@.len(),
            names == proc_names(processes_view(processes@)).take(limit as int),
            forall|j: int| 0 <= j < i ==> #[trigger] names[j] != x@,
        decreases limit - i,
    {
        let name = chars_of(processes[i].name.as_str());
        assert(names[i as int] == name@);
        if same_chars(&name, x) {
            proof {
                lemma_index_of(names, x@);
            }
            return Some(i);
        }
        i += 1;
    }
    proof {
        lemma_index_of(names, x@);
    }
    None
}

/// The error for the first name that repeats an earlier one.
pub open spec fn duplicate_error(names: Seq<Seq<char>>) -> ErrorModel {
    ErrorModel { line: 0, message: "duplicate process name: "@ + names[first_duplicate(names)] }
}

/// Refuses a manifest in which two processes have one name.
pub fn check_duplicate_names(processes: &Vec<ProcessDef>) -> (r: Result<(), ParseError>)
    ensures
        match r {
            Ok(_) => distinct(proc_names(processes_view(processes@))),
            Err(e) => !distinct(proc_names(processes_view(processes@))) && e@ == duplicate_error(
                proc_names(processes_view(processes@)),
            ),
        },
{
    let ghost names = proc_names(processes_view(processes@));
    let mut i: usize = 0;
    assert(names.take(0) =~= Seq::empty());
    while i < processes.len()
        invariant
            i <= processes@.len(),
            names == proc_names(processes_view(processes@)),
            distinct(names.take(i as int)),
            first_duplicate(names) == first_duplicate_from(names, i as int),
        decreases processes@.len() - i,
    {
        let name = chars_of(processes[i].name.as_str());
        assert(names[i as int] == name@);
        proof {
            lemma_first_duplicate(names, i as int);
        }
        match find_name(processes, i, &name) {
            Some(_) => {
                let mut text = chars_of("duplicate process name: ");
                append_chars(&mut text, &name);
                return Err(ParseError { line: 0, message: string_of(&text) });
            },
            None => {
                proof {
                    lemma_index_of(names.take(i as int), names[i as int]);
                    let longer = names.take(i + 1);
                    assert forall|a: int, b: int| 0 <= a < b < longer.len() implies longer[a]
                        != longer[b] by {
                        if b < i {
                            assert(names.take(i as int)[a] != names.take(i as int)[b]);
                        } else {
                            assert(names.take(i as int)[a] != names[i as int]);
                        }
                    }
                }
            },
        }
        i += 1;
    }
    proof {
        lemma_first_duplicate(names, i as int);
    }
    Ok(())
}

/// Whether every dependency names a process of the manifest.
pub open spec fn resolves(procs: Seq<ProcessModel>) -> bool {
    forall|i: int, k: int|
        0 <= i < procs.len() && 0 <= k < procs[i].options.after.len() ==> index_of(
            proc_names(procs),
            #[trigger] procs[i].options.after[k],
        ) >= 0
}

/// The first dependency, from the `k`-th of process `i` on, that names no
/// process: the index of the process and that of the dependency.
pub open spec fn unknown_from(procs: Seq<ProcessModel>, i: int, k: int) -> Option<(int, int)>
    decreases procs.len() - i, procs[i].options.after.len() - k,
{
    if i < 0 || i >= procs.len() || k < 0 {
        None
    } else if k >= procs[i].options.after.len() {
        unknown_from(procs, i + 1, 0)
    } else if index_of(proc_names(procs), procs[i].options.after[k]) < 0 {
        Some((i, k))
    } else {
        unknown_from(procs, i, k + 1)
    }
}

/// The error for a dependency `dep` of the process `name` that names no
/// process.
pub open spec fn unknown_message(name: Seq<char>, dep: Seq<char>) -> Seq<char> {
    "process '"@ + name + "' depends on unknown process '"@ + dep + "'"@
}

/// The dependency graph of the processes: for each, in document order, the
/// indices of the processes that it waits for.
pub open spec fn dep_graph(procs: Seq<ProcessModel>) -> Seq<Seq<usize>> {
    Seq::new(
        procs.len(),
        |i: int|
            Seq::new(
                procs[i].options.after.len(),
                |k: int| index_of(proc_names(procs), procs[i].options.after[k]) as usize,
            ),
    )
}

/// The names of the first `n` nodes of `path`, joined by ` -> `.
pub open spec fn arrow_joined(names: Seq<Seq<char>>, path: Seq<usize>, n: int) -> Seq<char>
    decreases n,
{
    if n <= 0 || n > path.len() {
        Seq::empty()
    } else if n == 1 {
        names[path[0] as int]
    } else {
        arrow_joined(names, path, n - 1) + " -> "@ + names[path[n - 1] as int]
    }
}

/// The message that reports the cycle `path`.
pub open spec fn cycle_message(names: Seq<Seq<char>>, path: Seq<usize>) -> Seq<char> {
    "circular dependency: "@ + arrow_joined(names, path, path.len() as int)
}

/// What is wrong with the dependencies of `procs`, where `message` reports
/// it: the first dependency that names no process, or else some cycle.
pub open spec fn dependency_fault(procs: Seq<ProcessModel>, message: Seq<char>) -> bool {
    match unknown_from(procs, 0, 0) {
        Some((i, k)) => message == unknown_message(procs[i].name, procs[i].options.after[k]),
        None => exists|path: Seq<usize>|
            is_cycle(dep_graph(procs), path) && message == cycle_message(
                proc_names(procs),
                path,
            ),
    }
}

/// Resolves every dependency to the index of the process that it names.
pub fn dependency_indices(processes: &Vec<ProcessDef>) -> (r: Result<Vec<Vec<usize>>, ParseError>)
    ensures
        match r {
            Ok(adj) => resolves(processes_view(processes@)) && links(adj@) == dep_graph(
                processes_view(processes@),
            ) && wf_adj(links(adj@)) && unknown_from(processes_view(processes@), 0, 0).is_none(),
            Err(e) => !resolves(processes_view(processes@)) && e.line == 0 && match unknown_from(
                processes_view(processes@),
                0,
                0,
            ) {
                Some((i, k)) => e.message@ == unknown_message(
                    processes_view(processes@)[i].name,
                    processes_view(processes@)[i].options.after[k],
                ),
                None => false,
            },
        },
{
    let ghost procs = processes_view(processes@);
    let ghost names = proc_names(procs);
    let n = processes.len();
    let mut adj: Vec<Vec<usize>> = Vec::new();
    let mut i: usize = 0;
    while i < n
        invariant
            i <= n,
            n == processes@.len(),
            procs == processes_view(processes@),
            names == proc_names(procs),
            adj@.len() == i,
            unknown_from(procs, 0, 0) == unknown_from(procs, i as int, 0),
            forall|a: int, b: int|
                0 <= a < i && 0 <= b < procs[a].options.after.len() ==> index_of(
                    names,
                    #[trigger] procs[a].options.after[b],
                ) >= 0,
            forall|a: int| 0 <= a < i ==> (#[trigger] adj@[a])@ =~= dep_graph(procs)[a],
        decreases n - i,
    {
        let after = &processes[i].options.after;
        assert(procs[i as int].options.after.len() == after@.len());
        let mut row: Vec<usize> = Vec::new();
        let mut k: usize = 0;
        while k < after.len()
            invariant
                i < n,
                n == processes@.len(),
                procs == processes_view(processes@),
                names == proc_names(procs),
                after == &processes@[i as int].options.after,
                k <= after@.len(),
                row@.len() == k,
                unknown_from(procs, 0, 0) == unknown_from(procs, i as int, k as int),
                forall|b: int|
                    0 <= b < k ==> index_of(names, #[trigger] procs[i as int].options.after[b])
                        >= 0,
                forall|b: int| 0 <= b < k ==> #[trigger] row@[b] == dep_graph(procs)[i as int][b],
            decreases after@.len() - k,
        {
            let dep = chars_of(after[k].as_str());
            assert(procs[i as int].options.after[k as int] == dep@);
            assert(names.take(n as int) =~= names);
            match find_name(processes, n, &dep) {
                Some(idx) => {
                    row.push(idx);
                },
                None => {
                    let mut text = chars_of("process '");
                    let name = chars_of(processes[i].name.as_str());
                    append_chars(&mut text, &name);
                    let middle = chars_of("' depends on unknown process '");
                    append_chars(&mut text, &middle);
                    append_chars(&mut text, &dep);
                    let end = chars_of("'");
                    append_chars(&mut text, &end);
                    return Err(ParseError { line: 0, message: string_of(&text) });
                },
            }
            k += 1;
        }
        adj.push(row);
        i += 1;
    }
    proof {
        assert(links(adj@) =~= dep_graph(procs));
        assert forall|u: int, k: int|
            0 <= u < links(adj@).len() && 0 <= k < links(adj@)[u].len() implies (
        #[trigger] links(adj@)[u][k]) < links(adj@).len() by {
            lemma_index_of(names, procs[u].options.after[k]);
        }
    }
    Ok(adj)
}

/// Writes the cycle `path` as `a -> b -> a`.
pub fn cycle_text(processes: &Vec<ProcessDef>, path: &Vec<usize>) -> (r: Vec<char>)
    requires
        forall|i: int| 0 <= i < path@.len() ==> (#[trigger] path@[i]) < processes@.len(),
    ensures
        r@ == cycle_message(proc_names(processes_view(processes@)), path@),
{
    let ghost names = proc_names(processes_view(processes@));
    let mut joined: Vec<char> = Vec::new();
    let arrow = chars_of(" -> ");
    let mut i: usize = 0;
    assert(joined@ =~= Seq::empty());
    while i < path.len()
        invariant
            i <= path@.len(),
            names == proc_names(processes_view(processes@)),
            arrow@ == " -> "@,
            forall|j: int| 0 <= j < path@.len() ==> (#[trigger] path@[j]) < processes@.len(),
            joined@ == arrow_joined(names, path@, i as int),
        decreases path@.len() - i,
    {
        if i > 0 {
            append_chars(&mut joined, &arrow);
        }
        let name = chars_of(processes[path[i]].name.as_str());
        assert(names[path@[i as int] as int] == name@);
        append_chars(&mut joined, &name);
        assert(joined@ =~= arrow_joined(names, path@, i + 1));
        i += 1;
    }
    let mut text = chars_of("circular dependency: ");
    append_chars(&mut text, &joined);
    text
}

/// Refuses a manifest in which a dependency names no process, or in which
/// the dependencies form a cycle.
pub fn check_circular_deps(processes: &Vec<ProcessDef>) -> (r: Result<(), ParseError>)
    ensures
        match r {
            Ok(_) => resolves(processes_view(processes@)) && acyclic(
                dep_graph(processes_view(processes@)),
            ),
            Err(e) => e.line == 0 && dependency_fault(processes_view(processes@), e.message@) && !(
            resolves(processes_view(processes@)) && acyclic(
                dep_graph(processes_view(processes@)),
            )),
        },
{
    let adj = match dependency_indices(processes) {
        Ok(adj) => adj,
        Err(e) => {
            return Err(e);
        },
    };
    match dependency_order(&adj) {
        Ok(_) => Ok(()),
        Err(path) => {
            proof {
                assert forall|i: int| 0 <= i < path@.len() implies (#[trigger] path@[i])
                    < processes@.len() by {
                    if i < path@.len() - 1 {
                        assert(crate::deps::edge(
                            links(adj@),
                            path@[i] as int,
                            path@[i + 1] as int,
                        ));
                    } else {
                        assert(path@[i] == path@[0]);
                        assert(crate::deps::edge(links(adj@), path@[0] as int, path@[1] as int));
                    }
                }
            }
            let text = cycle_text(processes, &path);
            Err(ParseError { line: 0, message: string_of(&text) })
        },
    }
}

} // verus!
