use vstd::prelude::*;

use crate::checker::{check_result, unit_result_view};
use crate::engine::{is_repo_path, match_results, result_view, selected, GitEngine};
use crate::parser::errors_view;

verus! {

/// What a run is asked to do: the revisions to compare (the checked-out
/// `HEAD` and the working tree where absent) and the patterns of the files
/// to check (every changed file where empty).
pub struct Cli {
    pub from_ref: Option<String>,
    pub to_ref: Option<String>,
    pub patterns: Vec<String>,
}

/// The messages of a run over the first `n` results of matching the
/// requested patterns: each changed path that the target revision does not
/// exempt is checked, and its violations are reported in turn.
pub open spec fn run_messages(e: GitEngine, rs: Seq<Result<Seq<char>, Seq<char>>>, n: int) -> Seq<
    Seq<char>,
>
    decreases n,
{
    if n <= 0 {
        Seq::empty()
    } else {
        run_messages(e, rs, n - 1) + match rs[n - 1] {
            Err(_) => Seq::empty(),
            Ok(path) => if is_repo_path(path) && selected(e.ignore_patterns(), path) {
                Seq::empty()
            } else {
                match check_result(e.files(), e.changed_paths(), path) {
                    Ok(()) => Seq::empty(),
                    Err(es) => es,
                }
            },
        }
    }
}

/// Every violation over the changed files that `cli.patterns` select, in
/// the order of the diff.
pub fn run(cli: &Cli, engine: &GitEngine) -> (r: Vec<String>)
    requires
        engine.wf(),
    ensures
        ({
            let rs = match_results(
                engine.changed_paths(),
                cli.patterns@.map_values(|p: String| p@),
            );
            errors_view(r) == run_messages(*engine, rs, rs.len() as int)
        }),
{
    let results = engine.matches(&cli.patterns);
    let ghost rv = results@.map_values(|x: Result<String, String>| result_view(x));
    let mut errors: Vec<String> = Vec::new();
    assert(errors_view(errors) =~= Seq::<Seq<char>>::empty());
    let mut i: usize = 0;
    while i < results.len()
        invariant
            engine.wf(),
            i <= results.len(),
            rv == results@.map_values(|x: Result<String, String>| result_view(x)),
            errors_view(errors) == run_messages(*engine, rv, i as int),
        decreases results.len() - i,
    {
        assert(rv[i as int] == result_view(results@[i as int]));
        let ghost before = errors_view(errors);
        if let Ok(path) = &results[i] {
            if !engine.is_ignored(path.as_str()) {
                let outcome = engine.check(path.as_str());
                assert(unit_result_view(outcome) == check_result(
                    engine.files(),
                    engine.changed_paths(),
                    path@,
                ));
                if let Err(more) = outcome {
                    let mut k: usize = 0;
                    while k < more.len()
                        invariant
                            k <= more.len(),
                            errors_view(errors) =~= before + errors_view(more).take(k as int),
                        decreases more.len() - k,
                    {
                        let ghost mid = errors_view(errors);
                        let m = more[k].clone();
                        errors.push(m);
                        assert(errors_view(errors) =~= mid.push(m@));
                        assert(errors_view(more).take(k + 1) =~= errors_view(more).take(
                            k as int,
                        ).push(more@[k as int]@));
                        k = k + 1;
                    }
                    assert(errors_view(more).take(k as int) =~= errors_view(more));
                } else {
                    assert(errors_view(errors) =~= before + Seq::empty());
                }
            } else {
                assert(errors_view(errors) =~= before + Seq::empty());
            }
        } else {
            assert(errors_view(errors) =~= before + Seq::empty());
        }
        i = i + 1;
    }
    errors
}

/// The check of one file against a change.
pub struct Checker<'a> {
    engine: &'a GitEngine,
    path: String,
}

impl<'a> Checker<'a> {
    pub closed spec fn engine(&self) -> GitEngine {
        *self.engine
    }

    pub closed spec fn path(&self) -> Seq<char> {
        self.path@
    }

    pub fn new(engine: &'a GitEngine, path: &str) -> (r: Checker<'a>)
        ensures
            r.engine() == *engine,
            r.path() == path@,
    {
        Checker { engine, path: path.to_owned() }
    }

    /// Every violation of the file's obligations, or its parse error.
    pub fn check(self) -> (r: Result<(), Vec<String>>)
        requires
            self.engine().wf(),
        ensures
            unit_result_view(r) == check_result(
                self.engine().files(),
                self.engine().changed_paths(),
                self.path(),
            ),
    {
        self.engine.check(self.path.as_str())
    }
}

} // verus!
