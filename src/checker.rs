use vstd::prelude::*;

use crate::engine::{
    file_index, join_path, join_paths, match_results, range_modified, result_view, unanchored,
    FileModel, GitEngine,
};
use crate::messages::{
    cannot_open, expected_modified, msg_cannot_open, msg_expected_modified, msg_name_not_found,
    name_not_found,
};
use crate::parser::{
    errors_view, file_items, find_named, find_named_item, lines_view, BlockModel,
    IfChangedBlock, ItemModel, Parser, PatternModel,
};

verus! {

/// The index of the last `/` among the first `n` characters of `p`.
pub open spec fn last_slash(p: Seq<char>, n: int) -> Option<int>
    decreases n,
{
    if n <= 0 {
        None
    } else if p[n - 1] == '/' {
        Some(n - 1)
    } else {
        last_slash(p, n - 1)
    }
}

/// The directory of a relative path: what precedes its last `/`.
pub open spec fn parent_dir(p: Seq<char>) -> Seq<char> {
    match last_slash(p, p.len() as int) {
        Some(i) => p.take(i),
        None => Seq::empty(),
    }
}

/// The path that a pattern written in `file` stands for: the file itself
/// for an empty pattern, else the pattern relative to the file's directory.
pub open spec fn resolve_target(file: Seq<char>, value: Seq<char>) -> Seq<char> {
    if value.len() == 0 {
        file
    } else {
        join_path(parent_dir(file), value)
    }
}

/// The text of `path` in the change: a file that the change does not touch
/// holds nothing to check.
pub open spec fn file_text(files: Seq<FileModel>, path: Seq<char>) -> Result<
    Seq<Seq<char>>,
    Seq<char>,
> {
    match file_index(files, path, 0) {
        Some(i) => files[i].text,
        None => Ok(Seq::empty()),
    }
}

/// The resolved targets of the unnamed obligations among the first `n`.
pub open spec fn unnamed_targets(file: Seq<char>, ps: Seq<PatternModel>, n: int) -> Seq<Seq<char>>
    decreases n,
{
    if n <= 0 {
        Seq::empty()
    } else if ps[n - 1].name is None {
        unnamed_targets(file, ps, n - 1).push(resolve_target(file, ps[n - 1].value))
    } else {
        unnamed_targets(file, ps, n - 1)
    }
}

/// The resolved targets of the named obligations among the first `n`, with
/// their names.
pub open spec fn named_targets(file: Seq<char>, ps: Seq<PatternModel>, n: int) -> Seq<
    (Seq<char>, Seq<char>),
>
    decreases n,
{
    if n <= 0 {
        Seq::empty()
    } else {
        match ps[n - 1].name {
            Some(name) => named_targets(file, ps, n - 1).push(
                (resolve_target(file, ps[n - 1].value), name),
            ),
            None => named_targets(file, ps, n - 1),
        }
    }
}

/// One message for each pattern among the first `n` results that matched
/// no changed path.
pub open spec fn unmatched_messages(
    rs: Seq<Result<Seq<char>, Seq<char>>>,
    file: Seq<char>,
    line: nat,
    n: int,
) -> Seq<Seq<char>>
    decreases n,
{
    if n <= 0 {
        Seq::empty()
    } else {
        match rs[n - 1] {
            Err(p) => unmatched_messages(rs, file, line, n - 1).push(
                msg_expected_modified(p, file, line),
            ),
            Ok(_) => unmatched_messages(rs, file, line, n - 1),
        }
    }
}

/// What a changed file `dep` owes to the obligation on its block `name`:
/// the block must exist and be touched by the change.
pub open spec fn dependent_violations(
    files: Seq<FileModel>,
    file: Seq<char>,
    line: nat,
    dep: Seq<char>,
    name: Seq<char>,
) -> Seq<Seq<char>> {
    match file_text(files, dep) {
        Err(err) => seq![msg_cannot_open(dep, file, line, err)],
        Ok(lines) => match find_named_item(file_items(lines, dep), name) {
            None => seq![msg_name_not_found(name, dep, file, line)],
            Some(Err(es)) => es,
            Some(Ok(b)) => if range_modified(files, dep, b.start, b.end) {
                Seq::empty()
            } else {
                seq![msg_expected_modified(dep, file, line)]
            },
        },
    }
}

/// The violations of a named obligation, over the first `n` results of
/// matching its target.
pub open spec fn named_result_violations(
    files: Seq<FileModel>,
    file: Seq<char>,
    line: nat,
    name: Seq<char>,
    rs: Seq<Result<Seq<char>, Seq<char>>>,
    n: int,
) -> Seq<Seq<char>>
    decreases n,
{
    if n <= 0 {
        Seq::empty()
    } else {
        named_result_violations(files, file, line, name, rs, n - 1) + match rs[n - 1] {
            Err(p) => seq![msg_expected_modified(p, file, line)],
            Ok(dep) => dependent_violations(files, file, line, dep, name),
        }
    }
}

/// The violations of the first `n` named obligations `ts`.
pub open spec fn named_violations(
    files: Seq<FileModel>,
    paths: Seq<Seq<char>>,
    file: Seq<char>,
    line: nat,
    ts: Seq<(Seq<char>, Seq<char>)>,
    n: int,
) -> Seq<Seq<char>>
    decreases n,
{
    if n <= 0 {
        Seq::empty()
    } else {
        let rs = match_results(paths, seq![ts[n - 1].0]);
        named_violations(files, paths, file, line, ts, n - 1) + named_result_violations(
            files,
            file,
            line,
            ts[n - 1].1,
            rs,
            rs.len() as int,
        )
    }
}

/// The violations of one block of `file`: none where the change leaves the
/// block alone; else one for each unnamed target that no changed path
/// matches, then those of each named target.
pub open spec fn block_violations(
    files: Seq<FileModel>,
    paths: Seq<Seq<char>>,
    file: Seq<char>,
    b: BlockModel,
) -> Seq<Seq<char>> {
    if !range_modified(files, file, b.start, b.end) {
        Seq::empty()
    } else {
        let rs = match_results(paths, unnamed_targets(file, b.patterns, b.patterns.len() as int));
        let ts = named_targets(file, b.patterns, b.patterns.len() as int);
        unmatched_messages(rs, file, b.end, rs.len() as int) + named_violations(
            files,
            paths,
            file,
            b.end,
            ts,
            ts.len() as int,
        )
    }
}

/// The violations of the first `n` items of a file, or the parse error
/// among them.
pub open spec fn violations_from(
    files: Seq<FileModel>,
    paths: Seq<Seq<char>>,
    file: Seq<char>,
    items: Seq<ItemModel>,
    n: int,
) -> Result<Seq<Seq<char>>, Seq<Seq<char>>>
    decreases n,
{
    if n <= 0 {
        Ok(Seq::empty())
    } else {
        match violations_from(files, paths, file, items, n - 1) {
            Err(e) => Err(e),
            Ok(v) => match items[n - 1] {
                Err(es) => Err(es),
                Ok(b) => Ok(v + block_violations(files, paths, file, b)),
            },
        }
    }
}

/// What checking `file` gives: its parse error, or every violation of its
/// blocks, or success.
///
/// A target that matches no changed path is reported as "Expected ... to be
/// modified" whether or not it matches any file of the tree: the change alone
/// is consulted, so no separate "Could not find any file matching" violation
/// exists.
pub open spec fn check_result(files: Seq<FileModel>, paths: Seq<Seq<char>>, file: Seq<char>) -> Result<
    (),
    Seq<Seq<char>>,
> {
    match file_text(files, file) {
        Err(err) => Err(seq![err]),
        Ok(lines) => {
            let items = file_items(lines, file);
            match violations_from(files, paths, file, items, items.len() as int) {
                Err(es) => Err(es),
                Ok(v) => if v.len() == 0 {
                    Ok(())
                } else {
                    Err(v)
                },
            }
        },
    }
}

pub open spec fn unit_result_view(r: Result<(), Vec<String>>) -> Result<(), Seq<Seq<char>>> {
    match r {
        Ok(()) => Ok(()),
        Err(e) => Err(errors_view(e)),
    }
}

proof fn lemma_no_unmatched_among_paths(paths: Seq<Seq<char>>, file: Seq<char>, line: nat, n: int)
    requires
        0 <= n <= paths.len(),
    ensures
        unmatched_messages(
            paths.map_values(|p: Seq<char>| Ok::<Seq<char>, Seq<char>>(p)),
            file,
            line,
            n,
        ) == Seq::<Seq<char>>::empty(),
    decreases n,
{
    if n > 0 {
        lemma_no_unmatched_among_paths(paths, file, line, n - 1);
    }
}

/// A named cross-reference holds exactly when the named block changes: for a
/// touched block whose only obligation names block `name` of a changed file
/// that matches nothing else, the block owes nothing where that named block
/// is touched, and one "Expected ... to be modified" naming the file
/// otherwise.
pub proof fn lemma_named_reference(
    files: Seq<FileModel>,
    paths: Seq<Seq<char>>,
    file: Seq<char>,
    b: BlockModel,
    value: Seq<char>,
    name: Seq<char>,
    lines: Seq<Seq<char>>,
    nb: BlockModel,
)
    requires
        range_modified(files, file, b.start, b.end),
        b.patterns == seq![PatternModel { name: Some(name), value, line: b.end }],
        match_results(paths, seq![resolve_target(file, value)]) == seq![
            Ok::<Seq<char>, Seq<char>>(resolve_target(file, value)),
        ],
        file_text(files, resolve_target(file, value)) == Ok::<Seq<Seq<char>>, Seq<char>>(lines),
        find_named_item(file_items(lines, resolve_target(file, value)), name) == Some(
            Ok::<BlockModel, Seq<Seq<char>>>(nb),
        ),
    ensures
        block_violations(files, paths, file, b) == if range_modified(
            files,
            resolve_target(file, value),
            nb.start,
            nb.end,
        ) {
            Seq::<Seq<char>>::empty()
        } else {
            seq![msg_expected_modified(resolve_target(file, value), file, b.end)]
        },
{
    let t = resolve_target(file, value);
    let ps = b.patterns;
    assert(unnamed_targets(file, ps, 0) == Seq::<Seq<char>>::empty());
    assert(unnamed_targets(file, ps, 1) == Seq::<Seq<char>>::empty());
    assert(named_targets(file, ps, 0) == Seq::<(Seq<char>, Seq<char>)>::empty());
    assert(named_targets(file, ps, 1) =~= seq![(t, name)]);
    let empty_targets = Seq::<Seq<char>>::empty();
    assert(empty_targets.map_values(|p: Seq<char>| unanchored(p)).len() == 0);
    let rs = match_results(paths, empty_targets);
    assert(rs == paths.map_values(|p: Seq<char>| Ok::<Seq<char>, Seq<char>>(p)));
    lemma_no_unmatched_among_paths(paths, file, b.end, paths.len() as int);
    let named_rs = match_results(paths, seq![t]);
    assert(named_result_violations(files, file, b.end, name, named_rs, 0) == Seq::<
        Seq<char>,
    >::empty());
    assert(named_violations(files, paths, file, b.end, seq![(t, name)], 0) == Seq::<
        Seq<char>,
    >::empty());
    let dv = dependent_violations(files, file, b.end, t, name);
    assert(named_result_violations(files, file, b.end, name, named_rs, 1) =~= dv);
    assert(named_violations(files, paths, file, b.end, seq![(t, name)], 1) =~= dv);
    assert(block_violations(files, paths, file, b) =~= Seq::<Seq<char>>::empty() + dv);
}

proof fn lemma_violations_error_stays(
    files: Seq<FileModel>,
    paths: Seq<Seq<char>>,
    file: Seq<char>,
    items: Seq<ItemModel>,
    k: int,
    m: int,
)
    requires
        0 <= k <= m,
        violations_from(files, paths, file, items, k) is Err,
    ensures
        violations_from(files, paths, file, items, m) == violations_from(
            files,
            paths,
            file,
            items,
            k,
        ),
    decreases m - k,
{
    if m > k {
        lemma_violations_error_stays(files, paths, file, items, k, m - 1);
    }
}

fn push_message(errors: &mut Vec<String>, m: String)
    ensures
        errors_view(*final(errors)) == errors_view(*old(errors)).push(m@),
{
    errors.push(m);
    assert(errors_view(*errors) =~= errors_view(*old(errors)).push(m@));
}

fn extend_messages(errors: &mut Vec<String>, more: Vec<String>)
    ensures
        errors_view(*final(errors)) == errors_view(*old(errors)) + errors_view(more),
{
    let mut i: usize = 0;
    while i < more.len()
        invariant
            i <= more.len(),
            errors_view(*errors) =~= errors_view(*old(errors)) + errors_view(more).take(i as int),
        decreases more.len() - i,
    {
        let ghost before = errors_view(*errors);
        push_message(errors, more[i].clone());
        assert(errors_view(more).take(i + 1) =~= errors_view(more).take(i as int).push(
            more@[i as int]@,
        ));
        i = i + 1;
    }
    assert(errors_view(more).take(i as int) =~= errors_view(more));
}

/// The directory of a relative path.
pub fn parent_dir_text(p: &str) -> (r: String)
    ensures
        r@ == parent_dir(p@),
{
    let mut n = p.unicode_len();
    while n > 0 && p.get_char(n - 1) != '/'
        invariant
            n <= p@.len(),
            last_slash(p@, n as int) == last_slash(p@, p@.len() as int),
        decreases n,
    {
        n = n - 1;
    }
    if n == 0 {
        String::new()
    } else {
        p.substring_char(0, n - 1).to_owned()
    }
}

/// The path that `value`, written in `file`, stands for.
pub fn resolve_target_text(file: &str, value: &str) -> (r: String)
    ensures
        r@ == resolve_target(file@, value@),
{
    if value.unicode_len() == 0 {
        file.to_owned()
    } else {
        join_paths(parent_dir_text(file).as_str(), value)
    }
}

impl GitEngine {
    fn dependent_check(
        &self,
        file: &str,
        line: usize,
        dep: &str,
        name: &str,
        errors: &mut Vec<String>,
    )
        ensures
            errors_view(*final(errors)) == errors_view(*old(errors)) + dependent_violations(
                self.files(),
                file@,
                line as nat,
                dep@,
                name@,
            ),
    {
        let lines = match self.text(dep) {
            None => Vec::new(),
            Some(Ok(lines)) => lines,
            Some(Err(e)) => {
                push_message(errors, cannot_open(dep, file, line, e.as_str()));
                return ;
            },
        };
        assert(lines_view(lines@) == match file_text(self.files(), dep@) {
            Ok(l) => l,
            Err(_) => Seq::empty(),
        }) by {
            if lines@.len() == 0 {
                assert(lines_view(lines@) =~= Seq::<Seq<char>>::empty());
            }
        }
        match find_named(dep, lines, name) {
            None => {
                push_message(errors, name_not_found(name, dep, file, line));
            },
            Some(Err(es)) => {
                extend_messages(errors, es);
            },
            Some(Ok(block)) => {
                if !self.is_range_modified(dep, block.range) {
                    push_message(errors, expected_modified(dep, file, line));
                } else {
                    assert(errors_view(*errors) =~= errors_view(*old(errors)) + Seq::empty());
                }
            },
        }
    }

    fn named_check(
        &self,
        file: &str,
        line: usize,
        target: &String,
        name: &String,
        errors: &mut Vec<String>,
    )
        requires
            self.wf(),
        ensures
            errors_view(*final(errors)) == errors_view(*old(errors)) + named_result_violations(
                self.files(),
                file@,
                line as nat,
                name@,
                match_results(self.changed_paths(), seq![target@]),
                match_results(self.changed_paths(), seq![target@]).len() as int,
            ),
    {
        let targets = vec![target.clone()];
        assert(targets@.map_values(|p: String| p@) =~= seq![target@]);
        let rs = self.matches(&targets);
        let ghost rv = rs@.map_values(|x: Result<String, String>| result_view(x));
        let mut i: usize = 0;
        while i < rs.len()
            invariant
                self.wf(),
                i <= rs.len(),
                rv == rs@.map_values(|x: Result<String, String>| result_view(x)),
                rv == match_results(self.changed_paths(), seq![target@]),
                errors_view(*errors) == errors_view(*old(errors)) + named_result_violations(
                    self.files(),
                    file@,
                    line as nat,
                    name@,
                    rv,
                    i as int,
                ),
            decreases rs.len() - i,
        {
            let ghost before = errors_view(*errors);
            assert(rv[i as int] == result_view(rs@[i as int]));
            match &rs[i] {
                Err(p) => {
                    push_message(errors, expected_modified(p.as_str(), file, line));
                    assert(before.push(msg_expected_modified(p@, file@, line as nat)) =~= before
                        + seq![msg_expected_modified(p@, file@, line as nat)]);
                },
                Ok(dep) => {
                    self.dependent_check(file, line, dep.as_str(), name.as_str(), errors);
                },
            }
            assert(errors_view(*errors) =~= errors_view(*old(errors)) + named_result_violations(
                self.files(),
                file@,
                line as nat,
                name@,
                rv,
                i + 1,
            ));
            i = i + 1;
        }
    }

    fn block_check(&self, file: &str, block: &IfChangedBlock, errors: &mut Vec<String>)
        requires
            self.wf(),
        ensures
            errors_view(*final(errors)) == errors_view(*old(errors)) + block_violations(
                self.files(),
                self.changed_paths(),
                file@,
                block@,
            ),
    {
        if !self.is_range_modified(file, block.range) {
            assert(errors_view(*errors) =~= errors_view(*old(errors)) + Seq::empty());
            return ;
        }
        let ghost ps = block@.patterns;
        let line = block.range.1;
        let mut unnamed: Vec<String> = Vec::new();
        let mut named: Vec<(String, String)> = Vec::new();
        let mut i: usize = 0;
        while i < block.patterns.len()
            invariant
                i <= block.patterns.len(),
                ps == block@.patterns,
                unnamed@.map_values(|p: String| p@) == unnamed_targets(file@, ps, i as int),
                named@.map_values(|t: (String, String)| (t.0@, t.1@)) == named_targets(
                    file@,
                    ps,
                    i as int,
                ),
            decreases block.patterns.len() - i,
        {
            let pattern = &block.patterns[i];
            assert(ps[i as int] == pattern@);
            let target = resolve_target_text(file, pattern.value.as_str());
            match &pattern.name {
                Some(name) => {
                    let ghost before = named@.map_values(|t: (String, String)| (t.0@, t.1@));
                    named.push((target, name.clone()));
                    assert(named@.map_values(|t: (String, String)| (t.0@, t.1@)) =~= before.push(
                        (target@, name@),
                    ));
                },
                None => {
                    let ghost before = unnamed@.map_values(|p: String| p@);
                    unnamed.push(target);
                    assert(unnamed@.map_values(|p: String| p@) =~= before.push(target@));
                },
            }
            i = i + 1;
        }
        let rs = self.matches(&unnamed);
        let ghost rv = rs@.map_values(|x: Result<String, String>| result_view(x));
        let mut k: usize = 0;
        while k < rs.len()
            invariant
                k <= rs.len(),
                rv == rs@.map_values(|x: Result<String, String>| result_view(x)),
                errors_view(*errors) == errors_view(*old(errors)) + unmatched_messages(
                    rv,
                    file@,
                    line as nat,
                    k as int,
                ),
            decreases rs.len() - k,
        {
            assert(rv[k as int] == result_view(rs@[k as int]));
            if let Err(p) = &rs[k] {
                push_message(errors, expected_modified(p.as_str(), file, line));
            }
            k = k + 1;
        }
        let ghost mid = errors_view(*errors);
        let ghost tv = named@.map_values(|t: (String, String)| (t.0@, t.1@));
        let mut j: usize = 0;
        while j < named.len()
            invariant
                self.wf(),
                j <= named.len(),
                tv == named@.map_values(|t: (String, String)| (t.0@, t.1@)),
                errors_view(*errors) == mid + named_violations(
                    self.files(),
                    self.changed_paths(),
                    file@,
                    line as nat,
                    tv,
                    j as int,
                ),
            decreases named.len() - j,
        {
            assert(tv[j as int] == (named@[j as int].0@, named@[j as int].1@));
            self.named_check(file, line, &named[j].0, &named[j].1, errors);
            j = j + 1;
        }
    }

    /// Every obligation of the blocks of `path` that the change touches,
    /// checked against the change; the file's parse error where its
    /// annotations are malformed.
    pub fn check(&self, path: &str) -> (r: Result<(), Vec<String>>)
        requires
            self.wf(),
        ensures
            unit_result_view(r) == check_result(self.files(), self.changed_paths(), path@),
    {
        let lines = match self.text(path) {
            None => Vec::new(),
            Some(Ok(lines)) => lines,
            Some(Err(e)) => {
                let errors = vec![e];
                assert(errors_view(errors) =~= seq![e@]);
                return Err(errors);
            },
        };
        let ghost files = self.files();
        let ghost paths = self.changed_paths();
        assert(file_text(files, path@) == Ok::<Seq<Seq<char>>, Seq<char>>(lines_view(lines@))) by {
            if lines@.len() == 0 {
                assert(lines_view(lines@) =~= Seq::<Seq<char>>::empty());
            }
        }
        let ghost items = file_items(lines_view(lines@), path@);
        let mut parser = Parser::new(path.to_owned(), lines);
        let mut errors: Vec<String> = Vec::new();
        let ghost mut n: int = 0;
        assert(items.skip(0) =~= items);
        assert(errors_view(errors) =~= Seq::<Seq<char>>::empty());
        loop
            invariant
                self.wf(),
                parser.wf(),
                files == self.files(),
                paths == self.changed_paths(),
                check_result(files, paths, path@) == match violations_from(files, paths, path@, items, items.len() as int) {
                    Err(es) => Err(es),
                    Ok(v) => if v.len() == 0 {
                        Ok::<(), Seq<Seq<char>>>(())
                    } else {
                        Err(v)
                    },
                },
                0 <= n <= items.len(),
                parser.items() == items.skip(n),
                violations_from(files, paths, path@, items, n) == Ok::<
                    Seq<Seq<char>>,
                    Seq<Seq<char>>,
                >(errors_view(errors)),
            ensures
                n == items.len(),
                violations_from(files, paths, path@, items, n) == Ok::<
                    Seq<Seq<char>>,
                    Seq<Seq<char>>,
                >(errors_view(errors)),
            decreases parser.items().len(),
        {
            let ghost before = parser.items();
            match parser.next() {
                None => {
                    assert(n == items.len());
                    break;
                },
                Some(Err(e)) => {
                    assert(items[n] == before[0]);
                    proof {
                        lemma_violations_error_stays(
                            files,
                            paths,
                            path@,
                            items,
                            n + 1,
                            items.len() as int,
                        );
                    }
                    return Err(e);
                },
                Some(Ok(block)) => {
                    assert(items[n] == before[0]);
                    assert(items.skip(n + 1) =~= before.drop_first());
                    self.block_check(path, &block, &mut errors);
                    proof {
                        n = n + 1;
                    }
                },
            }
        }
        assert(violations_from(files, paths, path@, items, items.len() as int) == Ok::<
            Seq<Seq<char>>,
            Seq<Seq<char>>,
        >(errors_view(errors)));
        if errors.len() == 0 {
            assert(errors_view(errors).len() == 0);
            Ok(())
        } else {
            Err(errors)
        }
    }
}

} // verus!
