use vstd::prelude::*;

verus! {

/// What libgit2 answers when a pathspec made of the single entry `pattern`
/// is matched against the repository path `path`.
pub uninterp spec fn pathspec_matches(pattern: Seq<char>, path: Seq<char>) -> bool;

/// A path that git2 accepts as relative to a repository's root: not empty,
/// free of NUL, and not starting at the root, at `.` or at `..`.
pub open spec fn is_repo_path(p: Seq<char>) -> bool {
    &&& p.len() > 0
    &&& p[0] != '/'
    &&& !(p[0] == '.' && (p.len() == 1 || p[1] == '/'))
    &&& !(p.len() >= 2 && p[0] == '.' && p[1] == '.' && (p.len() == 2 || p[2] == '/'))
    &&& forall|i: int| 0 <= i < p.len() ==> p[i] != '\0'
}

/// Relies on `git2::Pathspec::new` and `git2::Pathspec::matches_path`: builds
/// the one-entry pathspec and matches the path against it with the default
/// flags. A pattern that libgit2 rejects matches nothing. `matches_path`
/// panics on a path that is not a repository path, hence the requirement.
#[verifier::external_body]
fn glob_matches(pattern: &str, path: &str) -> (r: bool)
    requires
        is_repo_path(path@),
    ensures
        r == pathspec_matches(pattern@, path@),
{
    match git2::Pathspec::new([pattern]) {
        Ok(spec) => spec.matches_path(std::path::Path::new(path), git2::PathspecFlags::DEFAULT),
        Err(_) => false,
    }
}

pub fn is_repo_path_text(p: &str) -> (r: bool)
    ensures
        r == is_repo_path(p@),
{
    let n = p.unicode_len();
    if n == 0 {
        return false;
    }
    let c0 = p.get_char(0);
    if c0 == '/' {
        return false;
    }
    if c0 == '.' {
        if n == 1 || p.get_char(1) == '/' {
            return false;
        }
        if p.get_char(1) == '.' && (n == 2 || p.get_char(2) == '/') {
            return false;
        }
    }
    let mut i: usize = 0;
    while i < n
        invariant
            n == p@.len(),
            i <= n,
            forall|k: int| 0 <= k < i ==> p@[k] != '\0',
        decreases n - i,
    {
        if p.get_char(i) == '\0' {
            return false;
        }
        i = i + 1;
    }
    true
}

/// The pattern without one leading `/`, which anchors it at the root.
pub open spec fn unanchored(p: Seq<char>) -> Seq<char> {
    if p.len() > 0 && p[0] == '/' {
        p.skip(1)
    } else {
        p
    }
}

/// Whether the pattern excludes what it matches.
pub open spec fn is_negated(p: Seq<char>) -> bool {
    p.len() > 0 && p[0] == '!'
}

/// The pattern without its leading `!`.
pub open spec fn pattern_body(p: Seq<char>) -> Seq<char> {
    if is_negated(p) {
        p.skip(1)
    } else {
        p
    }
}

/// Whether the pattern is one that libgit2 drops when it reads a pathspec:
/// empty, a comment, or a lone `!`.
pub open spec fn is_inert(p: Seq<char>) -> bool {
    p.len() == 0 || p[0] == '#' || pattern_body(p).len() == 0
}

/// The last of the first `n` patterns that matches `path`; inert patterns
/// match nothing.
pub open spec fn last_match(ps: Seq<Seq<char>>, path: Seq<char>, n: int) -> Option<int>
    decreases n,
{
    if n <= 0 {
        None
    } else if !is_inert(ps[n - 1]) && pathspec_matches(pattern_body(ps[n - 1]), path) {
        Some(n - 1)
    } else {
        last_match(ps, path, n - 1)
    }
}

/// The pattern that decides for `path`: the last one that matches it, as in
/// an ignore file.
pub open spec fn decider(ps: Seq<Seq<char>>, path: Seq<char>) -> Option<int> {
    last_match(ps, path, ps.len() as int)
}

/// Whether the patterns select `path`: the pattern that decides for it
/// includes rather than excludes.
pub open spec fn selected(ps: Seq<Seq<char>>, path: Seq<char>) -> bool {
    match decider(ps, path) {
        Some(i) => !is_negated(ps[i]),
        None => false,
    }
}

/// Whether pattern `i` includes and matches some path of `paths` that the
/// patterns select, even where a later pattern decides for that path.
pub open spec fn selects_some(ps: Seq<Seq<char>>, paths: Seq<Seq<char>>, i: int) -> bool {
    !is_negated(ps[i]) && exists|k: int|
        0 <= k < paths.len() && selected(ps, paths[k]) && pathspec_matches(
            pattern_body(ps[i]),
            paths[k],
        )
}

/// The selected paths among the first `n` of `paths`, in their order.
pub open spec fn selected_paths(ps: Seq<Seq<char>>, paths: Seq<Seq<char>>, n: int) -> Seq<
    Result<Seq<char>, Seq<char>>,
>
    decreases n,
{
    if n <= 0 {
        Seq::empty()
    } else if selected(ps, paths[n - 1]) {
        selected_paths(ps, paths, n - 1).push(Ok(paths[n - 1]))
    } else {
        selected_paths(ps, paths, n - 1)
    }
}

/// The patterns from index `i` on that match no selected path, last pattern
/// first. A negated pattern selects nothing, so it is always reported; an
/// inert one never is.
pub open spec fn unmatched_patterns(ps: Seq<Seq<char>>, paths: Seq<Seq<char>>, i: int) -> Seq<
    Result<Seq<char>, Seq<char>>,
>
    decreases ps.len() - i,
{
    if i < 0 || i >= ps.len() {
        Seq::empty()
    } else if is_inert(ps[i]) || selects_some(ps, paths, i) {
        unmatched_patterns(ps, paths, i + 1)
    } else {
        unmatched_patterns(ps, paths, i + 1).push(Err(pattern_body(ps[i])))
    }
}

/// What matching `patterns` against the changed `paths` yields: with no
/// pattern, every changed path; otherwise the selected paths in the diff's
/// order, then each pattern that selects none, from the last pattern back.
pub open spec fn match_results(paths: Seq<Seq<char>>, patterns: Seq<Seq<char>>) -> Seq<
    Result<Seq<char>, Seq<char>>,
> {
    let ps = patterns.map_values(|p: Seq<char>| unanchored(p));
    if ps.len() == 0 {
        paths.map_values(|p: Seq<char>| Ok(p))
    } else {
        selected_paths(ps, paths, paths.len() as int) + unmatched_patterns(ps, paths, 0)
    }
}

proof fn lemma_selected_paths_are_selected(
    ps: Seq<Seq<char>>,
    paths: Seq<Seq<char>>,
    n: int,
    x: Seq<char>,
)
    requires
        0 <= n <= paths.len(),
        selected_paths(ps, paths, n).contains(Ok(x)),
    ensures
        exists|j: int| 0 <= j < n && paths[j] == x && selected(ps, paths[j]),
    decreases n,
{
    let prev = selected_paths(ps, paths, n - 1);
    if selected(ps, paths[n - 1]) {
        let cur = prev.push(Ok(paths[n - 1]));
        let k = choose|k: int| 0 <= k < cur.len() && #[trigger] cur[k] == Ok::<Seq<char>, Seq<char>>(x);
        if k < prev.len() {
            assert(prev[k] == Ok::<Seq<char>, Seq<char>>(x));
            lemma_selected_paths_are_selected(ps, paths, n - 1, x);
        }
    } else {
        lemma_selected_paths_are_selected(ps, paths, n - 1, x);
    }
}

proof fn lemma_unmatched_patterns_are_errors(ps: Seq<Seq<char>>, paths: Seq<Seq<char>>, i: int)
    ensures
        forall|k: int|
            0 <= k < unmatched_patterns(ps, paths, i).len() ==> #[trigger] unmatched_patterns(
                ps,
                paths,
                i,
            )[k] is Err,
    decreases ps.len() - i,
{
    if 0 <= i < ps.len() {
        lemma_unmatched_patterns_are_errors(ps, paths, i + 1);
    }
}

/// A later negated pattern overrides an earlier one: with the patterns
/// `[p, !q]`, no changed path that `q` matches comes back as matched, and the
/// negated pattern comes back as unmatched.
pub proof fn lemma_negation_overrides(paths: Seq<Seq<char>>, p: Seq<char>, q: Seq<char>)
    requires
        p.len() > 0,
        p[0] != '/',
        q.len() > 0,
    ensures
        ({
            let r = match_results(paths, seq![p, seq!['!'] + q]);
            &&& forall|x: Seq<char>|
                paths.contains(x) && pathspec_matches(q, x) ==> !r.contains(
                    Ok::<Seq<char>, Seq<char>>(x),
                )
            &&& r.contains(Err::<Seq<char>, Seq<char>>(q))
        }),
{
    let nq = seq!['!'] + q;
    let ps = seq![p, nq];
    assert(nq[0] == '!');
    assert(pattern_body(nq) =~= q);
    assert(seq![p, nq].map_values(|x: Seq<char>| unanchored(x)) =~= ps);
    let sel = selected_paths(ps, paths, paths.len() as int);
    let un = unmatched_patterns(ps, paths, 0);
    let r = match_results(paths, seq![p, nq]);
    assert(r == sel + un);
    assert forall|x: Seq<char>|
        paths.contains(x) && pathspec_matches(q, x) implies !r.contains(
        Ok::<Seq<char>, Seq<char>>(x),
    ) by {
        assert(decider(ps, x) == Some(1int));
        if sel.contains(Ok(x)) {
            lemma_selected_paths_are_selected(ps, paths, paths.len() as int, x);
        }
        lemma_unmatched_patterns_are_errors(ps, paths, 0);
        if r.contains(Ok(x)) {
            let k = choose|k: int| 0 <= k < r.len() && #[trigger] r[k] == Ok::<Seq<char>, Seq<char>>(x);
            if k < sel.len() {
                assert(sel[k] == Ok::<Seq<char>, Seq<char>>(x));
                assert(sel.contains(Ok(x)));
            } else {
                assert(un[k - sel.len()] is Err);
            }
        }
    }
    assert(unmatched_patterns(ps, paths, 2) =~= Seq::<Result<Seq<char>, Seq<char>>>::empty());
    assert(!selects_some(ps, paths, 1));
    assert(unmatched_patterns(ps, paths, 1) =~= seq![Err::<Seq<char>, Seq<char>>(q)]);
    assert(un[0] == Err::<Seq<char>, Seq<char>>(q));
    let k = 0int;
    assert(r[sel.len() + k] == Err::<Seq<char>, Seq<char>>(q));
}

/// One line of a hunk: `+` added, `-` removed, anything else context.
#[derive(Clone, Copy)]
pub struct DiffLine {
    pub origin: char,
    pub old_lineno: Option<usize>,
    pub new_lineno: Option<usize>,
}

/// A hunk of a patch: where it starts in the new file, how many lines of the
/// new file it spans, and its lines.
pub struct Hunk {
    pub new_start: usize,
    pub new_lines: usize,
    pub lines: Vec<DiffLine>,
}

/// A path that the change touches, with its patch and its text in the
/// target snapshot (or the error met reading it). `new_file` is set where
/// the base snapshot lacks the file: added to the index or a commit, or
/// untracked in the working tree.
pub struct ChangedFile {
    pub path: String,
    pub new_file: bool,
    pub hunks: Vec<Hunk>,
    pub text: Result<Vec<String>, String>,
}

pub struct HunkModel {
    pub new_start: nat,
    pub new_lines: nat,
    pub lines: Seq<DiffLine>,
}

pub struct FileModel {
    pub path: Seq<char>,
    pub new_file: bool,
    pub hunks: Seq<HunkModel>,
    pub text: Result<Seq<Seq<char>>, Seq<char>>,
}

impl View for Hunk {
    type V = HunkModel;

    open spec fn view(&self) -> HunkModel {
        HunkModel {
            new_start: self.new_start as nat,
            new_lines: self.new_lines as nat,
            lines: self.lines@,
        }
    }
}

impl View for ChangedFile {
    type V = FileModel;

    open spec fn view(&self) -> FileModel {
        FileModel {
            path: self.path@,
            new_file: self.new_file,
            hunks: self.hunks@.map_values(|h: Hunk| h@),
            text: match self.text {
                Ok(lines) => Ok(lines@.map_values(|s: String| s@)),
                Err(e) => Err(e@),
            },
        }
    }
}

pub open spec fn in_range(n: Option<usize>, start: nat, end: nat) -> bool {
    match n {
        Some(k) => start <= k <= end,
        None => false,
    }
}

/// Whether a line of a hunk changes a line of `[start, end]`: an added line
/// by its new number, a removed line by its old one.
pub open spec fn changes_line_in(l: DiffLine, start: nat, end: nat) -> bool {
    (l.origin == '+' && in_range(l.new_lineno, start, end)) || (l.origin == '-' && in_range(
        l.old_lineno,
        start,
        end,
    ))
}

/// Whether hunk `h` reaches line `start` and changes a line of `[start, end]`.
pub open spec fn hunk_changes(h: HunkModel, start: nat, end: nat) -> bool {
    h.new_start + h.new_lines >= start && exists|k: int|
        0 <= k < h.lines.len() && changes_line_in(h.lines[k], start, end)
}

/// The index of the first file of `files` at `path`.
pub open spec fn file_index(files: Seq<FileModel>, path: Seq<char>, i: int) -> Option<int>
    decreases files.len() - i,
{
    if i < 0 || i >= files.len() {
        None
    } else if files[i].path == path {
        Some(i)
    } else {
        file_index(files, path, i + 1)
    }
}

/// Whether the change touches a line of `[start, end]` of `path`: a new
/// file is touched everywhere; otherwise some hunk that starts no later than
/// `end`, with no hunk before it starting later, changes such a line.
pub open spec fn range_modified(files: Seq<FileModel>, path: Seq<char>, start: nat, end: nat) -> bool {
    match file_index(files, path, 0) {
        None => false,
        Some(i) => files[i].new_file || exists|h: int|
            0 <= h < files[i].hunks.len() && (forall|g: int|
                0 <= g <= h ==> files[i].hunks[g].new_start <= end) && hunk_changes(
                files[i].hunks[h],
                start,
                end,
            ),
    }
}

/// A changed line inside a hunk marks every range around it: where the
/// first hunk of `path` starts no later than line `a` and spans it, and one of
/// its lines adds line `a`, each range `[start, end]` holding `a` is modified.
pub proof fn lemma_added_line_marks_its_ranges(
    files: Seq<FileModel>,
    path: Seq<char>,
    i: int,
    k: int,
    a: usize,
    start: nat,
    end: nat,
)
    requires
        file_index(files, path, 0) == Some(i),
        files[i].hunks.len() > 0,
        files[i].hunks[0].new_start <= a <= files[i].hunks[0].new_start
            + files[i].hunks[0].new_lines,
        0 <= k < files[i].hunks[0].lines.len(),
        files[i].hunks[0].lines[k].origin == '+',
        files[i].hunks[0].lines[k].new_lineno == Some(a),
        start <= a <= end,
    ensures
        range_modified(files, path, start, end),
{
    let h = files[i].hunks[0];
    assert(changes_line_in(h.lines[k], start, end));
    assert(hunk_changes(h, start, end));
    assert(forall|g: int| 0 <= g <= 0 ==> files[i].hunks[g].new_start <= end);
}

/// Lines before the first hunk are untouched: where `path` is not a new file
/// and its first hunk (if any) starts after `end`, no range ending at `end`
/// is modified.
pub proof fn lemma_lines_before_first_hunk_untouched(
    files: Seq<FileModel>,
    path: Seq<char>,
    i: int,
    start: nat,
    end: nat,
)
    requires
        file_index(files, path, 0) == Some(i),
        !files[i].new_file,
        files[i].hunks.len() > 0 ==> files[i].hunks[0].new_start > end,
    ensures
        !range_modified(files, path, start, end),
{
    if files[i].hunks.len() > 0 {
        assert(files[i].hunks[0].new_start > end);
    }
}

/// `path` joined to the directory `root`, as `PathBuf::join` does.
pub open spec fn join_path(root: Seq<char>, path: Seq<char>) -> Seq<char> {
    if (path.len() > 0 && path[0] == '/') || root.len() == 0 {
        path
    } else if root[root.len() - 1] == '/' {
        root + path
    } else {
        root + seq!['/'] + path
    }
}

/// Every path is a repository path, and no two files share a path.
pub open spec fn files_well_formed(files: Seq<ChangedFile>) -> bool {
    &&& forall|i: int| 0 <= i < files.len() ==> is_repo_path(#[trigger] files[i].path@)
    &&& forall|i: int, j: int|
        0 <= i < j < files.len() ==> #[trigger] files[i].path@ != #[trigger] files[j].path@
}

/// The change between two snapshots of a working tree: the changed files in
/// the diff's order, the tree's root, and the patterns of the paths that the
/// target revision exempts.
pub struct GitEngine {
    root: String,
    files: Vec<ChangedFile>,
    ignore_patterns: Vec<String>,
}

impl GitEngine {
    pub closed spec fn root(&self) -> Seq<char> {
        self.root@
    }

    pub closed spec fn files(&self) -> Seq<FileModel> {
        self.files@.map_values(|f: ChangedFile| f@)
    }

    pub closed spec fn changed_paths(&self) -> Seq<Seq<char>> {
        self.files@.map_values(|f: ChangedFile| f.path@)
    }

    pub closed spec fn ignore_patterns(&self) -> Seq<Seq<char>> {
        self.ignore_patterns@.map_values(|p: String| p@)
    }

    /// Every changed path is a repository path.
    pub closed spec fn wf(&self) -> bool {
        files_well_formed(self.files@)
    }

    /// The engine over the changed `files` of the tree rooted at `root`, or
    /// `None` when one of their paths is not a repository path or two of
    /// them share a path.
    pub fn new(root: String, files: Vec<ChangedFile>, ignore_patterns: Vec<String>) -> (r: Option<
        GitEngine,
    >)
        ensures
            match r {
                Some(e) => e.wf() && e.root() == root@ && e.files() == files@.map_values(
                    |f: ChangedFile| f@,
                ) && e.changed_paths() == files@.map_values(|f: ChangedFile| f.path@)
                    && e.ignore_patterns() == ignore_patterns@.map_values(|p: String| p@),
                None => !files_well_formed(files@),
            },
    {
        let mut i: usize = 0;
        while i < files.len()
            invariant
                i <= files.len(),
                forall|k: int| 0 <= k < i ==> is_repo_path(#[trigger] files@[k].path@),
                forall|a: int, b: int|
                    0 <= a < b < i ==> #[trigger] files@[a].path@ != #[trigger] files@[b].path@,
            decreases files.len() - i,
        {
            if !is_repo_path_text(files[i].path.as_str()) {
                return None;
            }
            let mut k: usize = 0;
            while k < i
                invariant
                    i < files.len(),
                    k <= i,
                    forall|a: int| 0 <= a < k ==> files@[a].path@ != files@[i as int].path@,
                decreases i - k,
            {
                if files[k].path.eq(&files[i].path) {
                    return None;
                }
                k = k + 1;
            }
            i = i + 1;
        }
        Some(GitEngine { root, files, ignore_patterns })
    }

    /// The absolute path of `path`, which is relative to the tree's root.
    pub fn resolve(&self, path: &str) -> (r: String)
        ensures
            r@ == join_path(self.root(), path@),
    {
        join_paths(self.root.as_str(), path)
    }

    /// The index of the first changed file at `path`.
    fn position(&self, path: &str) -> (r: Option<usize>)
        ensures
            file_index(self.files(), path@, 0) == (match r {
                Some(i) => Some(i as int),
                None => None,
            }),
            r matches Some(i) ==> i < self.files@.len(),
    {
        let mut i: usize = 0;
        while i < self.files.len()
            invariant
                i <= self.files.len(),
                file_index(self.files(), path@, i as int) == file_index(self.files(), path@, 0),
            decreases self.files.len() - i,
        {
            if self.files[i].path.eq(&path.to_owned()) {
                return Some(i);
            }
            i = i + 1;
        }
        None
    }

    /// Whether the change touches a line of the closed interval `range` of `path`.
    pub fn is_range_modified(&self, path: &str, range: (usize, usize)) -> (r: bool)
        ensures
            r == range_modified(self.files(), path@, range.0 as nat, range.1 as nat),
    {
        let (start, end) = range;
        let index = match self.position(path) {
            Some(i) => i,
            None => return false,
        };
        let file = &self.files[index];
        let ghost fm = self.files()[index as int];
        assert(fm == file@);
        if file.new_file {
            return true;
        }
        let mut h: usize = 0;
        while h < file.hunks.len()
            invariant
                fm == file@,
                start == range.0 && end == range.1,
                file_index(self.files(), path@, 0) == Some(index as int),
                self.files()[index as int] == fm,
                !fm.new_file,
                h <= file.hunks.len(),
                forall|g: int| 0 <= g < h ==> fm.hunks[g].new_start <= end,
                forall|g: int|
                    0 <= g < h ==> !hunk_changes(#[trigger] fm.hunks[g], start as nat, end as nat),
            decreases file.hunks.len() - h,
        {
            let hunk = &file.hunks[h];
            let ghost hm = fm.hunks[h as int];
            assert(hm == hunk@);
            if hunk.new_start > end {
                assert(!range_modified(self.files(), path@, start as nat, end as nat)) by {
                    assert forall|x: int|
                        0 <= x < fm.hunks.len() && (forall|g: int|
                            0 <= g <= x ==> fm.hunks[g].new_start <= end) implies !hunk_changes(
                        fm.hunks[x],
                        start as nat,
                        end as nat,
                    ) by {
                        if x >= h {
                            assert(fm.hunks[h as int].new_start > end);
                        }
                    }
                }
                return false;
            }
            let reaches = hunk.new_start >= start || start - hunk.new_start <= hunk.new_lines;
            if reaches {
                let mut k: usize = 0;
                while k < hunk.lines.len()
                    invariant
                        hm == hunk@,
                        fm == file@,
                        start == range.0 && end == range.1,
                        h < fm.hunks.len(),
                        hm == fm.hunks[h as int],
                        hm.new_start <= end,
                        hm.new_start + hm.new_lines >= start,
                        forall|g: int| 0 <= g < h ==> fm.hunks[g].new_start <= end,
                        file_index(self.files(), path@, 0) == Some(index as int),
                        self.files()[index as int] == fm,
                        !fm.new_file,
                        k <= hunk.lines.len(),
                        forall|m: int|
                            0 <= m < k ==> !changes_line_in(
                                #[trigger] hunk.lines@[m],
                                start as nat,
                                end as nat,
                            ),
                    decreases hunk.lines.len() - k,
                {
                    let line = hunk.lines[k];
                    let added = match line.new_lineno {
                        Some(n) => line.origin == '+' && start <= n && n <= end,
                        None => false,
                    };
                    let removed = match line.old_lineno {
                        Some(n) => line.origin == '-' && start <= n && n <= end,
                        None => false,
                    };
                    if added || removed {
                        assert(changes_line_in(hm.lines[k as int], start as nat, end as nat));
                        assert(hunk_changes(hm, start as nat, end as nat));
                        assert(forall|g: int| 0 <= g <= h ==> fm.hunks[g].new_start <= end);
                        return true;
                    }
                    k = k + 1;
                }
                assert(!hunk_changes(hm, start as nat, end as nat));
            }
            h = h + 1;
        }
        assert(!range_modified(self.files(), path@, start as nat, end as nat));
        false
    }

    /// Whether the patterns select `path`, the last pattern that matches it
    /// deciding.
    fn decide(patterns: &Vec<String>, path: &str) -> (r: Option<usize>)
        requires
            is_repo_path(path@),
        ensures
            decider(patterns@.map_values(|p: String| p@), path@) == (match r {
                Some(i) => Some(i as int),
                None => None,
            }),
            r matches Some(i) ==> i < patterns@.len(),
    {
        let ghost ps = patterns@.map_values(|p: String| p@);
        let mut n: usize = patterns.len();
        while n > 0
            invariant
                n <= patterns.len(),
                is_repo_path(path@),
                ps == patterns@.map_values(|p: String| p@),
                last_match(ps, path@, n as int) == decider(ps, path@),
            decreases n,
        {
            assert(ps[n - 1] == patterns@[n - 1]@);
            if !is_inert_text(patterns[n - 1].as_str()) {
                let body = pattern_body_text(patterns[n - 1].as_str());
                if glob_matches(body.as_str(), path) {
                    return Some(n - 1);
                }
            }
            n = n - 1;
        }
        None
    }

    /// Changed paths that `patterns` select, and patterns that select none;
    /// every changed path where no pattern is given.
    pub fn matches(&self, patterns: &Vec<String>) -> (r: Vec<Result<String, String>>)
        requires
            self.wf(),
        ensures
            r@.map_values(|x: Result<String, String>| result_view(x)) == match_results(
                self.changed_paths(),
                patterns@.map_values(|p: String| p@),
            ),
            patterns@.len() == 0 ==> r@.len() == self.changed_paths().len() && forall|i: int|
                0 <= i < r@.len() ==> result_view(#[trigger] r@[i]) == Ok::<Seq<char>, Seq<char>>(
                    self.changed_paths()[i],
                ),
    {
        let ghost paths = self.changed_paths();
        let mut ps: Vec<String> = Vec::new();
        let mut i: usize = 0;
        while i < patterns.len()
            invariant
                i <= patterns.len(),
                ps@.map_values(|p: String| p@) =~= patterns@.map_values(|p: String| p@).take(
                    i as int,
                ).map_values(|p: Seq<char>| unanchored(p)),
            decreases patterns.len() - i,
        {
            let ghost before = ps@.map_values(|p: String| p@);
            let q = unanchored_text(patterns[i].as_str());
            ps.push(q);
            assert(ps@.map_values(|p: String| p@) =~= before.push(q@));
            assert(patterns@.map_values(|p: String| p@).take(i + 1) =~= patterns@.map_values(
                |p: String| p@,
            ).take(i as int).push(patterns@[i as int]@));
            i = i + 1;
        }
        let ghost psv = ps@.map_values(|p: String| p@);
        assert(patterns@.map_values(|p: String| p@).take(i as int) =~= patterns@.map_values(
            |p: String| p@,
        ));
        let mut results: Vec<Result<String, String>> = Vec::new();
        if ps.len() == 0 {
            let mut k: usize = 0;
            while k < self.files.len()
                invariant
                    self.wf(),
                    k <= self.files.len(),
                    paths == self.changed_paths(),
                    results@.map_values(|x: Result<String, String>| result_view(x)) =~= paths.take(
                        k as int,
                    ).map_values(|p: Seq<char>| Ok(p)),
                decreases self.files.len() - k,
            {
                let ghost before = results@.map_values(|x: Result<String, String>| result_view(x));
                let q = self.files[k].path.clone();
                results.push(Ok(q));
                assert(results@.map_values(|x: Result<String, String>| result_view(x)) =~= before.push(
                    Ok(q@),
                ));
                assert(paths.take(k + 1) =~= paths.take(k as int).push(paths[k as int]));
                k = k + 1;
            }
            assert(paths.take(k as int) =~= paths);
            assert forall|i: int| 0 <= i < results@.len() implies result_view(
                #[trigger] results@[i],
            ) == Ok::<Seq<char>, Seq<char>>(paths[i]) by {
                assert(results@.map_values(|x: Result<String, String>| result_view(x))[i]
                    == result_view(results@[i]));
            }
            return results;
        }
        let mut chosen: Vec<bool> = Vec::new();
        let mut k: usize = 0;
        while k < self.files.len()
            invariant
                self.wf(),
                k <= self.files.len(),
                paths == self.changed_paths(),
                psv == ps@.map_values(|p: String| p@),
                chosen@.len() == k,
                forall|m: int| 0 <= m < k ==> selected(psv, paths[m]) == #[trigger] chosen@[m],
                results@.map_values(|x: Result<String, String>| result_view(x)) =~= selected_paths(
                    psv,
                    paths,
                    k as int,
                ),
            decreases self.files.len() - k,
        {
            assert(is_repo_path(self.files@[k as int].path@));
            assert(paths[k as int] == self.files@[k as int].path@);
            let ghost before = results@.map_values(|x: Result<String, String>| result_view(x));
            let d = Self::decide(&ps, self.files[k].path.as_str());
            let mut pick = false;
            if let Some(j) = d {
                assert(psv[j as int] == ps@[j as int]@);
                if !is_negated_text(ps[j].as_str()) {
                    let q = self.files[k].path.clone();
                    results.push(Ok(q));
                    assert(results@.map_values(|x: Result<String, String>| result_view(x))
                        =~= before.push(Ok(q@)));
                    pick = true;
                }
            }
            chosen.push(pick);
            k = k + 1;
        }
        let mut j: usize = ps.len();
        while j > 0
            invariant
                self.wf(),
                j <= ps.len(),
                paths == self.changed_paths(),
                psv == ps@.map_values(|p: String| p@),
                chosen@.len() == paths.len(),
                forall|m: int| 0 <= m < paths.len() ==> selected(psv, paths[m]) == #[trigger] chosen@[m],
                results@.map_values(|x: Result<String, String>| result_view(x)) =~= selected_paths(
                    psv,
                    paths,
                    paths.len() as int,
                ) + unmatched_patterns(psv, paths, j as int),
            decreases j,
        {
            let p = j - 1;
            assert(psv[p as int] == ps@[p as int]@);
            let inert = is_inert_text(ps[p].as_str());
            let body = pattern_body_text(ps[p].as_str());
            let mut used = false;
            if !is_negated_text(ps[p].as_str()) {
                let mut m: usize = 0;
                while m < self.files.len()
                    invariant
                        self.wf(),
                        m <= self.files.len(),
                        paths == self.changed_paths(),
                        chosen@.len() == paths.len(),
                        body@ == pattern_body(psv[p as int]),
                        used == exists|q: int|
                            0 <= q < m && chosen@[q] && pathspec_matches(body@, paths[q]),
                    decreases self.files.len() - m,
                {
                    assert(is_repo_path(self.files@[m as int].path@));
                    assert(paths[m as int] == self.files@[m as int].path@);
                    if chosen[m] && glob_matches(body.as_str(), self.files[m].path.as_str()) {
                        used = true;
                    }
                    m = m + 1;
                }
            }
            proof {
                if used {
                    let q = choose|q: int|
                        0 <= q < paths.len() && chosen@[q] && pathspec_matches(body@, paths[q]);
                    assert(selected(psv, paths[q]));
                } else if !is_negated(psv[p as int]) {
                    assert forall|q: int| 0 <= q < paths.len() && selected(psv, paths[q]) implies !pathspec_matches(
                        pattern_body(psv[p as int]),
                        paths[q],
                    ) by {
                        assert(chosen@[q]);
                    }
                }
            }
            assert(used == selects_some(psv, paths, p as int));
            let ghost before = results@.map_values(|x: Result<String, String>| result_view(x));
            if !inert && !used {
                results.push(Err(body));
                assert(results@.map_values(|x: Result<String, String>| result_view(x)) =~= before.push(
                    Err(body@),
                ));
            }
            j = p;
        }
        results
    }

    /// Whether the target revision exempts `path` from the checks.
    pub fn is_ignored(&self, path: &str) -> (r: bool)
        ensures
            r == (is_repo_path(path@) && selected(self.ignore_patterns(), path@)),
    {
        if !is_repo_path_text(path) {
            return false;
        }
        match Self::decide(&self.ignore_patterns, path) {
            Some(i) => !is_negated_text(self.ignore_patterns[i].as_str()),
            None => false,
        }
    }

    /// The text of the changed file at `path`, if it is one.
    pub fn text(&self, path: &str) -> (r: Option<Result<Vec<String>, String>>)
        ensures
            match file_index(self.files(), path@, 0) {
                None => r is None,
                Some(i) => r matches Some(t) && match t {
                    Ok(lines) => self.files()[i].text == Ok::<Seq<Seq<char>>, Seq<char>>(
                        lines@.map_values(|s: String| s@),
                    ),
                    Err(e) => self.files()[i].text == Err::<Seq<Seq<char>>, Seq<char>>(e@),
                },
            },
    {
        match self.position(path) {
            None => None,
            Some(i) => {
                assert(self.files()[i as int] == self.files@[i as int]@);
                match &self.files[i].text {
                    Ok(lines) => Some(Ok(clone_lines(lines))),
                    Err(e) => Some(Err(e.clone())),
                }
            },
        }
    }
}

/// `path` joined to the directory `root`.
pub fn join_paths(root: &str, path: &str) -> (r: String)
    ensures
        r@ == join_path(root@, path@),
{
    let anchored = path.unicode_len() > 0 && path.get_char(0) == '/';
    let n = root.unicode_len();
    if anchored || n == 0 {
        return path.to_owned();
    }
    if root.get_char(n - 1) == '/' {
        return root.to_owned().concat(path);
    }
    let r = root.to_owned().concat("/");
    proof {
        reveal_strlit("/");
    }
    assert(r@ =~= root@ + seq!['/']);
    r.concat(path)
}

pub open spec fn result_view(x: Result<String, String>) -> Result<Seq<char>, Seq<char>> {
    match x {
        Ok(s) => Ok(s@),
        Err(s) => Err(s@),
    }
}

fn clone_lines(lines: &Vec<String>) -> (r: Vec<String>)
    ensures
        r@.map_values(|s: String| s@) == lines@.map_values(|s: String| s@),
{
    let mut r: Vec<String> = Vec::new();
    let mut i: usize = 0;
    while i < lines.len()
        invariant
            i <= lines.len(),
            r@.map_values(|s: String| s@) =~= lines@.map_values(|s: String| s@).take(i as int),
        decreases lines.len() - i,
    {
        let ghost before = r@.map_values(|s: String| s@);
        let q = lines[i].clone();
        r.push(q);
        assert(r@.map_values(|s: String| s@) =~= before.push(q@));
        assert(lines@.map_values(|s: String| s@).take(i + 1) =~= lines@.map_values(|s: String| s@).take(
            i as int,
        ).push(lines@[i as int]@));
        i = i + 1;
    }
    assert(lines@.map_values(|s: String| s@).take(i as int) =~= lines@.map_values(|s: String| s@));
    r
}

fn is_inert_text(p: &str) -> (r: bool)
    ensures
        r == is_inert(p@),
{
    let n = p.unicode_len();
    n == 0 || p.get_char(0) == '#' || (n == 1 && p.get_char(0) == '!')
}

fn is_negated_text(p: &str) -> (r: bool)
    ensures
        r == is_negated(p@),
{
    p.unicode_len() > 0 && p.get_char(0) == '!'
}

fn pattern_body_text(p: &str) -> (r: String)
    ensures
        r@ == pattern_body(p@),
{
    let n = p.unicode_len();
    if is_negated_text(p) {
        p.substring_char(1, n).to_owned()
    } else {
        p.to_owned()
    }
}

fn unanchored_text(p: &str) -> (r: String)
    ensures
        r@ == unanchored(p@),
{
    let n = p.unicode_len();
    if n > 0 && p.get_char(0) == '/' {
        p.substring_char(1, n).to_owned()
    } else {
        p.to_owned()
    }
}

} // verus!
