use vstd::prelude::*;

use crate::messages::{
    empty_path, missing_close_paren, missing_if_changed, missing_open_paren, missing_then_change,
    msg_empty_path, msg_missing_close_paren, msg_missing_if_changed, msg_missing_open_paren,
    msg_missing_then_change, msg_unclosed_name, unclosed_name,
};
use crate::text::{
    chars_of, find, find_char, find_char_from, index_of, is_white_space, is_whitespace,
    occurs_at, push_all, skip_comment, string_of, token_end, trim, trim_start, trimmed_chars,
    ws_end, NumberedLine, StringRef,
};

verus! {

/// One target of a `then-change`: a path pattern relative to the directory
/// of the annotated file (empty for the file itself), with an optional block
/// name, and the line of the `then-change` that declared it.
pub struct Pattern {
    pub name: Option<String>,
    pub value: String,
    pub line: usize,
}

/// A region delimited by `if-changed` and its `then-change`: `range` is the
/// closed interval of 1-based lines from one marker to the other.
pub struct IfChangedBlock {
    pub name: Option<String>,
    pub range: (usize, usize),
    pub patterns: Vec<Pattern>,
}

pub struct PatternModel {
    pub name: Option<Seq<char>>,
    pub value: Seq<char>,
    pub line: nat,
}

pub struct BlockModel {
    pub name: Option<Seq<char>>,
    pub start: nat,
    pub end: nat,
    pub patterns: Seq<PatternModel>,
}

/// What the parser yields at each step: a block, or the errors that end the parse.
pub type ItemModel = Result<BlockModel, Seq<Seq<char>>>;

/// A block that is open: its name and the line of its `if-changed`.
pub type OpenModel = (Option<Seq<char>>, nat);

pub open spec fn name_view(name: Option<String>) -> Option<Seq<char>> {
    match name {
        Some(s) => Some(s@),
        None => None,
    }
}

impl View for Pattern {
    type V = PatternModel;

    open spec fn view(&self) -> PatternModel {
        PatternModel { name: name_view(self.name), value: self.value@, line: self.line as nat }
    }
}

impl View for IfChangedBlock {
    type V = BlockModel;

    open spec fn view(&self) -> BlockModel {
        BlockModel {
            name: name_view(self.name),
            start: self.range.0 as nat,
            end: self.range.1 as nat,
            patterns: self.patterns@.map_values(|p: Pattern| p@),
        }
    }
}

pub open spec fn errors_view(e: Vec<String>) -> Seq<Seq<char>> {
    e@.map_values(|s: String| s@)
}

pub open spec fn item_view(item: Result<IfChangedBlock, Vec<String>>) -> ItemModel {
    match item {
        Ok(b) => Ok(b@),
        Err(e) => Err(errors_view(e)),
    }
}

pub open spec fn lines_view(lines: Seq<String>) -> Seq<Seq<char>> {
    lines.map_values(|s: String| s@)
}

/// After `if-changed`: an optional parenthesized name. Gives the name and
/// what follows it, or the error of an unclosed name.
pub open spec fn block_name(path: Seq<char>, n: nat, t: Seq<char>) -> Result<
    (Option<Seq<char>>, Seq<char>),
    Seq<char>,
> {
    let u = trim_start(t);
    if occurs_at(u, "("@, 0) {
        let v = u.skip("("@.len() as int);
        match find_char(v, ')') {
            None => Err(msg_unclosed_name(n, path)),
            Some(e) => Ok((Some(trim(v.take(e))), v.skip(e + 1))),
        }
    } else {
        Ok((None, u))
    }
}

/// The start of line `n`: `Some(name)` where it opens a block, with what
/// remains of the line.
pub open spec fn block_marker(path: Seq<char>, n: nat, line: Seq<char>) -> Result<
    (Option<Option<Seq<char>>>, Seq<char>),
    Seq<char>,
> {
    let s = trim_start(skip_comment(line));
    if occurs_at(s, "if-changed"@, 0) {
        match block_name(path, n, s.skip("if-changed"@.len() as int)) {
            Err(m) => Err(m),
            Ok((name, rest)) => Ok((Some(name), rest)),
        }
    } else {
        Ok((None, s))
    }
}

/// What follows the first `then-change` of `s`, if any.
pub open spec fn after_then_change(s: Seq<char>) -> Option<Seq<char>> {
    match find(s, "then-change"@) {
        Some(i) => Some(s.skip(i + "then-change"@.len())),
        None => None,
    }
}

/// Where the text of an entry ends on a line that holds no backslash past
/// `from`: at the first comma from `from` on, else at the first `)`, else at
/// the end of the line. Gives that index, the length of the delimiter and
/// whether it closes the list.
pub open spec fn entry_end(s: Seq<char>, from: int) -> (int, int, bool) {
    match find_char_from(s, ',', from) {
        Some(c) => (c, 1, false),
        None => match find_char_from(s, ')', from) {
            Some(p) => (p, 1, true),
            None => (s.len() as int, 0, false),
        },
    }
}

/// Where the search for delimiters starts on `rest`: past its first
/// character when a backslash escaped it and trimming leaves it in place.
pub open spec fn scan_start(rest: Seq<char>, escaped: bool) -> int {
    if escaped && rest.len() > 0 && !is_white_space(rest[0]) {
        1
    } else {
        0
    }
}

/// The obligation that a complete entry declares, or `None` for an entry
/// with no text.
pub open spec fn entry_pattern(buf: Seq<char>, tc: nat) -> Option<PatternModel> {
    match find_char(buf, ':') {
        Some(c) => Some(
            PatternModel { name: Some(trim(buf.skip(c + 1))), value: trim(buf.take(c)), line: tc },
        ),
        None => if buf.len() == 0 {
            None
        } else {
            Some(PatternModel { name: None, value: buf, line: tc })
        },
    }
}

/// One step of reading the argument list of the `then-change` of line `tc`.
/// `number` is the current line, `rest` what remains of it (its first
/// character taken literally where `escaped`), `buf` the text of the entry
/// read so far, `entry_line` the line where it began (0 before it begins)
/// and `acc` the entries already complete. A backslash flushes the trimmed
/// text before it, and the character after it starts the next piece without
/// acting as a delimiter. Gives the entries, or an error, together with the
/// line where reading stopped.
pub open spec fn paths_loop(
    lines: Seq<Seq<char>>,
    path: Seq<char>,
    tc: nat,
    number: nat,
    rest: Seq<char>,
    escaped: bool,
    buf: Seq<char>,
    entry_line: nat,
    acc: Seq<PatternModel>,
) -> (Result<Seq<PatternModel>, Seq<char>>, nat)
    decreases lines.len() - number, rest.len(),
    via paths_loop_decreases
{
    let s = trim_start(rest);
    let from = scan_start(rest, escaped);
    if s.len() == 0 {
        if number >= lines.len() {
            (Err(msg_missing_close_paren(tc, path)), number)
        } else {
            paths_loop(
                lines,
                path,
                tc,
                number + 1,
                skip_comment(lines[number as int]),
                false,
                buf,
                entry_line,
                acc,
            )
        }
    } else {
        let el = if entry_line == 0 {
            number
        } else {
            entry_line
        };
        match find_char_from(s, '\\', from) {
            Some(i) => paths_loop(
                lines,
                path,
                tc,
                number,
                s.skip(i + 1),
                i + 1 < s.len(),
                buf + trim(s.take(i)),
                el,
                acc,
            ),
            None => {
                let (idx, len, close) = entry_end(s, from);
                let b = buf + trim(s.take(idx));
                let r = s.skip(idx + len);
                match entry_pattern(b, tc) {
                    None => if close {
                        (Ok(acc), number)
                    } else {
                        (Err(msg_empty_path(el, tc, path)), number)
                    },
                    Some(p) => if close {
                        (Ok(acc.push(p)), number)
                    } else {
                        paths_loop(lines, path, tc, number, r, false, Seq::empty(), 0, acc.push(p))
                    },
                }
            },
        }
    }
}

pub proof fn lemma_ws_end(s: Seq<char>, i: int)
    requires
        0 <= i <= s.len(),
    ensures
        i <= ws_end(s, i) <= s.len(),
        ws_end(s, i) < s.len() ==> !is_white_space(s[ws_end(s, i)]),
    decreases s.len() - i,
{
    if i < s.len() && is_white_space(s[i]) {
        lemma_ws_end(s, i + 1);
    }
}

pub proof fn lemma_find_char(s: Seq<char>, c: char, i: int)
    requires
        0 <= i,
    ensures
        find_char_from(s, c, i) matches Some(k) ==> i <= k < s.len() && s[k] == c,
    decreases s.len() - i,
{
    if i < s.len() && s[i] != c {
        lemma_find_char(s, c, i + 1);
    }
}

pub proof fn lemma_trim_start_len(s: Seq<char>)
    ensures
        trim_start(s).len() <= s.len(),
        trim_start(s).len() > 0 ==> !is_white_space(trim_start(s)[0]),
{
    lemma_ws_end(s, 0);
}

#[via_fn]
proof fn paths_loop_decreases(
    lines: Seq<Seq<char>>,
    path: Seq<char>,
    tc: nat,
    number: nat,
    rest: Seq<char>,
    escaped: bool,
    buf: Seq<char>,
    entry_line: nat,
    acc: Seq<PatternModel>,
) {
    let s = trim_start(rest);
    let from = scan_start(rest, escaped);
    lemma_trim_start_len(rest);
    lemma_find_char(s, '\\', from);
    lemma_find_char(s, ',', from);
    lemma_find_char(s, ')', from);
}

/// Reading the argument list never goes back, nor past the last line.
pub proof fn lemma_paths_loop_number(
    lines: Seq<Seq<char>>,
    path: Seq<char>,
    tc: nat,
    number: nat,
    rest: Seq<char>,
    escaped: bool,
    buf: Seq<char>,
    entry_line: nat,
    acc: Seq<PatternModel>,
)
    ensures
        number <= paths_loop(lines, path, tc, number, rest, escaped, buf, entry_line, acc).1,
        number <= lines.len() ==> paths_loop(
            lines,
            path,
            tc,
            number,
            rest,
            escaped,
            buf,
            entry_line,
            acc,
        ).1 <= lines.len(),
    decreases lines.len() - number, rest.len(),
{
    let s = trim_start(rest);
    let from = scan_start(rest, escaped);
    lemma_trim_start_len(rest);
    lemma_find_char(s, '\\', from);
    lemma_find_char(s, ',', from);
    lemma_find_char(s, ')', from);
    if s.len() == 0 {
        if number < lines.len() {
            lemma_paths_loop_number(
                lines,
                path,
                tc,
                number + 1,
                skip_comment(lines[number as int]),
                false,
                buf,
                entry_line,
                acc,
            );
        }
    } else {
        let el = if entry_line == 0 {
            number
        } else {
            entry_line
        };
        match find_char_from(s, '\\', from) {
            Some(i) => {
                lemma_paths_loop_number(
                    lines,
                    path,
                    tc,
                    number,
                    s.skip(i + 1),
                    i + 1 < s.len(),
                    buf + trim(s.take(i)),
                    el,
                    acc,
                );
            },
            None => {
                let (idx, len, close) = entry_end(s, from);
                let b = buf + trim(s.take(idx));
                let r = s.skip(idx + len);
                if let Some(p) = entry_pattern(b, tc) {
                    if !close {
                        lemma_paths_loop_number(
                            lines,
                            path,
                            tc,
                            number,
                            r,
                            false,
                            Seq::empty(),
                            0,
                            acc.push(p),
                        );
                    }
                }
            },
        }
    }
}

/// The argument list of the `then-change` of line `tc`, from `rest` on.
pub open spec fn then_change_paths(
    lines: Seq<Seq<char>>,
    path: Seq<char>,
    tc: nat,
    rest: Seq<char>,
) -> (Result<Seq<PatternModel>, Seq<char>>, nat) {
    let s = trim_start(rest);
    if occurs_at(s, "("@, 0) {
        paths_loop(
            lines,
            path,
            tc,
            tc,
            s.skip("("@.len() as int),
            false,
            Seq::empty(),
            0,
            Seq::empty(),
        )
    } else {
        (Err(msg_missing_open_paren(tc, path)), tc)
    }
}

pub open spec fn unclosed_errors(path: Seq<char>, open: Seq<OpenModel>) -> Seq<Seq<char>> {
    open.map_values(|o: OpenModel| msg_missing_then_change(o.1, path))
}

/// The blocks and errors that the lines of `path` yield once `number` lines
/// have been read with the blocks of `open` still open. Blocks come in the
/// order of their `then-change`; an error ends the sequence.
pub open spec fn items_from(
    lines: Seq<Seq<char>>,
    path: Seq<char>,
    number: nat,
    open: Seq<OpenModel>,
) -> Seq<ItemModel>
    decreases lines.len() - number,
    via items_from_decreases
{
    if number >= lines.len() {
        if open.len() == 0 {
            Seq::empty()
        } else {
            seq![Err(unclosed_errors(path, open))]
        }
    } else {
        let n = number + 1;
        match block_marker(path, n, lines[number as int]) {
            Err(m) => seq![Err(seq![m])],
            Ok((marker, rest)) => {
                let open2 = match marker {
                    Some(name) => open.push((name, n)),
                    None => open,
                };
                match after_then_change(rest) {
                    None => items_from(lines, path, n, open2),
                    Some(after) => {
                        let (res, n2) = then_change_paths(lines, path, n, after);
                        match res {
                            Err(m) => seq![
                                Err(
                                    if open2.len() == 0 {
                                        seq![msg_missing_if_changed(n, path), m]
                                    } else {
                                        seq![m]
                                    },
                                ),
                            ],
                            Ok(patterns) => if open2.len() == 0 {
                                seq![Err(seq![msg_missing_if_changed(n, path)])]
                            } else {
                                seq![
                                    Ok(
                                        BlockModel {
                                            name: open2.last().0,
                                            start: open2.last().1,
                                            end: n,
                                            patterns,
                                        },
                                    ),
                                ] + items_from(lines, path, n2, open2.drop_last())
                            },
                        }
                    },
                }
            },
        }
    }
}

#[via_fn]
proof fn items_from_decreases(
    lines: Seq<Seq<char>>,
    path: Seq<char>,
    number: nat,
    open: Seq<OpenModel>,
) {
    if number < lines.len() {
        let n = number + 1;
        if let Ok((marker, rest)) = block_marker(path, n, lines[number as int]) {
            if let Some(after) = after_then_change(rest) {
                let s = trim_start(after);
                if occurs_at(s, "("@, 0) {
                    lemma_paths_loop_number(
                        lines,
                        path,
                        n,
                        n,
                        s.skip("("@.len() as int),
                        false,
                        Seq::empty(),
                        0,
                        Seq::empty(),
                    );
                }
            }
        }
    }
}

/// What follows the first occurrence of `lit` in `s`, if any.
pub open spec fn after_then_change_of(s: Seq<char>, lit: Seq<char>) -> Option<Seq<char>> {
    match find(s, lit) {
        Some(i) => Some(s.skip(i + lit.len())),
        None => None,
    }
}

/// All that a file yields, from its first line.
pub open spec fn file_items(lines: Seq<Seq<char>>, path: Seq<char>) -> Seq<ItemModel> {
    items_from(lines, path, 0, Seq::empty())
}

pub open spec fn patterns_view(v: Seq<Pattern>) -> Seq<PatternModel> {
    v.map_values(|p: Pattern| p@)
}

pub open spec fn marker_view(m: Option<Option<String>>) -> Option<Option<Seq<char>>> {
    match m {
        Some(name) => Some(name_view(name)),
        None => None,
    }
}

/// Reads the annotation blocks of one file, line by line.
pub struct Parser {
    path: String,
    lines: Vec<String>,
    line: NumberedLine,
    open: Vec<(Option<String>, usize)>,
    finished: bool,
}

impl Parser {
    pub closed spec fn wf(&self) -> bool {
        self.line.number <= self.lines.len()
    }

    pub closed spec fn path_view(&self) -> Seq<char> {
        self.path@
    }

    pub closed spec fn lines_model(&self) -> Seq<Seq<char>> {
        lines_view(self.lines@)
    }

    closed spec fn open_model(&self) -> Seq<OpenModel> {
        self.open@.map_values(|o: (Option<String>, usize)| (name_view(o.0), o.1 as nat))
    }

    /// What the parser has yet to yield.
    pub closed spec fn items(&self) -> Seq<ItemModel> {
        if self.finished {
            Seq::empty()
        } else {
            items_from(self.lines_model(), self.path@, self.line.number as nat, self.open_model())
        }
    }

    closed spec fn same_source(&self, other: &Parser) -> bool {
        self.path == other.path && self.lines == other.lines
    }

    closed spec fn only_line_moved(&self, other: &Parser) -> bool {
        self.same_source(other) && self.open == other.open && self.finished == other.finished
    }

    /// A parser over the lines of the file at `path`; the path only names
    /// the file in messages.
    pub fn new(path: String, lines: Vec<String>) -> (r: Parser)
        ensures
            r.wf(),
            r.path_view() == path@,
            r.lines_model() == lines_view(lines@),
            r.items() == file_items(lines_view(lines@), path@),
    {
        let r = Parser {
            path,
            lines,
            line: NumberedLine::new(0, String::new()),
            open: Vec::new(),
            finished: false,
        };
        assert(r.open_model() =~= Seq::<OpenModel>::empty());
        r
    }

    fn next_line(&mut self) -> (r: bool)
        requires
            old(self).wf(),
        ensures
            final(self).wf(),
            final(self).only_line_moved(old(self)),
            r == (old(self).line.number < old(self).lines.len()),
            r ==> final(self).line.number == old(self).line.number + 1 && final(self).line.value@
                == old(self).lines_model()[old(self).line.number as int],
            !r ==> final(self).line.number == old(self).line.number,
    {
        if self.line.number < self.lines.len() {
            let number = self.line.number;
            let text = self.lines[number].clone();
            self.line = NumberedLine::new(number + 1, text);
            true
        } else {
            false
        }
    }

    fn skip_whitespaces(&mut self)
        requires
            old(self).wf(),
        ensures
            final(self).wf(),
            final(self).only_line_moved(old(self)),
            final(self).line.number == old(self).line.number,
            final(self).line.value@ == trim_start(old(self).line.value@),
    {
        let skip = |l: &StringRef| -> (n: usize)
            ensures
                n == ws_end(l@, 0),
                n <= l@.len(),
            { l.whitespace_len() };
        self.line.value.modify_with(skip);
    }

    fn skip_comments(&mut self)
        requires
            old(self).wf(),
        ensures
            final(self).wf(),
            final(self).only_line_moved(old(self)),
            final(self).line.number == old(self).line.number,
            final(self).line.value@ == skip_comment(old(self).line.value@),
    {
        self.skip_whitespaces();
        let f = |l: &StringRef| -> (n: usize)
            ensures
                n == token_end(l@, 0),
                n <= l@.len(),
            { l.comment_token_len() };
        self.line.value.modify_with(f);
    }

    fn skip_whitespaces_and_eat(&mut self, value: &Vec<char>) -> (r: bool)
        requires
            old(self).wf(),
        ensures
            final(self).wf(),
            final(self).only_line_moved(old(self)),
            final(self).line.number == old(self).line.number,
            r == occurs_at(trim_start(old(self).line.value@), value@, 0),
            final(self).line.value@ == if r {
                trim_start(old(self).line.value@).skip(value@.len() as int)
            } else {
                trim_start(old(self).line.value@)
            },
    {
        self.skip_whitespaces();
        let n = value.len();
        let f = |l: &StringRef| -> (r: Option<usize>)
            ensures
                r == (if occurs_at(l@, value@, 0) {
                    Some(n)
                } else {
                    None
                }),
            {
                if l.starts_with(value) {
                    Some(n)
                } else {
                    None
                }
            };
        self.line.value.try_modify_with(f)
    }

    fn find_and_eat(&mut self, value: &Vec<char>) -> (r: bool)
        requires
            old(self).wf(),
        ensures
            final(self).wf(),
            final(self).only_line_moved(old(self)),
            final(self).line.number == old(self).line.number,
            r == (after_then_change_of(old(self).line.value@, value@) is Some),
            r ==> final(self).line.value@ == after_then_change_of(
                old(self).line.value@,
                value@,
            )->0,
    {
        let f = |l: &StringRef| -> (r: Option<usize>)
            ensures
                match r {
                    Some(k) => k <= l@.len() && find(l@, value@) == Some(k - value@.len()),
                    None => find(l@, value@) is None,
                },
            {
                match l.find(value) {
                    Some(i) => Some(i + value.len()),
                    None => None,
                }
            };
        self.line.value.try_modify_with(f)
    }

    fn parse_if_changed_name(&mut self) -> (r: Result<Option<String>, String>)
        requires
            old(self).wf(),
        ensures
            final(self).wf(),
            final(self).only_line_moved(old(self)),
            final(self).line.number == old(self).line.number,
            match block_name(
                old(self).path@,
                old(self).line.number as nat,
                old(self).line.value@,
            ) {
                Err(m) => r matches Err(e) && e@ == m,
                Ok((name, rest)) => r matches Ok(n) && name_view(n) == name
                    && final(self).line.value@ == rest,
            },
    {
        let paren = chars_of("(");
        if !self.skip_whitespaces_and_eat(&paren) {
            return Ok(None);
        }
        let end = match self.line.value.find_char(')') {
            Some(end) => end,
            None => {
                return Err(unclosed_name(self.line.number, self.path.as_str()));
            },
        };
        let ghost v = self.line.value@;
        let id = self.line.value.trimmed(0, end);
        let id = string_of(id.as_slice());
        assert(v.subrange(0, end as int) =~= v.take(end as int));
        let k = end + 1;
        let f = |l: &StringRef| -> (n: usize)
            ensures
                n == k,
            { k };
        self.line.value.modify_with(f);
        Ok(Some(id))
    }

    fn parse_if_changed(&mut self) -> (r: Result<Option<Option<String>>, String>)
        requires
            old(self).wf(),
        ensures
            final(self).wf(),
            final(self).only_line_moved(old(self)),
            final(self).line.number == old(self).line.number,
            match block_marker(
                old(self).path@,
                old(self).line.number as nat,
                old(self).line.value@,
            ) {
                Err(m) => r matches Err(e) && e@ == m,
                Ok((marker, rest)) => r matches Ok(x) && marker_view(x) == marker
                    && final(self).line.value@ == rest,
            },
    {
        self.skip_comments();
        let word = chars_of("if-changed");
        if self.skip_whitespaces_and_eat(&word) {
            match self.parse_if_changed_name() {
                Ok(name) => Ok(Some(name)),
                Err(e) => Err(e),
            }
        } else {
            Ok(None)
        }
    }

    /// The argument list that starts at the cursor.
    closed spec fn argument_list(&self) -> (Result<Seq<PatternModel>, Seq<char>>, nat) {
        then_change_paths(self.lines_model(), self.path@, self.line.number as nat, self.line.value@)
    }

    fn parse_then_change_paths(&mut self) -> (r: Result<Vec<Pattern>, String>)
        requires
            old(self).wf(),
        ensures
            final(self).wf(),
            final(self).only_line_moved(old(self)),
            final(self).line.number == old(self).argument_list().1,
            match old(self).argument_list().0 {
                Ok(p) => r matches Ok(v) && patterns_view(v@) == p,
                Err(m) => r matches Err(e) && e@ == m,
            },
    {
        let tc = self.line.number;
        let ghost lines = self.lines_model();
        let ghost path = self.path@;
        let ghost goal = then_change_paths(lines, path, tc as nat, self.line.value@);
        let paren = chars_of("(");
        if !self.skip_whitespaces_and_eat(&paren) {
            return Err(missing_open_paren(tc, self.path.as_str()));
        }
        let mut related: Vec<Pattern> = Vec::new();
        let mut buffer: Vec<char> = Vec::new();
        let mut pattern_line: usize = 0;
        let mut escaped = false;
        assert(patterns_view(related@) =~= Seq::<PatternModel>::empty());
        loop
            invariant
                self.wf(),
                self.only_line_moved(old(self)),
                lines == self.lines_model(),
                path == self.path@,
                tc == old(self).line.number,
                goal == old(self).argument_list(),
                paths_loop(
                    lines,
                    path,
                    tc as nat,
                    self.line.number as nat,
                    self.line.value@,
                    escaped,
                    buffer@,
                    pattern_line as nat,
                    patterns_view(related@),
                ) == goal,
            decreases lines.len() - self.line.number, self.line.value@.len(),
        {
            let ghost rest = self.line.value@;
            let ghost acc = patterns_view(related@);
            let from: usize = if escaped && self.line.value.len() > 0 && !is_whitespace(
                self.line.value.at(0),
            ) {
                1
            } else {
                0
            };
            assert(from == scan_start(rest, escaped));
            proof {
                if from == 1 {
                    assert(ws_end(rest, 0) == 0);
                    assert(rest.skip(0) =~= rest);
                }
            }
            self.skip_whitespaces();
            proof {
                lemma_trim_start_len(rest);
            }
            let len = self.line.value.len();
            if len == 0 {
                if !self.next_line() {
                    return Err(missing_close_paren(tc, self.path.as_str()));
                }
                self.skip_comments();
                escaped = false;
                continue;
            }
            if pattern_line == 0 {
                pattern_line = self.line.number;
            }
            match self.line.value.find_char_after('\\', from) {
                Some(i) => {
                    let ghost s = self.line.value@;
                    let ghost buf0 = buffer@;
                    let piece = self.line.value.trimmed(0, i);
                    push_all(&mut buffer, &piece);
                    assert(s.subrange(0, i as int) =~= s.take(i as int));
                    let j = i + 1;
                    escaped = j < len;
                    let f = |l: &StringRef| -> (n: usize)
                        ensures
                            n == j,
                        { j };
                    self.line.value.modify_with(f);
                },
                None => {
                    let ghost s = self.line.value@;
                    let (index, skip, close) = match self.line.value.find_char_after(',', from) {
                        Some(c) => (c, c + 1, false),
                        None => match self.line.value.find_char_after(')', from) {
                            Some(p) => (p, p + 1, true),
                            None => (len, len, false),
                        },
                    };
                    assert(entry_end(s, from as int) == (index as int, skip - index, close));
                    escaped = false;
                    let ghost buf0 = buffer@;
                    let piece = self.line.value.trimmed(0, index);
                    assert(s.subrange(0, index as int) =~= s.take(index as int));
                    push_all(&mut buffer, &piece);
                    assert(buffer@ == buf0 + trim(s.take(index as int)));
                    let f = |l: &StringRef| -> (n: usize)
                        ensures
                            n == skip,
                        { skip };
                    self.line.value.modify_with(f);
                    let ghost b = buffer@;
                    match index_of(&buffer, ':') {
                        Some(c) => {
                            let value = trimmed_chars(&buffer, 0, c);
                            let blen = buffer.len();
                            let name = trimmed_chars(&buffer, c + 1, blen);
                            assert(b.subrange(0, c as int) =~= b.take(c as int));
                            assert(b.subrange(c + 1, b.len() as int) =~= b.skip(c + 1));
                            related.push(
                                Pattern {
                                    name: Some(string_of(name.as_slice())),
                                    value: string_of(value.as_slice()),
                                    line: tc,
                                },
                            );
                        },
                        None => {
                            if buffer.len() == 0 {
                                if close {
                                    return Ok(related);
                                }
                                return Err(empty_path(pattern_line, tc, self.path.as_str()));
                            }
                            related.push(
                                Pattern { name: None, value: string_of(buffer.as_slice()), line: tc },
                            );
                        },
                    }
                    assert(patterns_view(related@) =~= acc.push(entry_pattern(b, tc as nat)->0));
                    if close {
                        return Ok(related);
                    }
                    pattern_line = 0;
                    buffer = Vec::new();
                },
            }
        }
    }

    fn parse_then_change(&mut self) -> (r: Result<Option<(Vec<Pattern>, usize)>, String>)
        requires
            old(self).wf(),
        ensures
            final(self).wf(),
            final(self).only_line_moved(old(self)),
            match after_then_change(old(self).line.value@) {
                None => r matches Ok(None) && final(self).line.number == old(self).line.number,
                Some(after) => {
                    let (res, n2) = then_change_paths(
                        old(self).lines_model(),
                        old(self).path@,
                        old(self).line.number as nat,
                        after,
                    );
                    final(self).line.number == n2 && match res {
                        Ok(p) => r matches Ok(Some((v, tc))) && patterns_view(v@) == p && tc
                            == old(self).line.number,
                        Err(m) => r matches Err(e) && e@ == m,
                    }
                },
            },
    {
        let word = chars_of("then-change");
        if self.find_and_eat(&word) {
            let line = self.line.number;
            match self.parse_then_change_paths() {
                Ok(specs) => Ok(Some((specs, line))),
                Err(e) => Err(e),
            }
        } else {
            Ok(None)
        }
    }

    /// The next block of the file, or the errors that end the parse; `None`
    /// once everything has been yielded.
    pub fn next(&mut self) -> (r: Option<Result<IfChangedBlock, Vec<String>>>)
        requires
            old(self).wf(),
        ensures
            final(self).wf(),
            final(self).path_view() == old(self).path_view(),
            final(self).lines_model() == old(self).lines_model(),
            match r {
                None => old(self).items().len() == 0 && final(self).items().len() == 0,
                Some(item) => old(self).items() == seq![item_view(item)] + final(self).items(),
            },
    {
        if self.finished {
            return None;
        }
        let ghost goal = self.items();
        let ghost lines = self.lines_model();
        loop
            invariant
                self.wf(),
                self.same_source(old(self)),
                lines == self.lines_model(),
                !self.finished,
                goal == old(self).items(),
                self.items() == goal,
            decreases lines.len() - self.line.number,
        {
            let ghost open0 = self.open_model();
            if !self.next_line() {
                self.finished = true;
                if self.open.len() == 0 {
                    return None;
                }
                let mut errors: Vec<String> = Vec::new();
                let mut i: usize = 0;
                while i < self.open.len()
                    invariant
                        self.wf(),
                        self.same_source(old(self)),
                        open0 == self.open_model(),
                        i <= self.open.len(),
                        errors_view(errors) =~= unclosed_errors(self.path@, open0).take(i as int),
                    decreases self.open.len() - i,
                {
                    let ghost before = errors_view(errors);
                    errors.push(missing_then_change(self.open[i].1, self.path.as_str()));
                    assert(errors_view(errors) =~= before.push(
                        msg_missing_then_change(open0[i as int].1, self.path@),
                    ));
                    i = i + 1;
                }
                assert(unclosed_errors(self.path@, open0).take(i as int) =~= unclosed_errors(
                    self.path@,
                    open0,
                ));
                self.open = Vec::new();
                return Some(Err(errors));
            }
            let marker = match self.parse_if_changed() {
                Ok(marker) => marker,
                Err(e) => {
                    self.finished = true;
                    let errors = vec![e];
                    assert(errors_view(errors) =~= seq![e@]);
                    return Some(Err(errors));
                },
            };
            if let Some(name) = marker {
                self.open.push((name, self.line.number));
            }
            let ghost open2 = self.open_model();
            assert(open2 =~= match marker_view(marker) {
                Some(name) => open0.push((name, self.line.number as nat)),
                None => open0,
            });
            let marker_line = self.line.number;
            match self.parse_then_change() {
                Err(e) => {
                    self.finished = true;
                    let mut errors: Vec<String> = Vec::new();
                    if self.open.pop().is_none() {
                        errors.push(missing_if_changed(marker_line, self.path.as_str()));
                    }
                    errors.push(e);
                    assert(errors_view(errors) =~= (if open2.len() == 0 {
                        seq![msg_missing_if_changed(marker_line as nat, self.path@), e@]
                    } else {
                        seq![e@]
                    }));
                    return Some(Err(errors));
                },
                Ok(None) => {},
                Ok(Some((patterns, end))) => {
                    match self.open.pop() {
                        None => {
                            self.finished = true;
                            let errors = vec![missing_if_changed(end, self.path.as_str())];
                            assert(errors_view(errors) =~= seq![
                                msg_missing_if_changed(end as nat, self.path@),
                            ]);
                            return Some(Err(errors));
                        },
                        Some((name, start)) => {
                            assert(self.open_model() =~= open2.drop_last());
                            let block = IfChangedBlock { name, range: (start, end), patterns };
                            return Some(Ok(block));
                        },
                    }
                },
            }
        }
    }
}

/// What collecting a sequence of items gives: every block, or the first error.
pub open spec fn collect_items(items: Seq<ItemModel>) -> Result<Seq<BlockModel>, Seq<Seq<char>>>
    decreases items.len(),
{
    if items.len() == 0 {
        Ok(Seq::empty())
    } else {
        match items[0] {
            Err(e) => Err(e),
            Ok(b) => match collect_items(items.drop_first()) {
                Ok(bs) => Ok(seq![b] + bs),
                Err(e) => Err(e),
            },
        }
    }
}

/// Every block of the file at `path` whose lines are `lines`, in the order of
/// their `then-change`, or the errors of the first malformed annotation.
pub fn parse(path: &str, lines: Vec<String>) -> (r: Result<Vec<IfChangedBlock>, Vec<String>>)
    ensures
        match collect_items(file_items(lines_view(lines@), path@)) {
            Ok(bs) => r matches Ok(v) && v@.map_values(|b: IfChangedBlock| b@) == bs,
            Err(e) => r matches Err(v) && errors_view(v) == e,
        },
{
    let ghost goal = file_items(lines_view(lines@), path@);
    let mut parser = Parser::new(path.to_owned(), lines);
    let mut blocks: Vec<IfChangedBlock> = Vec::new();
    loop
        invariant
            parser.wf(),
            goal == file_items(lines_view(lines@), path@),
            collect_items(goal) == match collect_items(parser.items()) {
                Ok(bs) => Ok(blocks@.map_values(|b: IfChangedBlock| b@) + bs),
                Err(e) => Err(e),
            },
        decreases parser.items().len(),
    {
        let ghost before = parser.items();
        match parser.next() {
            None => {
                assert(blocks@.map_values(|b: IfChangedBlock| b@) + Seq::<BlockModel>::empty()
                    =~= blocks@.map_values(|b: IfChangedBlock| b@));
                return Ok(blocks);
            },
            Some(Err(e)) => {
                assert(before[0] == item_view(Err(e)));
                return Err(e);
            },
            Some(Ok(block)) => {
                assert(before.drop_first() =~= parser.items());
                let ghost old_blocks = blocks@.map_values(|b: IfChangedBlock| b@);
                blocks.push(block);
                assert(blocks@.map_values(|b: IfChangedBlock| b@) =~= old_blocks.push(block@));
                proof {
                    match collect_items(parser.items()) {
                        Ok(bs) => {
                            assert(old_blocks + (seq![block@] + bs) =~= old_blocks.push(block@)
                                + bs);
                        },
                        Err(e) => {},
                    }
                }
            },
        }
    }
}

/// The first item that is an error or a block named `name`.
pub open spec fn find_named_item(items: Seq<ItemModel>, name: Seq<char>) -> Option<ItemModel>
    decreases items.len(),
{
    if items.len() == 0 {
        None
    } else {
        match items[0] {
            Err(e) => Some(Err(e)),
            Ok(b) => if b.name == Some(name) {
                Some(Ok(b))
            } else {
                find_named_item(items.drop_first(), name)
            },
        }
    }
}

/// The block named `name` among the blocks of the file at `path`, or the
/// errors met before it; `None` where the file has no such block.
pub fn find_named(path: &str, lines: Vec<String>, name: &str) -> (r: Option<
    Result<IfChangedBlock, Vec<String>>,
>)
    ensures
        match find_named_item(file_items(lines_view(lines@), path@), name@) {
            None => r is None,
            Some(item) => r matches Some(x) && item_view(x) == item,
        },
{
    let ghost goal = find_named_item(file_items(lines_view(lines@), path@), name@);
    let mut parser = Parser::new(path.to_owned(), lines);
    loop
        invariant
            parser.wf(),
            goal == find_named_item(file_items(lines_view(lines@), path@), name@),
            goal == find_named_item(parser.items(), name@),
        decreases parser.items().len(),
    {
        let ghost before = parser.items();
        match parser.next() {
            None => {
                return None;
            },
            Some(Err(e)) => {
                return Some(Err(e));
            },
            Some(Ok(block)) => {
                assert(before.drop_first() =~= parser.items());
                let found = match &block.name {
                    Some(n) => n.eq(&name.to_owned()),
                    None => false,
                };
                if found {
                    return Some(Ok(block));
                }
            },
        }
    }
}

/// Blocks close in stack order: a `then-change` on a line that opens no
/// block closes the block opened last, which ends on that line, and the
/// blocks opened before it stay open.
pub proof fn lemma_then_change_closes_last_opened(
    lines: Seq<Seq<char>>,
    path: Seq<char>,
    number: nat,
    open: Seq<OpenModel>,
)
    requires
        number < lines.len(),
        open.len() > 0,
        block_marker(path, number + 1, lines[number as int]) matches Ok((None, rest)) && (
        after_then_change(rest) matches Some(after) && then_change_paths(
            lines,
            path,
            number + 1,
            after,
        ).0 is Ok),
    ensures
        ({
            let rest = block_marker(path, number + 1, lines[number as int])->Ok_0.1;
            let after = after_then_change(rest)->0;
            let (res, n2) = then_change_paths(lines, path, number + 1, after);
            let items = items_from(lines, path, number, open);
            &&& items.len() > 0
            &&& items[0] == Ok::<BlockModel, Seq<Seq<char>>>(
                BlockModel {
                    name: open.last().0,
                    start: open.last().1,
                    end: number + 1,
                    patterns: res->Ok_0,
                },
            )
            &&& items.drop_first() == items_from(lines, path, n2, open.drop_last())
        }),
{
    let items = items_from(lines, path, number, open);
    let rest = block_marker(path, number + 1, lines[number as int])->Ok_0.1;
    let after = after_then_change(rest)->0;
    let (res, n2) = then_change_paths(lines, path, number + 1, after);
    let b = BlockModel {
        name: open.last().0,
        start: open.last().1,
        end: number + 1,
        patterns: res->Ok_0,
    };
    assert(items == seq![Ok::<BlockModel, Seq<Seq<char>>>(b)] + items_from(
        lines,
        path,
        n2,
        open.drop_last(),
    ));
    assert(items.drop_first() =~= items_from(lines, path, n2, open.drop_last()));
}

/// Line `n` neither opens a block nor holds a `then-change`.
pub open spec fn holds_no_marker(path: Seq<char>, n: nat, line: Seq<char>) -> bool {
    block_marker(path, n, line) matches Ok((None, rest)) && after_then_change(rest) is None
}

/// A block left open is reported only at the end of the file: where no line
/// from `number` on holds either marker, the parse yields exactly one error,
/// with one message per open block naming the line that opened it.
pub proof fn lemma_unclosed_blocks_reported_at_end(
    lines: Seq<Seq<char>>,
    path: Seq<char>,
    number: nat,
    open: Seq<OpenModel>,
)
    requires
        open.len() > 0,
        forall|k: int|
            number <= k < lines.len() ==> #[trigger] holds_no_marker(path, (k + 1) as nat, lines[k]),
    ensures
        items_from(lines, path, number, open) == seq![
            Err::<BlockModel, Seq<Seq<char>>>(unclosed_errors(path, open)),
        ],
        unclosed_errors(path, open).len() == open.len(),
        forall|i: int|
            0 <= i < open.len() ==> unclosed_errors(path, open)[i] == msg_missing_then_change(
                open[i].1,
                path,
            ),
    decreases lines.len() - number,
{
    if number < lines.len() {
        let k = number as int;
        assert(holds_no_marker(path, (k + 1) as nat, lines[k]));
        lemma_unclosed_blocks_reported_at_end(lines, path, number + 1, open);
    }
}

} // verus!
