use vstd::prelude::*;

verus! {

/// The Unicode `White_Space` property, as listed in the Unicode Character
/// Database (PropList.txt).
pub open spec fn is_white_space(c: char) -> bool {
    ('\t' <= c && c <= '\r') || c == ' ' || c == '\u{85}' || c == '\u{a0}' || c == '\u{1680}'
        || ('\u{2000}' <= c && c <= '\u{200a}') || c == '\u{2028}' || c == '\u{2029}'
        || c == '\u{202f}' || c == '\u{205f}' || c == '\u{3000}'
}

/// The characters stripped in front of an annotation: the openers of the
/// usual line and block comment syntaxes.
pub open spec fn is_comment_token(c: char) -> bool {
    c == '/' || c == '#' || c == '-' || c == '\'' || c == ';' || c == 'R' || c == 'E' || c == 'M'
        || c == '!' || c == '*' || c == '<'
}

/// Index of the first character at or after `i` that is not whitespace.
pub open spec fn ws_end(s: Seq<char>, i: int) -> int
    decreases s.len() - i,
{
    if 0 <= i < s.len() && is_white_space(s[i]) {
        ws_end(s, i + 1)
    } else {
        i
    }
}

/// Index of the first character at or after `i` that is not a comment token.
pub open spec fn token_end(s: Seq<char>, i: int) -> int
    decreases s.len() - i,
{
    if 0 <= i < s.len() && is_comment_token(s[i]) {
        token_end(s, i + 1)
    } else {
        i
    }
}

/// Index just past the last character before `j` that is not whitespace.
pub open spec fn ws_start_back(s: Seq<char>, j: int) -> int
    decreases j,
{
    if 0 < j <= s.len() && is_white_space(s[j - 1]) {
        ws_start_back(s, j - 1)
    } else {
        j
    }
}

/// `s` without its leading whitespace.
pub open spec fn trim_start(s: Seq<char>) -> Seq<char> {
    s.skip(ws_end(s, 0))
}

/// `s` without its trailing whitespace.
pub open spec fn trim_end(s: Seq<char>) -> Seq<char> {
    s.take(ws_start_back(s, s.len() as int))
}

/// `s` without leading and trailing whitespace.
pub open spec fn trim(s: Seq<char>) -> Seq<char> {
    trim_end(trim_start(s))
}

/// `s` without its leading whitespace and the comment tokens that follow it.
pub open spec fn skip_comment(s: Seq<char>) -> Seq<char> {
    let t = trim_start(s);
    t.skip(token_end(t, 0))
}

/// The first index at or after `i` that holds `c`.
pub open spec fn find_char_from(s: Seq<char>, c: char, i: int) -> Option<int>
    decreases s.len() - i,
{
    if i < 0 || i >= s.len() {
        None
    } else if s[i] == c {
        Some(i)
    } else {
        find_char_from(s, c, i + 1)
    }
}

/// The first index of `c` in `s`.
pub open spec fn find_char(s: Seq<char>, c: char) -> Option<int> {
    find_char_from(s, c, 0)
}

/// Whether `lit` occurs in `s` at index `i`.
pub open spec fn occurs_at(s: Seq<char>, lit: Seq<char>, i: int) -> bool {
    0 <= i && i + lit.len() <= s.len() && s.subrange(i, i + lit.len()) == lit
}

/// The first index at or after `i` where `lit` occurs in `s`.
pub open spec fn find_from(s: Seq<char>, lit: Seq<char>, i: int) -> Option<int>
    decreases s.len() + 1 - i,
{
    if i < 0 || i + lit.len() > s.len() {
        None
    } else if occurs_at(s, lit, i) {
        Some(i)
    } else {
        find_from(s, lit, i + 1)
    }
}

/// The first index where `lit` occurs in `s`.
pub open spec fn find(s: Seq<char>, lit: Seq<char>) -> Option<int> {
    find_from(s, lit, 0)
}

/// Relies on `str::chars`: the characters of the string, in order.
#[verifier::external_body]
pub(crate) fn chars_of(s: &str) -> (r: Vec<char>)
    ensures
        r@ == s@,
{
    s.chars().collect()
}

/// Relies on `FromIterator<char>` for `String`: the string of the characters, in order.
#[verifier::external_body]
pub(crate) fn string_of(v: &[char]) -> (r: String)
    ensures
        r@ == v@,
{
    v.iter().collect()
}

pub fn is_whitespace(c: char) -> (r: bool)
    ensures
        r == is_white_space(c),
{
    ('\t' <= c && c <= '\r') || c == ' ' || c == '\u{85}' || c == '\u{a0}' || c == '\u{1680}'
        || ('\u{2000}' <= c && c <= '\u{200a}') || c == '\u{2028}' || c == '\u{2029}'
        || c == '\u{202f}' || c == '\u{205f}' || c == '\u{3000}'
}

pub fn is_comment_start(c: char) -> (r: bool)
    ensures
        r == is_comment_token(c),
{
    c == '/' || c == '#' || c == '-' || c == '\'' || c == ';' || c == 'R' || c == 'E' || c == 'M'
        || c == '!' || c == '*' || c == '<'
}

/// The characters of `v` from `start` to `end`.
pub fn slice_chars(v: &Vec<char>, start: usize, end: usize) -> (r: Vec<char>)
    requires
        start <= end <= v.len(),
    ensures
        r@ == v@.subrange(start as int, end as int),
{
    let mut r: Vec<char> = Vec::new();
    let mut i: usize = start;
    while i < end
        invariant
            start <= i <= end <= v.len(),
            r@ == v@.subrange(start as int, i as int),
        decreases end - i,
    {
        r.push(v[i]);
        i = i + 1;
    }
    r
}

/// The characters of `v` from `start` to `end`, without leading and trailing whitespace.
pub fn trimmed_chars(v: &Vec<char>, start: usize, end: usize) -> (r: Vec<char>)
    requires
        start <= end <= v.len(),
    ensures
        r@ == trim(v@.subrange(start as int, end as int)),
{
    let ghost s = v@.subrange(start as int, end as int);
    let mut i: usize = start;
    while i < end && is_whitespace(v[i])
        invariant
            start <= i <= end <= v.len(),
            s == v@.subrange(start as int, end as int),
            ws_end(s, i - start) == ws_end(s, 0),
        decreases end - i,
    {
        assert(s[i - start] == v@[i as int]);
        i = i + 1;
    }
    let ghost t = s.skip(i - start);
    assert(t =~= v@.subrange(i as int, end as int));
    let mut j: usize = end;
    while j > i && is_whitespace(v[j - 1])
        invariant
            start <= i <= j <= end <= v.len(),
            t =~= v@.subrange(i as int, end as int),
            ws_start_back(t, j - i) == ws_start_back(t, t.len() as int),
        decreases j,
    {
        j = j - 1;
    }
    proof {
        assert(trim_start(s) =~= t);
    }
    let r = slice_chars(v, i, j);
    assert(r@ =~= t.take(j - i));
    r
}

/// Appends the characters of `w` to `v`.
pub fn push_all(v: &mut Vec<char>, w: &Vec<char>)
    ensures
        final(v)@ == old(v)@ + w@,
{
    let mut i: usize = 0;
    while i < w.len()
        invariant
            i <= w.len(),
            v@ == old(v)@ + w@.take(i as int),
        decreases w.len() - i,
    {
        v.push(w[i]);
        i = i + 1;
        assert(v@ =~= old(v)@ + w@.take(i as int));
    }
    assert(w@.take(w.len() as int) =~= w@);
}

/// Index of the first `c` in `v`.
pub fn index_of(v: &Vec<char>, c: char) -> (r: Option<usize>)
    ensures
        r matches Some(i) ==> i < v@.len(),
        find_char(v@, c) == (match r {
            Some(i) => Some(i as int),
            None => None,
        }),
{
    let mut i: usize = 0;
    while i < v.len()
        invariant
            i <= v.len(),
            find_char_from(v@, c, i as int) == find_char(v@, c),
        decreases v.len() - i,
    {
        if v[i] == c {
            return Some(i);
        }
        i = i + 1;
    }
    None
}

/// A line of text together with a cursor into it: the view is what remains
/// after the cursor.
pub struct StringRef {
    owner: Vec<char>,
    start: usize,
}

impl View for StringRef {
    type V = Seq<char>;

    closed spec fn view(&self) -> Seq<char> {
        self.owner@.skip(self.start as int)
    }
}

impl StringRef {
    #[verifier::type_invariant]
    spec fn cursor_in_bounds(&self) -> bool {
        self.start <= self.owner.len()
    }

    pub fn new(owner: String) -> (r: StringRef)
        ensures
            r@ == owner@,
    {
        let owner = chars_of(owner.as_str());
        let r = StringRef { owner, start: 0 };
        assert(r@ =~= owner@);
        r
    }

    /// Moves the cursor forward by as many characters as `f` reports for the
    /// current view.
    pub fn modify_with<F: FnOnce(&StringRef) -> usize>(&mut self, f: F)
        requires
            f.requires((&*old(self),)),
            forall|n: usize| f.ensures((&*old(self),), n) ==> n <= old(self)@.len(),
        ensures
            exists|n: usize|
                f.ensures((&*old(self),), n) && final(self)@ == old(self)@.skip(n as int),
    {
        proof {
            use_type_invariant(&*self);
        }
        let n = f(&*self);
        self.start = self.start + n;
        assert(self@ =~= old(self)@.skip(n as int));
    }

    /// Moves the cursor forward when `f` reports a count for the current view,
    /// and tells whether it did.
    pub fn try_modify_with<F: FnOnce(&StringRef) -> Option<usize>>(&mut self, f: F) -> (r: bool)
        requires
            f.requires((&*old(self),)),
            forall|n: Option<usize>|
                f.ensures((&*old(self),), n) && n is Some ==> n->0 <= old(self)@.len(),
        ensures
            exists|n: Option<usize>|
                f.ensures((&*old(self),), n) && r == (n is Some) && final(self)@ == (match n {
                    Some(k) => old(self)@.skip(k as int),
                    None => old(self)@,
                }),
    {
        proof {
            use_type_invariant(&*self);
        }
        let n = f(&*self);
        match n {
            Some(k) => {
                self.start = self.start + k;
                assert(self@ =~= old(self)@.skip(k as int));
                true
            },
            None => false,
        }
    }

    /// Number of characters in the view.
    pub fn len(&self) -> (r: usize)
        ensures
            r == self@.len(),
    {
        proof {
            use_type_invariant(self);
        }
        self.owner.len() - self.start
    }

    /// The character at index `i` of the view.
    pub fn at(&self, i: usize) -> (r: char)
        requires
            i < self@.len(),
        ensures
            r == self@[i as int],
    {
        proof {
            use_type_invariant(self);
        }
        self.owner[self.start + i]
    }

    /// Number of leading whitespace characters of the view.
    pub fn whitespace_len(&self) -> (r: usize)
        ensures
            r == ws_end(self@, 0),
            r <= self@.len(),
    {
        let n = self.len();
        let mut i: usize = 0;
        while i < n && is_whitespace(self.at(i))
            invariant
                n == self@.len(),
                i <= n,
                ws_end(self@, i as int) == ws_end(self@, 0),
            decreases n - i,
        {
            i = i + 1;
        }
        i
    }

    /// Number of leading comment tokens of the view.
    pub fn comment_token_len(&self) -> (r: usize)
        ensures
            r == token_end(self@, 0),
            r <= self@.len(),
    {
        let n = self.len();
        let mut i: usize = 0;
        while i < n && is_comment_start(self.at(i))
            invariant
                n == self@.len(),
                i <= n,
                token_end(self@, i as int) == token_end(self@, 0),
            decreases n - i,
        {
            i = i + 1;
        }
        i
    }

    /// Index of the first `c` in the view.
    pub fn find_char(&self, c: char) -> (r: Option<usize>)
        ensures
            self@.len() <= usize::MAX,
            r matches Some(i) ==> i < self@.len(),
            find_char(self@, c) == (match r {
                Some(i) => Some(i as int),
                None => None,
            }),
    {
        let n = self.len();
        let mut i: usize = 0;
        while i < n
            invariant
                n == self@.len(),
                i <= n,
                find_char_from(self@, c, i as int) == find_char(self@, c),
            decreases n - i,
        {
            if self.at(i) == c {
                return Some(i);
            }
            i = i + 1;
        }
        None
    }

    /// Index of the first `c` in the view at or after `from`.
    pub fn find_char_after(&self, c: char, from: usize) -> (r: Option<usize>)
        ensures
            self@.len() <= usize::MAX,
            r matches Some(i) ==> from <= i < self@.len(),
            find_char_from(self@, c, from as int) == (match r {
                Some(i) => Some(i as int),
                None => None,
            }),
    {
        let n = self.len();
        let mut i: usize = from;
        while i < n
            invariant
                n == self@.len(),
                from <= i,
                find_char_from(self@, c, i as int) == find_char_from(self@, c, from as int),
            decreases n - i,
        {
            if self.at(i) == c {
                return Some(i);
            }
            i = i + 1;
        }
        None
    }

    /// Whether `lit` occurs in the view at index `i`.
    pub fn occurs_at(&self, lit: &Vec<char>, i: usize) -> (r: bool)
        ensures
            r == occurs_at(self@, lit@, i as int),
    {
        let n = self.len();
        if lit.len() > n || i > n - lit.len() {
            return false;
        }
        let mut k: usize = 0;
        while k < lit.len()
            invariant
                n == self@.len(),
                i + lit.len() <= n,
                k <= lit.len(),
                forall|m: int| 0 <= m < k ==> self@[i + m] == lit@[m],
            decreases lit.len() - k,
        {
            if self.at(i + k) != lit[k] {
                assert(self@.subrange(i as int, i + lit.len())[k as int] != lit@[k as int]);
                return false;
            }
            k = k + 1;
        }
        assert(self@.subrange(i as int, i + lit.len()) =~= lit@);
        true
    }

    /// Index of the first occurrence of `lit` in the view.
    pub fn find(&self, lit: &Vec<char>) -> (r: Option<usize>)
        ensures
            self@.len() <= usize::MAX,
            r matches Some(i) ==> i + lit@.len() <= self@.len(),
            find(self@, lit@) == (match r {
                Some(i) => Some(i as int),
                None => None,
            }),
    {
        let n = self.len();
        if lit.len() > n {
            return None;
        }
        let last = n - lit.len();
        let mut i: usize = 0;
        loop
            invariant
                n == self@.len(),
                last == n - lit@.len(),
                i <= last,
                find_from(self@, lit@, i as int) == find(self@, lit@),
            decreases last - i,
        {
            if self.occurs_at(lit, i) {
                return Some(i);
            }
            if i == last {
                assert(find_from(self@, lit@, i + 1) is None);
                return None;
            }
            i = i + 1;
        }
    }

    /// Whether the view starts with `lit`.
    pub fn starts_with(&self, lit: &Vec<char>) -> (r: bool)
        ensures
            r == occurs_at(self@, lit@, 0),
    {
        self.occurs_at(lit, 0)
    }

    /// The characters of the view from `start` to `end`, without leading and
    /// trailing whitespace.
    pub fn trimmed(&self, start: usize, end: usize) -> (r: Vec<char>)
        requires
            start <= end <= self@.len(),
        ensures
            r@ == trim(self@.subrange(start as int, end as int)),
    {
        proof {
            use_type_invariant(self);
        }
        let r = trimmed_chars(&self.owner, self.start + start, self.start + end);
        assert(self.owner@.subrange(self.start + start, self.start + end) =~= self@.subrange(
            start as int,
            end as int,
        ));
        r
    }
}

/// A line of a file together with its 1-based number.
pub struct NumberedLine {
    pub number: usize,
    pub value: StringRef,
}

impl NumberedLine {
    pub fn new(number: usize, line: String) -> (r: NumberedLine)
        ensures
            r.number == number,
            r.value@ == line@,
    {
        NumberedLine { number, value: StringRef::new(line) }
    }
}

} // verus!
