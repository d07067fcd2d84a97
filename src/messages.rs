use vstd::prelude::*;

verus! {

/// The decimal digits of `n`.
pub open spec fn decimal(n: nat) -> Seq<char>
    decreases n,
{
    if n < 10 {
        seq![digit(n)]
    } else {
        decimal(n / 10) + seq![digit(n % 10)]
    }
}

pub open spec fn digit(d: nat) -> char {
    if d == 0 {
        '0'
    } else if d == 1 {
        '1'
    } else if d == 2 {
        '2'
    } else if d == 3 {
        '3'
    } else if d == 4 {
        '4'
    } else if d == 5 {
        '5'
    } else if d == 6 {
        '6'
    } else if d == 7 {
        '7'
    } else if d == 8 {
        '8'
    } else {
        '9'
    }
}

/// The text that `Debug` prints for a path: the path in double quotes, with
/// quotes, backslashes and unprintable characters escaped.
pub uninterp spec fn debug_quoted(s: Seq<char>) -> Seq<char>;

/// Relies on `<usize as Display>::fmt`: an integer prints as its decimal digits.
#[verifier::external_body]
fn decimal_string(n: usize) -> (r: String)
    ensures
        r@ == decimal(n as nat),
{
    n.to_string()
}

/// Relies on `<Path as Debug>::fmt`: the quoted and escaped form of the
/// path that the string names.
#[verifier::external_body]
fn quoted(s: &str) -> (r: String)
    ensures
        r@ == debug_quoted(s@),
{
    format!("{:?}", std::path::Path::new(s))
}

pub open spec fn at_line_for(n: nat, path: Seq<char>) -> Seq<char> {
    "\" at line "@ + decimal(n) + " for "@ + debug_quoted(path) + "."@
}

/// `then-change` whose argument list does not start with `(`.
pub open spec fn msg_missing_open_paren(n: nat, path: Seq<char>) -> Seq<char> {
    "Could not find '(' for \"then-change"@ + at_line_for(n, path)
}

/// `then-change` whose argument list reaches the end of the file.
pub open spec fn msg_missing_close_paren(n: nat, path: Seq<char>) -> Seq<char> {
    "Could not find ')' for \"then-change"@ + at_line_for(n, path)
}

/// `if-changed(` whose name is not closed on its line.
pub open spec fn msg_unclosed_name(n: nat, path: Seq<char>) -> Seq<char> {
    "Could not find ')' for \"if-changed"@ + at_line_for(n, path)
}

/// An empty entry in the argument list of a `then-change`.
pub open spec fn msg_empty_path(entry: nat, n: nat, path: Seq<char>) -> Seq<char> {
    "Unexpected empty path at line "@ + decimal(entry) + " for \"then-change"@ + at_line_for(
        n,
        path,
    )
}

/// `then-change` with no open block.
pub open spec fn msg_missing_if_changed(n: nat, path: Seq<char>) -> Seq<char> {
    "Missing \"if-changed\" for \"then-change"@ + at_line_for(n, path)
}

/// `if-changed` still open at the end of the file.
pub open spec fn msg_missing_then_change(n: nat, path: Seq<char>) -> Seq<char> {
    "Missing \"then-changed\" for \"if-changed"@ + at_line_for(n, path)
}

pub open spec fn in_file_at(file: Seq<char>, line: nat) -> Seq<char> {
    " for \"then-change\" in "@ + debug_quoted(file) + " at line "@ + decimal(line)
}

/// A required path that the change leaves untouched.
pub open spec fn msg_expected_modified(target: Seq<char>, file: Seq<char>, line: nat) -> Seq<char> {
    "Expected "@ + debug_quoted(target) + " to be modified because of \"then-change\" in "@
        + debug_quoted(file) + " at line "@ + decimal(line) + "."@
}

/// A named block that the target file does not hold.
pub open spec fn msg_name_not_found(
    name: Seq<char>,
    target: Seq<char>,
    file: Seq<char>,
    line: nat,
) -> Seq<char> {
    "Could not find \"if-changed\" with name \""@ + name + "\" in "@ + debug_quoted(target)
        + in_file_at(file, line) + "."@
}

/// A target file that could not be read.
pub open spec fn msg_cannot_open(
    target: Seq<char>,
    file: Seq<char>,
    line: nat,
    error: Seq<char>,
) -> Seq<char> {
    "Could not open "@ + debug_quoted(target) + in_file_at(file, line) + ": "@ + error + "."@
}

fn at_line_for_text(n: usize, path: &str) -> (r: String)
    ensures
        r@ == at_line_for(n as nat, path@),
{
    let mut m = "\" at line ".to_owned();
    m.append(decimal_string(n).as_str());
    m.append(" for ");
    m.append(quoted(path).as_str());
    m.append(".");
    m
}

pub fn missing_open_paren(n: usize, path: &str) -> (r: String)
    ensures
        r@ == msg_missing_open_paren(n as nat, path@),
{
    "Could not find '(' for \"then-change".to_owned().concat(at_line_for_text(n, path).as_str())
}

pub fn missing_close_paren(n: usize, path: &str) -> (r: String)
    ensures
        r@ == msg_missing_close_paren(n as nat, path@),
{
    "Could not find ')' for \"then-change".to_owned().concat(at_line_for_text(n, path).as_str())
}

pub fn unclosed_name(n: usize, path: &str) -> (r: String)
    ensures
        r@ == msg_unclosed_name(n as nat, path@),
{
    "Could not find ')' for \"if-changed".to_owned().concat(at_line_for_text(n, path).as_str())
}

pub fn empty_path(entry: usize, n: usize, path: &str) -> (r: String)
    ensures
        r@ == msg_empty_path(entry as nat, n as nat, path@),
{
    let mut m = "Unexpected empty path at line ".to_owned();
    m.append(decimal_string(entry).as_str());
    m.append(" for \"then-change");
    m.append(at_line_for_text(n, path).as_str());
    m
}

pub fn missing_if_changed(n: usize, path: &str) -> (r: String)
    ensures
        r@ == msg_missing_if_changed(n as nat, path@),
{
    "Missing \"if-changed\" for \"then-change".to_owned().concat(at_line_for_text(n, path).as_str())
}

pub fn missing_then_change(n: usize, path: &str) -> (r: String)
    ensures
        r@ == msg_missing_then_change(n as nat, path@),
{
    "Missing \"then-changed\" for \"if-changed".to_owned().concat(
        at_line_for_text(n, path).as_str(),
    )
}

fn in_file_at_text(file: &str, line: usize) -> (r: String)
    ensures
        r@ == in_file_at(file@, line as nat),
{
    let mut m = " for \"then-change\" in ".to_owned();
    m.append(quoted(file).as_str());
    m.append(" at line ");
    m.append(decimal_string(line).as_str());
    m
}

pub fn expected_modified(target: &str, file: &str, line: usize) -> (r: String)
    ensures
        r@ == msg_expected_modified(target@, file@, line as nat),
{
    let mut m = "Expected ".to_owned();
    m.append(quoted(target).as_str());
    m.append(" to be modified because of \"then-change\" in ");
    m.append(quoted(file).as_str());
    m.append(" at line ");
    m.append(decimal_string(line).as_str());
    m.append(".");
    m
}

pub fn name_not_found(name: &str, target: &str, file: &str, line: usize) -> (r: String)
    ensures
        r@ == msg_name_not_found(name@, target@, file@, line as nat),
{
    let mut m = "Could not find \"if-changed\" with name \"".to_owned();
    m.append(name);
    m.append("\" in ");
    m.append(quoted(target).as_str());
    m.append(in_file_at_text(file, line).as_str());
    m.append(".");
    m
}

pub fn cannot_open(target: &str, file: &str, line: usize, error: &str) -> (r: String)
    ensures
        r@ == msg_cannot_open(target@, file@, line as nat, error@),
{
    let mut m = "Could not open ".to_owned();
    m.append(quoted(target).as_str());
    m.append(in_file_at_text(file, line).as_str());
    m.append(": ");
    m.append(error);
    m.append(".");
    m
}

} // verus!
