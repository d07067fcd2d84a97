use vstd::prelude::*;

use bstr::ByteSlice;

verus! {

/// The key/value trailers that libgit2 reads at the end of a commit message,
/// in order; `None` where libgit2 reports an error.
pub uninterp spec fn message_trailers(message: Seq<u8>) -> Option<Seq<(Seq<u8>, Seq<u8>)>>;

/// The bytes without leading and trailing Unicode whitespace, as bstr trims them.
pub uninterp spec fn trimmed_bytes(b: Seq<u8>) -> Seq<u8>;

/// The bytes decoded as UTF-8, with invalid sequences replaced by U+FFFD, as
/// bstr decodes them.
pub uninterp spec fn utf8_lossy(b: Seq<u8>) -> Seq<char>;

/// Relies on `git2::message_trailers_bytes`: the trailers of the message as
/// key/value byte strings, in the order libgit2 reports them.
#[verifier::external_body]
fn trailers_of(message: &[u8]) -> (r: Option<Vec<(Vec<u8>, Vec<u8>)>>)
    ensures
        match r {
            None => message_trailers(message@) is None,
            Some(v) => message_trailers(message@) == Some(
                v@.map_values(|t: (Vec<u8>, Vec<u8>)| (t.0@, t.1@)),
            ),
        },
{
    match git2::message_trailers_bytes(message) {
        Ok(trailers) => Some(trailers.iter().map(|(k, v)| (k.to_vec(), v.to_vec())).collect()),
        Err(_) => None,
    }
}

/// Relies on `bstr::ByteSlice::trim`: leading and trailing whitespace removed.
#[verifier::external_body]
fn trim_bytes(b: &[u8]) -> (r: Vec<u8>)
    ensures
        r@ == trimmed_bytes(b@),
{
    b.trim().to_vec()
}

/// Relies on `bstr::ByteSlice::to_str_lossy`: the bytes as a string, invalid
/// UTF-8 replaced.
#[verifier::external_body]
fn lossy_string(b: &[u8]) -> (r: String)
    ensures
        r@ == utf8_lossy(b@),
{
    b.to_str_lossy().into_owned()
}

/// The index of the first `--` at or after `i`, or the length where there is none.
pub open spec fn dashes_from(v: Seq<u8>, i: int) -> int
    decreases v.len() - i,
{
    if i < 0 || i + 1 >= v.len() {
        v.len() as int
    } else if v[i] == 45 && v[i + 1] == 45 {
        i
    } else {
        dashes_from(v, i + 1)
    }
}

/// The pieces between commas of `v`, reading from `i` with the current piece
/// begun at `start`.
pub open spec fn comma_pieces(v: Seq<u8>, start: int, i: int) -> Seq<Seq<u8>>
    decreases v.len() - i,
{
    if i < 0 || i >= v.len() {
        seq![v.subrange(start, v.len() as int)]
    } else if v[i] == 44 {
        seq![v.subrange(start, i)] + comma_pieces(v, i + 1, i + 1)
    } else {
        comma_pieces(v, start, i + 1)
    }
}

/// The patterns of a trailer value: what precedes the first `--` (the rest
/// is a free-text reason), split at commas, each piece trimmed.
pub open spec fn value_patterns(v: Seq<u8>) -> Seq<Seq<char>> {
    comma_pieces(v.take(dashes_from(v, 0)), 0, 0).map_values(
        |p: Seq<u8>| utf8_lossy(trimmed_bytes(p)),
    )
}

pub open spec fn ascii_lower(b: u8) -> u8 {
    if 65 <= b <= 90 {
        (b + 32) as u8
    } else {
        b
    }
}

/// Whether a trailer key is `ignore-if-changed`, in any ASCII case.
pub open spec fn is_ignore_key(k: Seq<u8>) -> bool {
    k.len() == "ignore-if-changed"@.len() && forall|i: int|
        0 <= i < k.len() ==> ascii_lower(k[i]) as u32 == "ignore-if-changed"@[i] as u32
}

/// The patterns of the first `n` trailers that are `ignore-if-changed` ones.
pub open spec fn trailer_patterns(ts: Seq<(Seq<u8>, Seq<u8>)>, n: int) -> Seq<Seq<char>>
    decreases n,
{
    if n <= 0 {
        Seq::empty()
    } else if is_ignore_key(ts[n - 1].0) {
        trailer_patterns(ts, n - 1) + value_patterns(ts[n - 1].1)
    } else {
        trailer_patterns(ts, n - 1)
    }
}

/// The patterns that a commit message exempts from the checks.
pub open spec fn exempt_patterns(message: Seq<u8>) -> Seq<Seq<char>> {
    match message_trailers(message) {
        None => Seq::empty(),
        Some(ts) => trailer_patterns(ts, ts.len() as int),
    }
}

pub fn to_ascii_lower(b: u8) -> (r: u8)
    ensures
        r == ascii_lower(b),
{
    if 65 <= b && b <= 90 {
        b + 32
    } else {
        b
    }
}

fn is_ignore_key_bytes(k: &Vec<u8>) -> (r: bool)
    ensures
        r == is_ignore_key(k@),
{
    let word = "ignore-if-changed";
    let n = word.unicode_len();
    if k.len() != n {
        return false;
    }
    let mut i: usize = 0;
    while i < n
        invariant
            word@ == "ignore-if-changed"@,
            n == word@.len(),
            k@.len() == n,
            i <= n,
            forall|m: int| 0 <= m < i ==> ascii_lower(k@[m]) as u32 == word@[m] as u32,
        decreases n - i,
    {
        if to_ascii_lower(k[i]) as u32 != word.get_char(i) as u32 {
            return false;
        }
        i = i + 1;
    }
    true
}

/// The patterns of one `ignore-if-changed` trailer value: split at commas
/// and trimmed, up to a `--` that starts a free-text reason.
pub fn split_patterns(value: &[u8]) -> (r: Vec<String>)
    ensures
        r@.map_values(|s: String| s@) == value_patterns(value@),
{
    let n = value.len();
    let mut end: usize = 0;
    while n > 0 && end < n - 1 && !(value[end] == 45 && value[end + 1] == 45)
        invariant
            n == value@.len(),
            end <= n,
            n == 0 ==> end == 0,
            dashes_from(value@, end as int) == dashes_from(value@, 0),
        decreases n - end,
    {
        end = end + 1;
    }
    let end = if n > 0 && end < n - 1 {
        end
    } else {
        n
    };
    let ghost head = value@.take(end as int);
    assert(end == dashes_from(value@, 0));
    let mut r: Vec<String> = Vec::new();
    let mut start: usize = 0;
    let mut i: usize = 0;
    while i < end
        invariant
            end <= n == value@.len(),
            head == value@.take(end as int),
            start <= i <= end,
            r@.map_values(|s: String| s@) + comma_pieces(head, start as int, i as int).map_values(
                |p: Seq<u8>| utf8_lossy(trimmed_bytes(p)),
            ) == value_patterns(value@),
        decreases end - i,
    {
        if value[i] == 44 {
            let piece = copy_bytes(value, start, i);
            assert(piece@ == head.subrange(start as int, i as int));
            let ghost before = r@.map_values(|s: String| s@);
            let text = lossy_string(trim_bytes(piece.as_slice()).as_slice());
            r.push(text);
            assert(r@.map_values(|s: String| s@) =~= before.push(text@));
            let ghost rest = comma_pieces(head, i + 1, i + 1);
            assert(comma_pieces(head, start as int, i as int) == seq![head.subrange(start as int, i as int)] + rest);
            assert((seq![head.subrange(start as int, i as int)] + rest).map_values(
                |p: Seq<u8>| utf8_lossy(trimmed_bytes(p)),
            ) =~= seq![text@] + rest.map_values(|p: Seq<u8>| utf8_lossy(trimmed_bytes(p))));
            assert(before + (seq![text@] + rest.map_values(|p: Seq<u8>| utf8_lossy(trimmed_bytes(p))))
                =~= before.push(text@) + rest.map_values(|p: Seq<u8>| utf8_lossy(trimmed_bytes(p))));
            start = i + 1;
        }
        i = i + 1;
    }
    let piece = copy_bytes(value, start, end);
    assert(piece@ == head.subrange(start as int, end as int));
    let ghost before = r@.map_values(|s: String| s@);
    let text = lossy_string(trim_bytes(piece.as_slice()).as_slice());
    r.push(text);
    assert(comma_pieces(head, start as int, i as int) == seq![head.subrange(start as int, end as int)]);
    assert(r@.map_values(|s: String| s@) =~= before + seq![text@]);
    r
}

fn copy_bytes(v: &[u8], start: usize, end: usize) -> (r: Vec<u8>)
    requires
        start <= end <= v@.len(),
    ensures
        r@ == v@.subrange(start as int, end as int),
{
    let mut r: Vec<u8> = Vec::new();
    let mut i: usize = start;
    while i < end
        invariant
            start <= i <= end <= v@.len(),
            r@ == v@.subrange(start as int, i as int),
        decreases end - i,
    {
        r.push(v[i]);
        i = i + 1;
    }
    r
}

/// The patterns of every `ignore-if-changed` trailer of a commit message, in
/// order; none where the message has no such trailer.
pub fn ignore_patterns(message: &[u8]) -> (r: Vec<String>)
    ensures
        r@.map_values(|s: String| s@) == exempt_patterns(message@),
{
    let trailers = match trailers_of(message) {
        None => {
            return Vec::new();
        },
        Some(t) => t,
    };
    let ghost ts = trailers@.map_values(|t: (Vec<u8>, Vec<u8>)| (t.0@, t.1@));
    let mut r: Vec<String> = Vec::new();
    let mut i: usize = 0;
    while i < trailers.len()
        invariant
            i <= trailers.len(),
            ts == trailers@.map_values(|t: (Vec<u8>, Vec<u8>)| (t.0@, t.1@)),
            message_trailers(message@) == Some(ts),
            r@.map_values(|s: String| s@) == trailer_patterns(ts, i as int),
        decreases trailers.len() - i,
    {
        assert(ts[i as int] == (trailers@[i as int].0@, trailers@[i as int].1@));
        if is_ignore_key_bytes(&trailers[i].0) {
            let more = split_patterns(trailers[i].1.as_slice());
            let ghost before = r@.map_values(|s: String| s@);
            let mut k: usize = 0;
            while k < more.len()
                invariant
                    k <= more.len(),
                    r@.map_values(|s: String| s@) =~= before + more@.map_values(|s: String| s@).take(
                        k as int,
                    ),
                decreases more.len() - k,
            {
                let ghost mid = r@.map_values(|s: String| s@);
                let q = more[k].clone();
                r.push(q);
                assert(r@.map_values(|s: String| s@) =~= mid.push(q@));
                assert(more@.map_values(|s: String| s@).take(k + 1) =~= more@.map_values(
                    |s: String| s@,
                ).take(k as int).push(more@[k as int]@));
                k = k + 1;
            }
            assert(more@.map_values(|s: String| s@).take(k as int) =~= more@.map_values(
                |s: String| s@,
            ));
        }
        i = i + 1;
    }
    r
}

} // verus!
