//! Small text formats of the appliance: the coefficient list of an uploaded
//! FIR, stored file names, request paths, and the level readout of the mixer.

use vstd::prelude::*;
use crate::names::{chars_of, is_white_space, white_space, trim, skip_white_from, skip_white_end};

verus! {

/// A separator of the coefficient list: white space or a comma.
pub open spec fn is_sep(c: char) -> bool {
    is_white_space(c) || c == ','
}

/// Length of the run of non-separators at the start of `s`.
pub open spec fn run_len(s: Seq<char>) -> nat
    decreases s.len(),
{
    if s.len() == 0 || is_sep(s[0]) {
        0
    } else {
        1 + run_len(s.drop_first())
    }
}

/// The tokens of `s`: its maximal runs of non-separator characters, in order
/// (`s.split(|c| c.is_whitespace() || c == ',')` without the empty pieces).
pub open spec fn tokens(s: Seq<char>) -> Seq<Seq<char>>
    decreases s.len(),
{
    if s.len() == 0 {
        Seq::empty()
    } else if is_sep(s[0]) {
        tokens(s.drop_first())
    } else {
        proof {
            lemma_run_len_bound(s);
        }
        seq![s.subrange(0, run_len(s) as int)] + tokens(s.subrange(run_len(s) as int, s.len() as int))
    }
}

pub proof fn lemma_run_len_bound(s: Seq<char>)
    ensures
        run_len(s) <= s.len(),
        s.len() > 0 && !is_sep(s[0]) ==> run_len(s) >= 1,
    decreases s.len(),
{
    if s.len() > 0 && !is_sep(s[0]) {
        lemma_run_len_bound(s.drop_first());
    }
}

/// The run starting at `i` ends at `j`.
proof fn lemma_run_len_at(s: Seq<char>, i: int, j: int)
    requires
        0 <= i <= j <= s.len(),
        forall|k: int| i <= k < j ==> !is_sep(#[trigger] s[k]),
        j == s.len() || is_sep(s[j]),
    ensures
        run_len(s.subrange(i, s.len() as int)) == j - i,
    decreases j - i,
{
    let t = s.subrange(i, s.len() as int);
    if i < j {
        assert(t.drop_first() =~= s.subrange(i + 1, s.len() as int));
        lemma_run_len_at(s, i + 1, j);
    } else if j < s.len() {
        assert(t[0] == s[j]);
    }
}

proof fn lemma_run_chars(s: Seq<char>)
    ensures
        forall|j: int| 0 <= j < run_len(s) ==> !is_sep(#[trigger] s[j]),
    decreases s.len(),
{
    if s.len() > 0 && !is_sep(s[0]) {
        lemma_run_chars(s.drop_first());
        lemma_run_len_bound(s);
        assert forall|j: int| 0 <= j < run_len(s) implies !is_sep(#[trigger] s[j]) by {
            if j > 0 {
                assert(s[j] == s.drop_first()[j - 1]);
            }
        }
    }
}

/// Law: a character separates coefficient tokens exactly when it is Unicode
/// white space (what `char::is_whitespace` accepts, carriage return included)
/// or a comma; every token is non-empty and holds neither white space nor a
/// comma.
pub proof fn law_token_separators(s: Seq<char>)
    ensures
        forall|c: char| #[trigger] is_sep(c) <==> (is_white_space(c) || c == ','),
        is_sep(' ') && is_sep('\t') && is_sep('\n') && is_sep('\r') && is_sep(','),
        forall|k: int| 0 <= k < tokens(s).len() ==> #[trigger] tokens(s)[k].len() > 0,
        forall|k: int, j: int|
            0 <= k < tokens(s).len() && 0 <= j < tokens(s)[k].len() ==> !is_white_space(
                #[trigger] tokens(s)[k][j],
            ) && tokens(s)[k][j] != ',',
    decreases s.len(),
{
    if s.len() > 0 {
        if is_sep(s[0]) {
            law_token_separators(s.drop_first());
            assert(tokens(s) == tokens(s.drop_first()));
        } else {
            lemma_run_len_bound(s);
            lemma_run_chars(s);
            let r = run_len(s) as int;
            let rest = s.subrange(r, s.len() as int);
            law_token_separators(rest);
            let head = s.subrange(0, r);
            assert(tokens(s) == seq![head] + tokens(rest));
            assert forall|k: int| 0 <= k < tokens(s).len() implies #[trigger] tokens(s)[k].len() > 0 by {
                if k > 0 {
                    assert(tokens(s)[k] == tokens(rest)[k - 1]);
                }
            }
            assert forall|k: int, j: int|
                0 <= k < tokens(s).len() && 0 <= j < tokens(s)[k].len() implies !is_white_space(
                #[trigger] tokens(s)[k][j],
            ) && tokens(s)[k][j] != ',' by {
                if k == 0 {
                    assert(tokens(s)[0] == head);
                    assert(head[j] == s[j]);
                    assert(!is_sep(s[j]));
                } else {
                    assert(tokens(s)[k] == tokens(rest)[k - 1]);
                }
            }
        }
    }
}

fn sep(c: char) -> (b: bool)
    ensures
        b == is_sep(c),
{
    white_space(c) || c == ','
}

/// The tokens of an uploaded coefficient list.
pub fn coefficient_tokens(text: &str) -> (r: Vec<String>)
    ensures
        r@.len() == tokens(text@).len(),
        forall|k: int| 0 <= k < r@.len() ==> #[trigger] r@[k]@ == tokens(text@)[k],
{
    let cs = chars_of(text);
    let n = cs.len();
    let mut r: Vec<String> = Vec::new();
    let mut i: usize = 0;
    let ghost mut acc: Seq<Seq<char>> = Seq::empty();
    assert(cs@.subrange(0, n as int) =~= cs@);
    while i < n
        invariant
            cs@ == text@,
            n == cs@.len(),
            i <= n,
            r@.len() == acc.len(),
            forall|k: int| 0 <= k < r@.len() ==> #[trigger] r@[k]@ == acc[k],
            tokens(cs@) == acc + tokens(cs@.subrange(i as int, n as int)),
        decreases n - i,
    {
        let ghost rest = cs@.subrange(i as int, n as int);
        if sep(cs[i]) {
            assert(rest.drop_first() =~= cs@.subrange(i + 1, n as int));
            i = i + 1;
        } else {
            let mut j = i + 1;
            while j < n && !sep(cs[j])
                invariant
                    cs@ == text@,
                    n == cs@.len(),
                    i < j <= n,
                    forall|k: int| i <= k < j ==> !is_sep(#[trigger] cs@[k]),
                decreases n - j,
            {
                j = j + 1;
            }
            proof {
                lemma_run_len_at(cs@, i as int, j as int);
                assert(rest.subrange(0, (j - i) as int) =~= cs@.subrange(i as int, j as int));
                assert(rest.subrange((j - i) as int, rest.len() as int) =~= cs@.subrange(
                    j as int,
                    n as int,
                ));
                acc = acc.push(cs@.subrange(i as int, j as int));
            }
            let tok = String::from_str(text.substring_char(i, j));
            r.push(tok);
            proof {
                assert(acc + tokens(cs@.subrange(j as int, n as int)) =~= acc.drop_last() + tokens(
                    rest,
                ));
            }
            i = j;
        }
    }
    proof {
        assert(cs@.subrange(n as int, n as int) =~= Seq::<char>::empty());
        assert(acc + Seq::<Seq<char>>::empty() =~= acc);
    }
    r
}

/// Index of the last `.` in `s`, if any.
pub open spec fn last_dot(s: Seq<char>) -> Option<int> {
    if exists|p: int| 0 <= p < s.len() && s[p] == '.' {
        Some(choose|p: int| 0 <= p < s.len() && s[p] == '.' && forall|q: int| p < q < s.len() ==> s[q] != '.')
    } else {
        None
    }
}

/// The stem of a file name whose extension is `ext` (as `Path::extension`
/// and `Path::file_stem` split a name): the name must have a `.` after its
/// first character and end in `.` + `ext`; `..` has no extension.
pub open spec fn stem_with_ext(name: Seq<char>, ext: Seq<char>) -> Option<Seq<char>> {
    if name =~= seq!['.', '.'] {
        None
    } else {
        match last_dot(name) {
            Some(p) => if p > 0 && name.subrange(p + 1, name.len() as int) =~= ext {
                Some(name.subrange(0, p))
            } else {
                None
            },
            None => None,
        }
    }
}

/// The stored item a directory entry holds: its stem when the file has
/// extension `ext`, otherwise nothing.
pub fn entry_stem(file_name: &str, ext: &str) -> (r: Option<String>)
    ensures
        match stem_with_ext(file_name@, ext@) {
            Some(stem) => r matches Some(s) && s@ == stem,
            None => r is None,
        },
{
    let cs = chars_of(file_name);
    let es = chars_of(ext);
    let n = cs.len();
    if n == 2 && cs[0] == '.' && cs[1] == '.' {
        assert(cs@ =~= seq!['.', '.']);
        return None;
    }
    let mut p = n;
    while p > 0 && cs[p - 1] != '.'
        invariant
            p <= n,
            n == cs@.len(),
            cs@ == file_name@,
            forall|q: int| p <= q < n ==> cs@[q] != '.',
        decreases p,
    {
        p = p - 1;
    }
    if p == 0 {
        proof {
            assert(!exists|q: int| 0 <= q < cs@.len() && cs@[q] == '.');
        }
        return None;
    }
    let dot = p - 1;
    proof {
        let w = choose|q: int| 0 <= q < cs@.len() && cs@[q] == '.' && forall|k: int| q < k < cs@.len() ==> cs@[k] != '.';
        assert(cs@[dot as int] == '.');
        if w < dot {
            assert(cs@[dot as int] != '.');
        } else if w > dot {
            assert(cs@[w] != '.');
        }
    }
    if dot == 0 {
        return None;
    }
    // compare the extension
    let elen = es.len();
    if n - p != elen {
        proof {
            assert(cs@.subrange(p as int, n as int).len() != es@.len());
        }
        return None;
    }
    let mut k: usize = 0;
    #[verifier::loop_isolation(false)]
    while k < elen
        invariant
            elen == es@.len(),
            n == cs@.len(),
            n - p == elen,
            p <= n,
            k <= elen,
            forall|t: int| 0 <= t < k ==> cs@[p + t] == es@[t],
        decreases elen - k,
    {
        if cs[p + k] != es[k] {
            proof {
                assert(cs@.subrange(p as int, n as int)[k as int] != es@[k as int]);
            }
            return None;
        }
        k = k + 1;
    }
    assert(cs@.subrange(p as int, n as int) =~= es@);
    Some(String::from_str(file_name.substring_char(0, dot)))
}

/// Number of `/` at the start of `s`.
pub open spec fn leading_slashes(s: Seq<char>) -> nat
    decreases s.len(),
{
    if s.len() > 0 && s[0] == '/' {
        1 + leading_slashes(s.drop_first())
    } else {
        0
    }
}

/// The embedded asset a request path names: the path without its leading
/// slashes, or `index.html` when that leaves nothing.
pub open spec fn asset_for(path: Seq<char>) -> Seq<char> {
    let rest = path.subrange(leading_slashes(path) as int, path.len() as int);
    if rest.len() == 0 {
        "index.html"@
    } else {
        rest
    }
}

proof fn lemma_leading_slashes(s: Seq<char>, i: int)
    requires
        0 <= i <= s.len(),
        forall|k: int| 0 <= k < i ==> #[trigger] s[k] == '/',
        i == s.len() || s[i] != '/',
    ensures
        leading_slashes(s) == i,
    decreases i,
{
    if i > 0 {
        assert forall|k: int| 0 <= k < i - 1 implies #[trigger] s.drop_first()[k] == '/' by {
            assert(s.drop_first()[k] == s[k + 1]);
        }
        if i < s.len() {
            assert(s.drop_first()[i - 1] == s[i]);
        }
        lemma_leading_slashes(s.drop_first(), i - 1);
    } else if s.len() > 0 {
        assert(s[0] != '/');
    }
}

/// Name of the embedded asset for a request path.
pub fn asset_path(path: &str) -> (r: String)
    ensures
        r@ == asset_for(path@),
{
    let cs = chars_of(path);
    let mut i: usize = 0;
    while i < cs.len() && cs[i] == '/'
        invariant
            cs@ == path@,
            i <= cs@.len(),
            forall|k: int| 0 <= k < i ==> #[trigger] cs@[k] == '/',
        decreases cs@.len() - i,
    {
        i = i + 1;
    }
    proof {
        lemma_leading_slashes(cs@, i as int);
    }
    if i == cs.len() {
        proof {
            reveal_strlit("index.html");
        }
        String::from_str("index.html")
    } else {
        String::from_str(path.substring_char(i, cs.len()))
    }
}

/// The content type `mime_guess` assigns to a path.
pub uninterp spec fn guessed_mime(path: Seq<char>) -> Seq<char>;

/// `mime_guess::from_path(path).first_or_octet_stream()`, as text: the first
/// MIME type the crate's extension table lists for the path's extension, or
/// `application/octet-stream` when it lists none. The table is not restated:
/// the result is named. What is stated besides is that a path without any `.`
/// has no extension and so gets `application/octet-stream`.
#[verifier::external_body]
fn guess_mime(path: &str) -> (r: String)
    ensures
        r@ == guessed_mime(path@),
        !path@.contains('.') ==> r@ == "application/octet-stream"@,
{
    mime_guess::from_path(path).first_or_octet_stream().as_ref().to_string()
}

/// The embedded asset a request path names, with the content type it is
/// served as.
pub fn asset_and_type(path: &str) -> (r: (String, String))
    ensures
        r.0@ == asset_for(path@),
        r.1@ == guessed_mime(asset_for(path@)),
{
    let asset = asset_path(path);
    let mime = guess_mime(asset.as_str());
    (asset, mime)
}

/// The part of a path after its last `/` (all of it when it has none).
pub open spec fn last_segment_of(path: Seq<char>) -> Seq<char> {
    if exists|p: int| 0 <= p < path.len() && path[p] == '/' {
        let p = choose|p: int|
            0 <= p < path.len() && path[p] == '/' && forall|q: int| p < q < path.len() ==> path[q] != '/';
        path.subrange(p + 1, path.len() as int)
    } else {
        path
    }
}

/// File name shown for a played file: the part of `path` after its last `/`.
pub fn last_segment(path: &str) -> (r: String)
    ensures
        r@ == last_segment_of(path@),
{
    let cs = chars_of(path);
    let n = cs.len();
    let mut p = n;
    while p > 0 && cs[p - 1] != '/'
        invariant
            p <= n,
            n == cs@.len(),
            cs@ == path@,
            forall|q: int| p <= q < n ==> cs@[q] != '/',
        decreases p,
    {
        p = p - 1;
    }
    if p == 0 {
        proof {
            assert(!exists|q: int| 0 <= q < cs@.len() && cs@[q] == '/');
        }
        return String::from_str(path);
    }
    proof {
        let w = choose|q: int| 0 <= q < cs@.len() && cs@[q] == '/' && forall|k: int| q < k < cs@.len() ==> cs@[k] != '/';
        assert(cs@[p - 1] == '/');
        if w < p - 1 {
            assert(cs@[p - 1] != '/');
        } else if w > p - 1 {
            assert(cs@[w] != '/');
        }
    }
    String::from_str(path.substring_char(p, n))
}

/// A separator of the mixer's readout: `[` or `]`.
pub open spec fn is_bracket(c: char) -> bool {
    c == '[' || c == ']'
}

/// The pieces of `s` between brackets, empty ones included
/// (`s.split(|c| c == '[' || c == ']')`).
pub open spec fn bracket_pieces(s: Seq<char>) -> Seq<Seq<char>>
    decreases s.len(),
{
    if s.len() == 0 {
        seq![Seq::<char>::empty()]
    } else {
        let rest = bracket_pieces(s.drop_last());
        if is_bracket(s.last()) {
            rest.push(Seq::<char>::empty())
        } else {
            rest.update(rest.len() - 1, rest.last().push(s.last()))
        }
    }
}

/// The level a piece reads, if it is one: the piece trimmed ends in `dB`, and
/// what comes before that, trimmed, is the number.
pub open spec fn db_reading(piece: Seq<char>) -> Option<Seq<char>> {
    let t = trim(piece);
    if t.len() >= 2 && t[t.len() - 2] == 'd' && t[t.len() - 1] == 'B' {
        Some(trim(t.subrange(0, t.len() - 2)))
    } else {
        None
    }
}

/// The readings of `pieces`, in order.
pub open spec fn db_readings(pieces: Seq<Seq<char>>) -> Seq<Seq<char>>
    decreases pieces.len(),
{
    if pieces.len() == 0 {
        Seq::empty()
    } else {
        let rest = db_readings(pieces.drop_last());
        match db_reading(pieces.last()) {
            Some(r) => rest.push(r),
            None => rest,
        }
    }
}

/// The reading of the piece `cs[from..to]` of `text`.
fn reading_of(text: &str, cs: &Vec<char>, from: usize, to: usize) -> (r: Option<String>)
    requires
        cs@ == text@,
        from <= to <= cs@.len(),
    ensures
        match db_reading(cs@.subrange(from as int, to as int)) {
            Some(v) => r matches Some(s) && s@ == v,
            None => r is None,
        },
{
    let a = skip_white_from(cs, from, to);
    let b = skip_white_end(cs, a, to);
    let ghost t = cs@.subrange(a as int, b as int);
    assert(trim(cs@.subrange(from as int, to as int)) == t);
    if b - a >= 2 && cs[b - 2] == 'd' && cs[b - 1] == 'B' {
        assert(t.subrange(0, t.len() - 2) =~= cs@.subrange(a as int, b - 2));
        let a2 = skip_white_from(cs, a, b - 2);
        let b2 = skip_white_end(cs, a2, b - 2);
        Some(String::from_str(text.substring_char(a2, b2)))
    } else {
        None
    }
}

/// The level readings in a mixer's text readout (`[-12.50dB]`), in order.
pub fn bracketed_db_readings(text: &str) -> (r: Vec<String>)
    ensures
        r@.len() == db_readings(bracket_pieces(text@)).len(),
        forall|k: int|
            0 <= k < r@.len() ==> #[trigger] r@[k]@ == db_readings(bracket_pieces(text@))[k],
{
    let cs = chars_of(text);
    let n = cs.len();
    let mut r: Vec<String> = Vec::new();
    let mut start: usize = 0;
    let mut i: usize = 0;
    let ghost mut done: Seq<Seq<char>> = Seq::empty();
    assert(cs@.subrange(0, 0) =~= Seq::<char>::empty());
    while i < n
        invariant
            cs@ == text@,
            n == cs@.len(),
            start <= i <= n,
            bracket_pieces(cs@.subrange(0, i as int)) == done.push(
                cs@.subrange(start as int, i as int),
            ),
            r@.len() == db_readings(done).len(),
            forall|k: int| 0 <= k < r@.len() ==> #[trigger] r@[k]@ == db_readings(done)[k],
        decreases n - i,
    {
        let ghost prefix = cs@.subrange(0, i + 1);
        assert(prefix.drop_last() =~= cs@.subrange(0, i as int));
        assert(prefix.last() == cs@[i as int]);
        if cs[i] == '[' || cs[i] == ']' {
            let ghost piece = cs@.subrange(start as int, i as int);
            let got = reading_of(text, &cs, start, i);
            proof {
                assert(done.push(piece).drop_last() =~= done);
            }
            match got {
                Some(v) => {
                    r.push(v);
                },
                None => {},
            }
            proof {
                done = done.push(piece);
                assert(cs@.subrange(i + 1, i + 1) =~= Seq::<char>::empty());
            }
            start = i + 1;
        } else {
            proof {
                assert(cs@.subrange(start as int, i + 1) =~= cs@.subrange(
                    start as int,
                    i as int,
                ).push(cs@[i as int]));
                assert(done.push(cs@.subrange(start as int, i as int)).update(
                    done.len() as int,
                    cs@.subrange(start as int, i + 1),
                ) =~= done.push(cs@.subrange(start as int, i + 1)));
            }
        }
        i = i + 1;
    }
    let ghost last = cs@.subrange(start as int, n as int);
    let got = reading_of(text, &cs, start, n);
    proof {
        assert(cs@.subrange(0, n as int) =~= cs@);
        assert(done.push(last).drop_last() =~= done);
    }
    match got {
        Some(v) => {
            r.push(v);
        },
        None => {},
    }
    r
}

} // verus!
