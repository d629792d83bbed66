//! Names of stored FIR responses and presets: validation (which also rules
//! out path traversal) and the file path a valid name maps to.

use vstd::prelude::*;

verus! {

/// The characters of `s`, in order.
pub fn chars_of(s: &str) -> (v: Vec<char>)
    ensures
        v@ == s@,
{
    let mut v: Vec<char> = Vec::new();
    for c in it: s.chars()
        invariant
            v@ == it.seq().take(it.index() as int),
            it.seq() == s@,
    {
        v.push(c);
    }
    v
}


/// Unicode `White_Space` (what `char::is_whitespace` tests).
pub open spec fn is_white_space(c: char) -> bool {
    let u = c as u32;
    ||| 0x9 <= u <= 0xD
    ||| u == 0x20
    ||| u == 0x85
    ||| u == 0xA0
    ||| u == 0x1680
    ||| 0x2000 <= u <= 0x200A
    ||| u == 0x2028
    ||| u == 0x2029
    ||| u == 0x202F
    ||| u == 0x205F
    ||| u == 0x3000
}

/// `char::is_whitespace`.
pub fn white_space(c: char) -> (b: bool)
    ensures
        b == is_white_space(c),
{
    let u = c as u32;
    (0x9 <= u && u <= 0xD) || u == 0x20 || u == 0x85 || u == 0xA0 || u == 0x1680 || (0x2000 <= u
        && u <= 0x200A) || u == 0x2028 || u == 0x2029 || u == 0x202F || u == 0x205F || u == 0x3000
}

/// `s` without leading white space.
pub open spec fn trim_start(s: Seq<char>) -> Seq<char>
    decreases s.len(),
{
    if s.len() > 0 && is_white_space(s[0]) {
        trim_start(s.drop_first())
    } else {
        s
    }
}

/// `s` without trailing white space.
pub open spec fn trim_end(s: Seq<char>) -> Seq<char>
    decreases s.len(),
{
    if s.len() > 0 && is_white_space(s.last()) {
        trim_end(s.drop_last())
    } else {
        s
    }
}

/// `s` without leading and trailing white space (`str::trim`).
pub open spec fn trim(s: Seq<char>) -> Seq<char> {
    trim_end(trim_start(s))
}

/// `s` with every trailing `.fir` removed (`str::trim_end_matches(".fir")`).
pub open spec fn strip_fir(s: Seq<char>) -> Seq<char>
    decreases s.len(),
{
    if s.len() >= 4 && s.subrange(s.len() - 4, s.len() as int) == seq!['.', 'f', 'i', 'r'] {
        strip_fir(s.subrange(0, s.len() - 4))
    } else {
        s
    }
}

/// A character allowed in a stored name: an ASCII letter or digit, space,
/// `-`, `_` or `.`.
pub open spec fn name_char(c: char) -> bool {
    let u = c as u32;
    ||| 0x30 <= u <= 0x39
    ||| 0x41 <= u <= 0x5A
    ||| 0x61 <= u <= 0x7A
    ||| u == 0x20
    ||| u == 0x2D
    ||| u == 0x5F
    ||| u == 0x2E
}

fn is_name_char(c: char) -> (b: bool)
    ensures
        b == name_char(c),
{
    let u = c as u32;
    (0x30 <= u && u <= 0x39) || (0x41 <= u && u <= 0x5A) || (0x61 <= u && u <= 0x7A) || u == 0x20
        || u == 0x2D || u == 0x5F || u == 0x2E
}

/// Bytes of the UTF-8 encoding of `c`.
pub open spec fn utf8_width(c: char) -> nat {
    let u = c as u32;
    if u < 0x80 {
        1
    } else if u < 0x800 {
        2
    } else if u < 0x10000 {
        3
    } else {
        4
    }
}

/// Bytes of the UTF-8 encoding of `s` (what `str::len` counts).
pub open spec fn utf8_len(s: Seq<char>) -> nat
    decreases s.len(),
{
    if s.len() == 0 {
        0
    } else {
        utf8_len(s.drop_last()) + utf8_width(s.last())
    }
}

/// Whether the UTF-8 encoding of `s[from..to]` is longer than `limit` bytes.
fn utf8_longer_than(s: &Vec<char>, from: usize, to: usize, limit: usize) -> (b: bool)
    requires
        from <= to <= s@.len(),
        limit <= 1024,
    ensures
        b == (utf8_len(s@.subrange(from as int, to as int)) > limit),
{
    let mut total: usize = 0;
    let mut k: usize = from;
    assert(s@.subrange(from as int, from as int) =~= Seq::<char>::empty());
    while k < to
        invariant
            from <= k <= to,
            to <= s@.len(),
            limit <= 1024,
            total == utf8_len(s@.subrange(from as int, k as int)),
            total <= limit,
        decreases to - k,
    {
        let u = s[k] as u32;
        let w: usize = if u < 0x80 {
            1
        } else if u < 0x800 {
            2
        } else if u < 0x10000 {
            3
        } else {
            4
        };
        assert(s@.subrange(from as int, k + 1).drop_last() =~= s@.subrange(from as int, k as int));
        total = total + w;
        k = k + 1;
        if total > limit {
            proof {
                lemma_utf8_len_grows(s@, from as int, k as int, to as int);
            }
            return true;
        }
    }
    false
}

proof fn lemma_utf8_len_grows(s: Seq<char>, from: int, k: int, to: int)
    requires
        0 <= from <= k <= to <= s.len(),
    ensures
        utf8_len(s.subrange(from, k)) <= utf8_len(s.subrange(from, to)),
    decreases to - k,
{
    if k < to {
        lemma_utf8_len_grows(s, from, k, to - 1);
        assert(s.subrange(from, to).drop_last() =~= s.subrange(from, to - 1));
    }
}

/// Why a name was refused.
#[derive(Debug, Clone, Copy, PartialEq, Eq)]
pub enum NameError {
    /// Empty, or longer than 64 bytes.
    Length,
    /// Holds a character other than letters, digits, space, `-`, `_`, `.`.
    Charset,
}

/// The outcome of validating the (already trimmed) name `n`.
pub open spec fn check_name(n: Seq<char>) -> Result<Seq<char>, NameError> {
    if n.len() == 0 || utf8_len(n) > 64 {
        Err(NameError::Length)
    } else if !(forall|i: int| 0 <= i < n.len() ==> #[trigger] name_char(n[i])) {
        Err(NameError::Charset)
    } else {
        Ok(n)
    }
}

/// Index of the first character of `s` that is not white space.
fn skip_white_start(s: &Vec<char>) -> (i: usize)
    ensures
        i <= s@.len(),
        trim_start(s@) == s@.subrange(i as int, s@.len() as int),
{
    let mut i: usize = 0;
    assert(s@.subrange(0, s@.len() as int) =~= s@);
    while i < s.len() && white_space(s[i])
        invariant
            i <= s@.len(),
            trim_start(s@) == trim_start(s@.subrange(i as int, s@.len() as int)),
        decreases s@.len() - i,
    {
        assert(s@.subrange(i as int, s@.len() as int).drop_first() =~= s@.subrange(
            i + 1,
            s@.len() as int,
        ));
        i = i + 1;
    }
    i
}

/// Start index after dropping the leading white space of `s[from..to]`.
pub(crate) fn skip_white_from(s: &Vec<char>, from: usize, to: usize) -> (i: usize)
    requires
        from <= to <= s@.len(),
    ensures
        from <= i <= to,
        trim_start(s@.subrange(from as int, to as int)) == s@.subrange(i as int, to as int),
{
    let mut i: usize = from;
    while i < to && white_space(s[i])
        invariant
            from <= i <= to,
            to <= s@.len(),
            trim_start(s@.subrange(from as int, to as int)) == trim_start(
                s@.subrange(i as int, to as int),
            ),
        decreases to - i,
    {
        assert(s@.subrange(i as int, to as int).drop_first() =~= s@.subrange(i + 1, to as int));
        i = i + 1;
    }
    i
}

/// End index after dropping the trailing white space of `s[from..to]`.
pub(crate) fn skip_white_end(s: &Vec<char>, from: usize, to: usize) -> (j: usize)
    requires
        from <= to <= s@.len(),
    ensures
        from <= j <= to,
        trim_end(s@.subrange(from as int, to as int)) == s@.subrange(from as int, j as int),
{
    let mut j: usize = to;
    while j > from && white_space(s[j - 1])
        invariant
            from <= j <= to,
            to <= s@.len(),
            trim_end(s@.subrange(from as int, to as int)) == trim_end(
                s@.subrange(from as int, j as int),
            ),
        decreases j,
    {
        assert(s@.subrange(from as int, j as int).drop_last() =~= s@.subrange(
            from as int,
            j - 1,
        ));
        j = j - 1;
    }
    j
}

/// End index after stripping every trailing `.fir` from `s[from..to]`.
fn skip_fir_suffix(s: &Vec<char>, from: usize, to: usize) -> (e: usize)
    requires
        from <= to <= s@.len(),
    ensures
        from <= e <= to,
        strip_fir(s@.subrange(from as int, to as int)) == s@.subrange(from as int, e as int),
{
    let mut e: usize = to;
    loop
        invariant
            from <= e <= to,
            to <= s@.len(),
            strip_fir(s@.subrange(from as int, to as int)) == strip_fir(
                s@.subrange(from as int, e as int),
            ),
        decreases e,
    {
        let t = Ghost(s@.subrange(from as int, e as int));
        if e - from >= 4 && s[e - 4] == '.' && s[e - 3] == 'f' && s[e - 2] == 'i' && s[e - 1]
            == 'r' {
            assert(t@.subrange(t@.len() - 4, t@.len() as int) =~= seq!['.', 'f', 'i', 'r']);
            assert(t@.subrange(0, t@.len() - 4) =~= s@.subrange(from as int, e - 4));
            e = e - 4;
        } else {
            proof {
                if t@.len() >= 4 {
                    if t@.subrange(t@.len() - 4, t@.len() as int) == seq!['.', 'f', 'i', 'r'] {
                        assert(t@.subrange(t@.len() - 4, t@.len() as int)[0] == s@[e - 4]);
                        assert(t@.subrange(t@.len() - 4, t@.len() as int)[1] == s@[e - 3]);
                        assert(t@.subrange(t@.len() - 4, t@.len() as int)[2] == s@[e - 2]);
                        assert(t@.subrange(t@.len() - 4, t@.len() as int)[3] == s@[e - 1]);
                    }
                }
            }
            return e;
        }
    }
}

/// Law: a name that passes validation holds no path separator and no NUL,
/// so `<dir>/<name>.<ext>` always names a file directly inside `dir`.
pub proof fn law_valid_name_is_plain(n: Seq<char>)
    requires
        check_name(n) is Ok,
    ensures
        forall|i: int| 0 <= i < n.len() ==> #[trigger] n[i] != '/' && n[i] != '\0',
        n.len() >= 1,
{
    assert forall|i: int| 0 <= i < n.len() implies #[trigger] n[i] != '/' && n[i] != '\0' by {
        assert(name_char(n[i]));
    }
}

proof fn lemma_ascii_utf8_len(n: Seq<char>)
    requires
        forall|i: int| 0 <= i < n.len() ==> (#[trigger] n[i] as u32) < 0x80,
    ensures
        utf8_len(n) == n.len(),
    decreases n.len(),
{
    if n.len() > 0 {
        assert forall|i: int| 0 <= i < n.drop_last().len() implies (#[trigger] n.drop_last()[i] as u32)
            < 0x80 by {
            assert(n.drop_last()[i] == n[i]);
        }
        lemma_ascii_utf8_len(n.drop_last());
        assert((n.last() as u32) < 0x80);
    }
}

/// Law: every name of 1 to 64 characters made only of ASCII letters and
/// digits, space, `-`, `_` and `.`, and not starting or ending with a space,
/// is accepted unchanged (it is its own trimmed form, and validation returns
/// it as it is).
pub proof fn law_plain_names_accepted(n: Seq<char>)
    requires
        1 <= n.len() <= 64,
        forall|i: int|
            0 <= i < n.len() ==> ('0' <= #[trigger] n[i] <= '9' || 'a' <= n[i] <= 'z' || 'A' <= n[i]
                <= 'Z' || n[i] == ' ' || n[i] == '-' || n[i] == '_' || n[i] == '.'),
        n[0] != ' ',
        n[n.len() - 1] != ' ',
    ensures
        trim(n) == n,
        check_name(n) == Ok::<Seq<char>, NameError>(n),
{
    assert forall|i: int| 0 <= i < n.len() implies (#[trigger] n[i] as u32) < 0x80 by {
        assert('0' <= n[i] <= '9' || 'a' <= n[i] <= 'z' || 'A' <= n[i] <= 'Z' || n[i] == ' ' || n[i]
            == '-' || n[i] == '_' || n[i] == '.');
    }
    lemma_ascii_utf8_len(n);
    assert(!is_white_space(n[0]));
    assert(trim_start(n) == n);
    assert(n.last() == n[n.len() - 1]);
    assert(!is_white_space(n.last()));
    assert(trim_end(n) == n);
    assert forall|i: int| 0 <= i < n.len() implies #[trigger] name_char(n[i]) by {
        assert('0' <= n[i] <= '9' || 'a' <= n[i] <= 'z' || 'A' <= n[i] <= 'Z' || n[i] == ' ' || n[i]
            == '-' || n[i] == '_' || n[i] == '.');
    }
}

proof fn lemma_same_code(c: char, d: char)
    requires
        c as u32 == d as u32,
    ensures
        c == d,
{
}

proof fn lemma_name_char_plain(c: char)
    requires
        name_char(c),
    ensures
        '0' <= c <= '9' || 'a' <= c <= 'z' || 'A' <= c <= 'Z' || c == ' ' || c == '-' || c == '_'
            || c == '.',
{
    let u = c as u32;
    if u == 0x20 {
        lemma_same_code(c, ' ');
    } else if u == 0x2D {
        lemma_same_code(c, '-');
    } else if u == 0x5F {
        lemma_same_code(c, '_');
    } else if u == 0x2E {
        lemma_same_code(c, '.');
    }
}

/// Law: an accepted name holds only ASCII letters and digits, space, `-`,
/// `_` and `.`.
pub proof fn law_accepted_names_are_plain(n: Seq<char>)
    requires
        check_name(n) is Ok,
    ensures
        forall|i: int|
            0 <= i < n.len() ==> ('0' <= #[trigger] n[i] <= '9' || 'a' <= n[i] <= 'z' || 'A' <= n[i]
                <= 'Z' || n[i] == ' ' || n[i] == '-' || n[i] == '_' || n[i] == '.'),
{
    assert forall|i: int| 0 <= i < n.len() implies ('0' <= #[trigger] n[i] <= '9' || 'a' <= n[i]
        <= 'z' || 'A' <= n[i] <= 'Z' || n[i] == ' ' || n[i] == '-' || n[i] == '_' || n[i] == '.') by {
        lemma_name_char_plain(n[i]);
    }
}

/// Validate `name[from..to]` and return it as a `String`.
fn validated(name: &str, s: &Vec<char>, from: usize, to: usize) -> (r: Result<String, NameError>)
    requires
        from <= to <= s@.len(),
        s@ == name@,
    ensures
        match check_name(s@.subrange(from as int, to as int)) {
            Ok(n) => r matches Ok(v) && v@ == n,
            Err(e) => r == Err::<String, NameError>(e),
        },
{
    let ghost n = s@.subrange(from as int, to as int);
    if to == from || utf8_longer_than(s, from, to, 64) {
        return Err(NameError::Length);
    }
    let mut i: usize = from;
    while i < to
        invariant
            from <= i <= to,
            to <= s@.len(),
            n == s@.subrange(from as int, to as int),
            n.len() > 0,
            utf8_len(n) <= 64,
            forall|j: int| from <= j < i ==> #[trigger] name_char(s@[j]),
        decreases to - i,
    {
        if !is_name_char(s[i]) {
            proof {
                assert(!name_char(n[i - from]));
            }
            return Err(NameError::Charset);
        }
        i = i + 1;
    }
    proof {
        assert forall|j: int| 0 <= j < n.len() implies #[trigger] name_char(n[j]) by {
            assert(n[j] == s@[from + j]);
        }
    }
    let out = String::from_str(name.substring_char(from, to));
    assert(out@ =~= n);
    Ok(out)
}

/// Validate a preset name: trimmed of white space, 1 to 64 bytes, only
/// letters, digits, space, `-`, `_` and `.` (so it cannot leave its directory).
pub fn sanitize_preset_name(name: &str) -> (r: Result<String, NameError>)
    ensures
        match check_name(trim(name@)) {
            Ok(n) => r matches Ok(v) && v@ == n,
            Err(e) => r == Err::<String, NameError>(e),
        },
{
    let cs = chars_of(name);
    let i = skip_white_start(&cs);
    let j = skip_white_end(&cs, i, cs.len());
    validated(name, &cs, i, j)
}

/// Validate a FIR name: like a preset name, after also removing any trailing
/// `.fir` extension.
pub fn sanitize_fir_name(name: &str) -> (r: Result<String, NameError>)
    ensures
        match check_name(strip_fir(trim(name@))) {
            Ok(n) => r matches Ok(v) && v@ == n,
            Err(e) => r == Err::<String, NameError>(e),
        },
{
    let cs = chars_of(name);
    let i = skip_white_start(&cs);
    let j = skip_white_end(&cs, i, cs.len());
    let e = skip_fir_suffix(&cs, i, j);
    validated(name, &cs, i, e)
}

impl NameError {
    /// The message reported for a refused name of a `subject` ("FIR",
    /// "preset").
    pub fn message(self, subject: &str) -> (m: String)
        ensures
            m@ == subject@ + match self {
                NameError::Length => " name must be 1\u{2013}64 characters"@,
                NameError::Charset => " name: letters, numbers, space, '-', '_' and '.' only"@,
            },
    {
        let s = String::from_str(subject);
        match self {
            NameError::Length => s.concat(" name must be 1\u{2013}64 characters"),
            NameError::Charset => s.concat(" name: letters, numbers, space, '-', '_' and '.' only"),
        }
    }
}

/// `dir` joined with a relative file name, as a path: a separator is added
/// unless `dir` is empty or already ends with one.
pub open spec fn join_path(dir: Seq<char>, file: Seq<char>) -> Seq<char> {
    if dir.len() == 0 || dir.last() == '/' {
        dir + file
    } else {
        dir + seq!['/'] + file
    }
}

fn join(dir: &String, file: &String) -> (p: String)
    ensures
        p@ == join_path(dir@, file@),
{
    let cs = chars_of(dir.as_str());
    let p = String::from_str(dir.as_str());
    if cs.len() == 0 || cs[cs.len() - 1] == '/' {
        p.concat(file.as_str())
    } else {
        let q = p.concat("/");
        proof {
            reveal_strlit("/");
        }
        q.concat(file.as_str())
    }
}

/// Store of FIR impulse responses, one `<name>.fir` file per response.
pub struct Firs {
    dir: String,
}

impl Firs {
    pub closed spec fn spec_dir(&self) -> Seq<char> {
        self.dir@
    }

    /// A store in `dir`.
    pub fn with_dir(dir: String) -> (f: Firs)
        ensures
            f.spec_dir() == dir@,
    {
        Firs { dir }
    }

    /// The directory of the store.
    pub fn dir(&self) -> (d: &String)
        ensures
            d@ == self.spec_dir(),
    {
        &self.dir
    }

    /// Validate a FIR name (see `sanitize_fir_name`).
    pub fn sanitize(name: &str) -> (r: Result<String, NameError>)
        ensures
            match check_name(strip_fir(trim(name@))) {
                Ok(n) => r matches Ok(v) && v@ == n,
                Err(e) => r == Err::<String, NameError>(e),
            },
    {
        sanitize_fir_name(name)
    }

    /// The file of FIR `name`: `<dir>/<sanitized name>.fir`.
    pub fn path(&self, name: &str) -> (r: Result<String, NameError>)
        ensures
            match check_name(strip_fir(trim(name@))) {
                Ok(n) => r matches Ok(p) && p@ == join_path(self.spec_dir(), n + ".fir"@),
                Err(e) => r == Err::<String, NameError>(e),
            },
    {
        let n = Self::sanitize(name)?;
        let file = n.concat(".fir");
        Ok(join(&self.dir, &file))
    }
}

/// Store of tuning presets, one `<name>.json` file per preset.
pub struct Presets {
    dir: String,
}

impl Presets {
    pub closed spec fn spec_dir(&self) -> Seq<char> {
        self.dir@
    }

    /// A store in `dir`.
    pub fn with_dir(dir: String) -> (p: Presets)
        ensures
            p.spec_dir() == dir@,
    {
        Presets { dir }
    }

    /// The directory of the store.
    pub fn dir(&self) -> (d: &String)
        ensures
            d@ == self.spec_dir(),
    {
        &self.dir
    }

    /// Validate a preset name (see `sanitize_preset_name`).
    pub fn sanitize(name: &str) -> (r: Result<String, NameError>)
        ensures
            match check_name(trim(name@)) {
                Ok(n) => r matches Ok(v) && v@ == n,
                Err(e) => r == Err::<String, NameError>(e),
            },
    {
        sanitize_preset_name(name)
    }

    /// The file of preset `name`: `<dir>/<sanitized name>.json`.
    pub fn path(&self, name: &str) -> (r: Result<String, NameError>)
        ensures
            match check_name(trim(name@)) {
                Ok(n) => r matches Ok(p) && p@ == join_path(self.spec_dir(), n + ".json"@),
                Err(e) => r == Err::<String, NameError>(e),
            },
    {
        let n = Self::sanitize(name)?;
        let file = n.concat(".json");
        Ok(join(&self.dir, &file))
    }
}

} // verus!
