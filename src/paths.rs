use vstd::prelude::*;
use vstd::string::StringExecFns;

use crate::executor::opt_view;

verus! {

/// The suffix that names the resume sidecar of an output file.
pub open spec fn sidecar_suffix() -> Seq<char> {
    seq!['.', 'r', 'd', 'o', 'w', 'n', 'l', 'o', 'a', 'd']
}

/// Length of `s[0..end]` once trailing `/` separators and `.` components are dropped.
pub open spec fn trimmed_end(s: Seq<char>, end: int) -> int
    decreases end,
{
    if end <= 0 || end > s.len() {
        0
    } else if s[end - 1] == '/' {
        trimmed_end(s, end - 1)
    } else if s[end - 1] == '.' && (end == 1 || s[end - 2] == '/') {
        trimmed_end(s, end - 1)
    } else {
        end
    }
}

/// Start of the last component of `s[0..end]`: just past the last `/` before `end`.
pub open spec fn component_start(s: Seq<char>, end: int) -> int
    decreases end,
{
    if end <= 0 || end > s.len() {
        0
    } else if s[end - 1] == '/' {
        end
    } else {
        component_start(s, end - 1)
    }
}

/// The final component of a `/`-separated path, as `Path::file_name` gives it: trailing
/// separators and `.` components are skipped; nothing when no component is left or the
/// last one is `..`.
pub open spec fn path_file_name(s: Seq<char>) -> Option<Seq<char>> {
    let e = trimmed_end(s, s.len() as int);
    let name = s.subrange(component_start(s, e), e);
    if e == 0 || name == seq!['.', '.'] {
        None
    } else {
        Some(name)
    }
}

/// The path of the resume sidecar: `.rdownload` appended to the whole output path.
pub fn get_state_path(path: &str) -> (r: String)
    ensures
        r@ == path@ + sidecar_suffix(),
{
    let mut r = path.to_owned();
    let suffix = ".rdownload";
    proof {
        reveal_strlit(".rdownload");
    }
    r.append(suffix);
    assert(suffix@ =~= sidecar_suffix());
    r
}

/// The file name that ends a URL or path (`https://host/dir/file.zip` gives `file.zip`).
pub fn get_filename_from_path(url: &str) -> (r: Option<String>)
    ensures
        r matches Some(name) ==> path_file_name(url@) == Some(name@),
        r is None ==> path_file_name(url@) is None,
{
    let len = url.unicode_len();
    let mut e: usize = len;
    while e > 0
        invariant
            e <= len == url@.len(),
            trimmed_end(url@, e as int) == trimmed_end(url@, len as int),
        ensures
            e <= len,
            trimmed_end(url@, e as int) == trimmed_end(url@, len as int),
            trimmed_end(url@, e as int) == e as int,
        decreases e,
    {
        let c = url.get_char(e - 1);
        if c == '/' || (c == '.' && (e == 1 || url.get_char(e - 2) == '/')) {
            e = e - 1;
        } else {
            break;
        }
    }
    let mut b: usize = e;
    while b > 0
        invariant
            b <= e <= len == url@.len(),
            component_start(url@, b as int) == component_start(url@, e as int),
        ensures
            b <= e,
            component_start(url@, b as int) == component_start(url@, e as int),
            component_start(url@, b as int) == b as int,
        decreases b,
    {
        if url.get_char(b - 1) == '/' {
            break;
        }
        b = b - 1;
    }
    if e == 0 {
        return None;
    }
    let name = url.substring_char(b, e);
    if e - b == 2 && name.get_char(0) == '.' && name.get_char(1) == '.' {
        assert(name@ =~= seq!['.', '.']);
        return None;
    }
    assert(name@ != seq!['.', '.']) by {
        if name@ == seq!['.', '.'] {
            assert(name@[0] == '.' && name@[1] == '.');
        }
    }
    Some(name.to_owned())
}

/// `c` has the Unicode `White_Space` property.
pub open spec fn is_white_space(c: char) -> bool {
    ||| '\u{9}' <= c <= '\u{d}'
    ||| c == ' '
    ||| c == '\u{85}'
    ||| c == '\u{a0}'
    ||| c == '\u{1680}'
    ||| '\u{2000}' <= c <= '\u{200a}'
    ||| c == '\u{2028}'
    ||| c == '\u{2029}'
    ||| c == '\u{202f}'
    ||| c == '\u{205f}'
    ||| c == '\u{3000}'
}

/// `c` may stand in an unquoted file name: neither a quote nor white space.
pub open spec fn is_name_char(c: char) -> bool {
    c != '"' && !is_white_space(c)
}

/// Length of the run of file-name characters that starts at position `i` of `s`.
pub open spec fn name_run(s: Seq<char>, i: int) -> nat
    decreases s.len() - i,
{
    if 0 <= i < s.len() && is_name_char(s[i]) {
        1 + name_run(s, i + 1)
    } else {
        0
    }
}

/// `s` holds `filename=` at position `i`.
pub open spec fn key_at(s: Seq<char>, i: int) -> bool {
    0 <= i && i + 9 <= s.len() && s.subrange(i, i + 9) == seq![
        'f',
        'i',
        'l',
        'e',
        'n',
        'a',
        'm',
        'e',
        '=',
    ]
}

/// Start of the file name that follows `filename=` at position `i`: past an opening quote
/// when one stands there.
pub open spec fn name_start(s: Seq<char>, i: int) -> int {
    if i + 9 < s.len() && s[i + 9] == '"' {
        i + 10
    } else {
        i + 9
    }
}

/// `s` holds `filename=`, an optional quote and at least one file-name character at `i`.
pub open spec fn disposition_match_at(s: Seq<char>, i: int) -> bool {
    key_at(s, i) && name_run(s, name_start(s, i)) > 0
}

/// The first position where a file name is given, where one is.
pub open spec fn first_disposition_match(s: Seq<char>) -> int {
    choose|i: int|
        0 <= i < s.len() && #[trigger] disposition_match_at(s, i) && forall|j: int|
            0 <= j < i ==> !disposition_match_at(s, j)
}

/// The file name that a `Content-Disposition` value gives: at the first `filename=` that
/// is followed by an optional quote and one or more characters other than quotes and
/// white space, those characters.
pub open spec fn disposition_file_name(s: Seq<char>) -> Option<Seq<char>> {
    if exists|i: int| 0 <= i < s.len() && #[trigger] disposition_match_at(s, i) {
        let i = first_disposition_match(s);
        let b = name_start(s, i);
        Some(s.subrange(b, b + name_run(s, b)))
    } else {
        None
    }
}

proof fn lemma_name_run_bounds(s: Seq<char>, i: int)
    requires
        0 <= i <= s.len(),
    ensures
        i + name_run(s, i) <= s.len(),
    decreases s.len() - i,
{
    if i < s.len() && is_name_char(s[i]) {
        lemma_name_run_bounds(s, i + 1);
    }
}

proof fn lemma_first_disposition_match(s: Seq<char>, i: int)
    requires
        0 <= i < s.len(),
        disposition_match_at(s, i),
        forall|j: int| 0 <= j < i ==> !disposition_match_at(s, j),
    ensures
        first_disposition_match(s) == i,
{
    let k = first_disposition_match(s);
    assert(k == i) by {
        if k < i {
            assert(!disposition_match_at(s, k));
        } else if k > i {
            assert(!disposition_match_at(s, i));
        }
    }
}

fn name_char(c: char) -> (r: bool)
    ensures
        r == is_name_char(c),
{
    let white = ('\u{9}' <= c && c <= '\u{d}') || c == ' ' || c == '\u{85}' || c == '\u{a0}'
        || c == '\u{1680}' || ('\u{2000}' <= c && c <= '\u{200a}') || c == '\u{2028}' || c
        == '\u{2029}' || c == '\u{202f}' || c == '\u{205f}' || c == '\u{3000}';
    c != '"' && !white
}

fn scan_name(s: &str, len: usize, i: usize) -> (j: usize)
    requires
        len == s@.len(),
        i <= len,
    ensures
        j == i + name_run(s@, i as int),
        j <= len,
{
    proof {
        lemma_name_run_bounds(s@, i as int);
    }
    let mut j = i;
    while j < len
        invariant
            len == s@.len(),
            i <= j <= i + name_run(s@, i as int),
            name_run(s@, j as int) + j == name_run(s@, i as int) + i,
        ensures
            j == i + name_run(s@, i as int),
        decreases len - j,
    {
        if !name_char(s.get_char(j)) {
            break;
        }
        j = j + 1;
    }
    j
}

fn key_match(s: &str, len: usize, i: usize) -> (r: bool)
    requires
        len == s@.len(),
        i < len,
    ensures
        r == key_at(s@, i as int),
{
    if len - i < 9 {
        return false;
    }
    let key = "filename=";
    proof {
        reveal_strlit("filename=");
    }
    let mut k: usize = 0;
    while k < 9
        invariant
            len == s@.len(),
            i + 9 <= len,
            key@ == seq!['f', 'i', 'l', 'e', 'n', 'a', 'm', 'e', '='],
            k <= 9,
            forall|m: int| 0 <= m < k ==> s@[i + m] == key@[m],
        decreases 9 - k,
    {
        if s.get_char(i + k) != key.get_char(k) {
            assert(s@.subrange(i as int, i + 9)[k as int] != key@[k as int]);
            return false;
        }
        k = k + 1;
    }
    assert(s@.subrange(i as int, i + 9) =~= key@);
    true
}

/// The file name that a `Content-Disposition` value such as `attachment; filename="a.zip"`
/// gives (see `disposition_file_name`).
pub fn filename_from_disposition(s: &str) -> (r: Option<String>)
    ensures
        opt_view(r) == disposition_file_name(s@),
{
    let len = s.unicode_len();
    let mut i: usize = 0;
    while i < len
        invariant
            len == s@.len(),
            i <= len,
            forall|j: int| 0 <= j < i ==> !disposition_match_at(s@, j),
        decreases len - i,
    {
        if key_match(s, len, i) {
            let b: usize = if i + 9 < len && s.get_char(i + 9) == '"' {
                i + 10
            } else {
                i + 9
            };
            let e = scan_name(s, len, b);
            if e > b {
                proof {
                    lemma_first_disposition_match(s@, i as int);
                }
                return Some(s.substring_char(b, e).to_owned());
            }
        }
        i = i + 1;
    }
    None
}

} // verus!
