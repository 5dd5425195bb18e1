//! Clip short names: the file name of a clip's full name, without directory and
//! extension, in lower case.
use vstd::prelude::*;
use vstd::slice::{slice_subrange, slice_to_vec};
use vstd::std_specs::iter::IteratorSpec;
use vstd::utf8::is_ascii_chars;
use crate::error::string_from_chars;

verus! {

broadcast use vstd::string::axiom_spec_iter;

/// The lower-case form of `s` that std's `str::to_lowercase` computes (Unicode
/// lower-case mapping).
pub uninterp spec fn lowercase(s: Seq<char>) -> Seq<char>;

/// ASCII upper-case letters mapped to lower case, everything else kept.
pub open spec fn ascii_lowercase(s: Seq<char>) -> Seq<char> {
    s.map_values(
        |c: char|
            if 'A' <= c && c <= 'Z' {
                ((c as u32) + 32) as char
            } else {
                c
            },
    )
}

/// `str::to_lowercase`. Its result is named `lowercase`; on ASCII text it maps
/// `A`-`Z` to `a`-`z` and keeps every other character, as Unicode's lower-case
/// mapping does there.
#[verifier::external_body]
fn to_lowercase(s: &str) -> (r: String)
    ensures
        r@ == lowercase(s@),
        is_ascii_chars(s@) ==> r@ == ascii_lowercase(s@),
        r@ == lower_text(s@),
{
    s.to_lowercase()
}

/// The characters of `s`.
pub fn chars_of(s: &str) -> (v: Vec<char>)
    ensures
        v@ == s@,
{
    let mut v: Vec<char> = Vec::new();
    for c in it: s.chars()
        invariant
            it.seq() == s@,
            v@ == it.seq().take(it.index()),
    {
        v.push(c);
        assert(v@ =~= it.seq().take(it.index() + 1));
    }
    assert(v@ =~= s@);
    v
}

/// Backslashes turned into slashes.
pub open spec fn unify_separators(s: Seq<char>) -> Seq<char> {
    s.map_values(|c: char| if c == '\\' { '/' } else { c })
}

/// Index of the last `c` among the first `end` characters of `s`.
pub open spec fn last_before(s: Seq<char>, c: char, end: int) -> Option<int>
    decreases end,
{
    if end <= 0 {
        None
    } else if s[end - 1] == c {
        Some(end - 1)
    } else {
        last_before(s, c, end - 1)
    }
}

/// Index of the first `c` at or after index `start` of `s`.
pub open spec fn first_from(s: Seq<char>, c: char, start: int) -> Option<int>
    decreases s.len() - start,
{
    if start >= s.len() || start < 0 {
        None
    } else if s[start] == c {
        Some(start)
    } else {
        first_from(s, c, start + 1)
    }
}

/// What follows the last slash, unless the slash ends the name.
pub open spec fn after_last_slash(n: Seq<char>) -> Seq<char> {
    match last_before(n, '/', n.len() as int) {
        Some(sl) => if sl < n.len() - 1 {
            n.subrange(sl + 1, n.len() as int)
        } else {
            n
        },
        None => n,
    }
}

/// What precedes the first dot, unless the name starts with it.
pub open spec fn before_first_dot(n: Seq<char>) -> Seq<char> {
    match first_from(n, '.', 0) {
        Some(d) => if d > 0 {
            n.subrange(0, d)
        } else {
            n
        },
        None => n,
    }
}

/// The short name of a full clip name, before lower-casing.
pub open spec fn short_name_chars(s: Seq<char>) -> Seq<char> {
    before_first_dot(after_last_slash(unify_separators(s)))
}

/// The lower-case form of `s`: ASCII text has its letters `A`-`Z` lowered, other
/// text follows the Unicode lower-case mapping.
pub open spec fn lower_text(s: Seq<char>) -> Seq<char> {
    if is_ascii_chars(s) {
        ascii_lowercase(s)
    } else {
        lowercase(s)
    }
}

/// The short name of a full clip name.
pub open spec fn short_name_spec(s: Seq<char>) -> Seq<char> {
    lower_text(short_name_chars(s))
}

/// No character of `s` is `c`.
pub open spec fn lacks(s: Seq<char>, c: char) -> bool {
    forall|k: int| 0 <= k < s.len() ==> s[k] != c
}

proof fn lemma_last_before(s: Seq<char>, c: char, end: int)
    requires
        0 <= end <= s.len(),
    ensures
        match last_before(s, c, end) {
            Some(i) => 0 <= i < end && s[i] == c && forall|k: int| i < k < end ==> s[k] != c,
            None => forall|k: int| 0 <= k < end ==> s[k] != c,
        },
    decreases end,
{
    if end > 0 && s[end - 1] != c {
        lemma_last_before(s, c, end - 1);
    }
}

proof fn lemma_first_from(s: Seq<char>, c: char, start: int)
    requires
        0 <= start <= s.len(),
    ensures
        match first_from(s, c, start) {
            Some(i) => start <= i < s.len() && s[i] == c && forall|k: int| start <= k < i ==> s[k]
                != c,
            None => forall|k: int| start <= k < s.len() ==> s[k] != c,
        },
    decreases s.len() - start,
{
    if start < s.len() && s[start] != c {
        lemma_first_from(s, c, start + 1);
    }
}

/// Cutting a name keeps it ASCII when it was.
proof fn lemma_short_name_chars_ascii(s: Seq<char>)
    requires
        is_ascii_chars(s),
    ensures
        is_ascii_chars(short_name_chars(s)),
{
    let n = unify_separators(s);
    assert(is_ascii_chars(n));
    let n1 = after_last_slash(n);
    lemma_last_before(n, '/', n.len() as int);
    assert(is_ascii_chars(n1));
    lemma_first_from(n1, '.', 0);
    assert(is_ascii_chars(before_first_dot(n1)));
}

/// Of ASCII text, the short name holds no backslash and no upper-case letter, and is
/// its own lower-case form.
pub proof fn lemma_short_name_ascii_form(s: Seq<char>)
    requires
        is_ascii_chars(s),
    ensures
        is_ascii_chars(short_name_spec(s)),
        lacks(short_name_spec(s), '\\'),
        forall|k: int|
            0 <= k < short_name_spec(s).len() ==> !('A' <= #[trigger] short_name_spec(s)[k] <= 'Z'),
        lower_text(short_name_spec(s)) == short_name_spec(s),
{
    lemma_short_name_chars_ascii(s);
    let m = short_name_chars(s);
    let r = short_name_spec(s);
    assert(r == ascii_lowercase(m));
    let n = unify_separators(s);
    lemma_last_before(n, '/', n.len() as int);
    let n1 = after_last_slash(n);
    assert(lacks(n1, '\\'));
    lemma_first_from(n1, '.', 0);
    assert(lacks(m, '\\'));
    assert(is_ascii_chars(r));
    assert(lacks(r, '\\'));
    assert(ascii_lowercase(r) =~= r);
}

/// Of ASCII text that does not end with a separator, taking the short name twice
/// gives the short name.
pub proof fn lemma_short_name_idempotent(s: Seq<char>)
    requires
        is_ascii_chars(s),
        s.len() == 0 || (s.last() != '/' && s.last() != '\\'),
    ensures
        short_name_spec(short_name_spec(s)) == short_name_spec(s),
{
    lemma_short_name_ascii_form(s);
    let n = unify_separators(s);
    lemma_last_before(n, '/', n.len() as int);
    let n1 = after_last_slash(n);
    assert(lacks(n1, '/'));
    lemma_first_from(n1, '.', 0);
    let m = before_first_dot(n1);
    assert(lacks(m, '/'));
    assert(m.len() == 0 || lacks(m, '.') || m[0] == '.');
    let r = short_name_spec(s);
    assert(r == ascii_lowercase(m));
    assert(lacks(r, '/'));
    assert(r.len() == 0 || lacks(r, '.') || r[0] == '.');
    assert(unify_separators(r) =~= r);
    lemma_last_before(r, '/', r.len() as int);
    assert(after_last_slash(r) == r);
    lemma_first_from(r, '.', 0);
    assert(before_first_dot(r) == r);
    assert(short_name_chars(r) == r);
}

/// The short name of any name, before lower-casing, is one piece of the name with
/// its separators unified: it starts at the beginning or right after a `/`, it ends
/// at the end or right before a `.`, and it holds no backslash. Unless the name ends
/// with a separator the piece holds no `/` (it follows the last one), and unless it
/// starts with a `.` it holds no `.` (it stops at the first one).
pub proof fn lemma_short_name_piece(s: Seq<char>)
    ensures
        ({
            let n = unify_separators(s);
            let r = short_name_chars(s);
            &&& lacks(r, '\\')
            &&& exists|i: int, j: int|
                0 <= i <= j <= n.len() && r == n.subrange(i, j) && (i == 0 || n[i - 1] == '/')
                    && (j == n.len() || n[j] == '.')
            &&& (n.len() == 0 || n.last() != '/') ==> lacks(r, '/')
            &&& (r.len() == 0 || r[0] != '.') ==> lacks(r, '.')
        }),
{
    let n = unify_separators(s);
    let len = n.len() as int;
    lemma_last_before(n, '/', len);
    let i: int = match last_before(n, '/', len) {
        Some(sl) => if sl < len - 1 {
            sl + 1
        } else {
            0
        },
        None => 0,
    };
    let n1 = after_last_slash(n);
    assert(n1 =~= n.subrange(i, len));
    lemma_first_from(n1, '.', 0);
    let j: int = match first_from(n1, '.', 0) {
        Some(d) => if d > 0 {
            i + d
        } else {
            len
        },
        None => len,
    };
    let r = short_name_chars(s);
    assert(r =~= n.subrange(i, j));
    assert(lacks(n, '\\'));
    assert(lacks(r, '\\'));
    if n.len() == 0 || n.last() != '/' {
        assert(lacks(n1, '/'));
        assert(lacks(r, '/'));
    }
    if r.len() == 0 || r[0] != '.' {
        assert(lacks(r, '.'));
    }
}

fn last_index_of(v: &Vec<char>, c: char) -> (r: Option<usize>)
    ensures
        r matches Some(i) ==> i < v@.len() && last_before(v@, c, v@.len() as int) == Some(i as int),
        r is None ==> last_before(v@, c, v@.len() as int) is None,
{
    let mut end = v.len();
    while end > 0
        invariant
            end <= v@.len(),
            last_before(v@, c, v@.len() as int) == last_before(v@, c, end as int),
        decreases end,
    {
        if v[end - 1] == c {
            return Some(end - 1);
        }
        end = end - 1;
    }
    None
}

fn first_index_of(v: &Vec<char>, c: char) -> (r: Option<usize>)
    ensures
        r matches Some(i) ==> i < v@.len() && first_from(v@, c, 0) == Some(i as int),
        r is None ==> first_from(v@, c, 0) is None,
{
    let mut i: usize = 0;
    while i < v.len()
        invariant
            i <= v@.len(),
            first_from(v@, c, 0) == first_from(v@, c, i as int),
        decreases v@.len() - i,
    {
        if v[i] == c {
            return Some(i);
        }
        i = i + 1;
    }
    None
}

/// The short name of a full clip name: separators unified to `/`, the part after the
/// last `/` (unless `/` ends the name), the part before the first `.` (unless the
/// name starts with `.`), in lower case.
pub fn to_short_name(name: Option<&str>) -> (r: Option<String>)
    ensures
        match name {
            None => r is None,
            Some(s) => r matches Some(t) && t@ == short_name_spec(s@),
        },
        match name {
            Some(s) => is_ascii_chars(s@) ==> (r matches Some(t) && t@ == ascii_lowercase(
                short_name_chars(s@),
            )),
            None => true,
        },
{
    proof {
        if let Some(s) = name {
            if is_ascii_chars(s@) {
                lemma_short_name_chars_ascii(s@);
            }
        }
    }
    let name = match name {
        Some(n) => n,
        None => {
            return None;
        },
    };
    let chars = chars_of(name);
    let mut n: Vec<char> = Vec::new();
    let mut i: usize = 0;
    while i < chars.len()
        invariant
            chars@ == name@,
            i <= chars@.len(),
            n@ == unify_separators(chars@.take(i as int)),
        decreases chars@.len() - i,
    {
        let c = chars[i];
        n.push(if c == '\\' { '/' } else { c });
        assert(chars@.take(i + 1) == chars@.take(i as int).push(c));
        assert(n@ =~= unify_separators(chars@.take(i + 1)));
        i = i + 1;
    }
    assert(chars@.take(i as int) =~= name@);
    let ghost unified = n@;
    match last_index_of(&n, '/') {
        Some(sl) => {
            if sl < n.len() - 1 {
                n = slice_to_vec(slice_subrange(n.as_slice(), sl + 1, n.len()));
                assert(n@ == after_last_slash(unified));
            } else {
                assert(n@ == after_last_slash(unified));
            }
        },
        None => {
            assert(n@ == after_last_slash(unified));
        },
    }
    let ghost cut = n@;
    match first_index_of(&n, '.') {
        Some(d) => {
            if d > 0 {
                n = slice_to_vec(slice_subrange(n.as_slice(), 0, d));
            }
            assert(n@ == before_first_dot(cut));
        },
        None => {
            assert(n@ == before_first_dot(cut));
        },
    }
    let s = string_from_chars(&n);
    Some(to_lowercase(s.as_str()))
}


/// The file stem that std's `Path::file_stem` finds in `path` (the last component
/// without its extension), as text.
pub uninterp spec fn path_file_stem(path: Seq<char>) -> Option<Seq<char>>;

/// `std::path::Path::file_stem` of `path`, as text. The contract names the result:
/// it depends on the characters of `path` alone.
#[verifier::external_body]
fn file_stem(path: &str) -> (r: Option<&str>)
    ensures
        match path_file_stem(path@) {
            None => r is None,
            Some(s) => r matches Some(t) && t@ == s,
        },
{
    match std::path::Path::new(path).file_stem() {
        Some(stem) => stem.to_str(),
        None => None,
    }
}

/// The dictionary name for a file stem: the stem (empty when there is none) in lower
/// case.
pub fn dict_name_from_stem(stem: Option<&str>) -> (r: String)
    ensures
        r@ == lower_text(
            match stem {
                Some(s) => s@,
                None => Seq::empty(),
            },
        ),
{
    match stem {
        Some(s) => to_lowercase(s),
        None => {
            let empty = String::new();
            to_lowercase(empty.as_str())
        },
    }
}

/// The dictionary name of a `.ycd` file: its file stem (empty when it has none) in
/// lower case.
pub fn dict_name_from_path(path: &str) -> (r: String)
    ensures
        r@ == lower_text(
            match path_file_stem(path@) {
                Some(s) => s,
                None => Seq::empty(),
            },
        ),
{
    dict_name_from_stem(file_stem(path))
}

} // verus!
