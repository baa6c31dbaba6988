//! Paths as text. Where the platform's separator is `/` the library
//! follows the Unix path grammar itself, and states it: joining, the file
//! name and the extension as std's `Path` has them on Unix. On a platform
//! with another separator (Windows) it hands the path to std's `Path`,
//! whose grammar there is not stated.
use crate::text::{chars_of, push_char, push_text};
use vstd::prelude::*;

verus! {

/// `name` under `base`: an absolute `name` stands alone, an empty `base`
/// adds nothing, and a separator goes between them unless `base` ends
/// with one (Unix `PathBuf::join`).
pub open spec fn path_join(base: Seq<char>, name: Seq<char>) -> Seq<char> {
    if name.len() > 0 && name[0] == '/' {
        name
    } else if base.len() == 0 {
        name
    } else if base.last() == '/' {
        base + name
    } else {
        base.push('/') + name
    }
}

/// Joining: an absolute name stands alone; under an empty directory the
/// name is the path; otherwise exactly one `/` stands between the
/// directory and the name (none added where the directory ends with one).
pub proof fn lemma_path_join_cases(base: Seq<char>, name: Seq<char>)
    ensures
        name.len() > 0 && name[0] == '/' ==> path_join(base, name) == name,
        !(name.len() > 0 && name[0] == '/') && base.len() == 0 ==> path_join(base, name) == name,
        !(name.len() > 0 && name[0] == '/') && base.len() > 0 && base.last() == '/' ==> path_join(
            base,
            name,
        ) == base + name,
        !(name.len() > 0 && name[0] == '/') && base.len() > 0 && base.last() != '/' ==> path_join(
            base,
            name,
        ) == base + seq!['/'] + name,
{
    assert(base.push('/') =~= base + seq!['/']);
}

/// Joins `name` under `base` by the Unix grammar.
pub fn unix_join_path(base: &str, name: &str) -> (r: String)
    ensures
        r@ == path_join(base@, name@),
{
    let b = chars_of(base);
    let n = chars_of(name);
    let mut out = String::new();
    if n.len() > 0 && n[0] == '/' {
        push_text(&mut out, name);
    } else if b.len() == 0 {
        push_text(&mut out, name);
    } else {
        push_text(&mut out, base);
        if b[b.len() - 1] != '/' {
            push_char(&mut out, '/');
        }
        push_text(&mut out, name);
    }
    out
}

} // verus!

verus! {

/// `p` without its trailing separators and trailing `/.` parts, which do
/// not name anything.
pub open spec fn trim_path_end(p: Seq<char>) -> Seq<char>
    decreases p.len(),
{
    if p.len() > 0 && p.last() == '/' {
        trim_path_end(p.drop_last())
    } else if p.len() >= 2 && p.last() == '.' && p[p.len() - 2] == '/' {
        trim_path_end(p.drop_last())
    } else {
        p
    }
}

/// What follows the last separator of `p` (all of `p` where it has none).
pub open spec fn last_segment(p: Seq<char>) -> Seq<char>
    decreases p.len(),
{
    if p.len() == 0 {
        p
    } else if p.last() == '/' {
        Seq::empty()
    } else {
        last_segment(p.drop_last()).push(p.last())
    }
}

/// The last component of the path `p`, where it is a name: none for an
/// empty path, the root, `.` or `..` (Unix `Path::file_name`).
pub open spec fn path_file_name(p: Seq<char>) -> Option<Seq<char>> {
    let t = trim_path_end(p);
    let s = last_segment(t);
    if t.len() == 0 || s == seq!['.'] || s == seq!['.', '.'] {
        None
    } else {
        Some(s)
    }
}

/// The position of the last `.` in `name`, or -1.
pub open spec fn last_dot(name: Seq<char>) -> int
    decreases name.len(),
{
    if name.len() == 0 {
        -1
    } else if name.last() == '.' {
        name.len() - 1
    } else {
        last_dot(name.drop_last())
    }
}

/// The extension of the file name `p` names: what follows its last `.`,
/// where that `.` is not its first character (Unix `Path::extension`).
pub open spec fn path_extension(p: Seq<char>) -> Option<Seq<char>> {
    match path_file_name(p) {
        Some(name) => if last_dot(name) > 0 {
            Some(name.skip(last_dot(name) + 1))
        } else {
            None
        },
        None => None,
    }
}

proof fn lemma_trim_step(p: Seq<char>, end: int)
    requires
        0 < end <= p.len(),
        p[end - 1] == '/' || (end >= 2 && p[end - 1] == '.' && p[end - 2] == '/'),
    ensures
        trim_path_end(p.take(end)) == trim_path_end(p.take(end - 1)),
{
    assert(p.take(end).drop_last() == p.take(end - 1));
    assert(p.take(end).last() == p[end - 1]);
    if end >= 2 {
        assert(p.take(end)[end - 2] == p[end - 2]);
    }
}

proof fn lemma_segment_step(p: Seq<char>, start: int)
    requires
        0 < start <= p.len(),
        p[start - 1] != '/',
    ensures
        last_segment(p.take(start)) == last_segment(p.take(start - 1)).push(p[start - 1]),
{
    assert(p.take(start).drop_last() == p.take(start - 1));
}

/// `name` holds no path separator, neither `/` nor a backslash.
pub open spec fn no_separator(name: Seq<char>) -> bool {
    forall|i: int| 0 <= i < name.len() ==> #[trigger] name[i] != '/' && name[i] != '\\'
}

proof fn lemma_last_segment_from(p: Seq<char>, k: int)
    requires
        0 <= k <= p.len(),
        k == 0 || p[k - 1] == '/',
        forall|i: int| k <= i < p.len() ==> p[i] != '/',
    ensures
        last_segment(p) == p.skip(k),
    decreases p.len(),
{
    if p.len() == k {
        assert(p.skip(k) =~= Seq::<char>::empty());
    } else {
        lemma_last_segment_from(p.drop_last(), k);
        assert(p.drop_last().skip(k).push(p.last()) =~= p.skip(k));
    }
}

/// A name without separators, other than `.` and `..`, joined under a
/// directory is the file name of the result.
pub proof fn lemma_join_file_name(base: Seq<char>, name: Seq<char>)
    requires
        name.len() > 0,
        no_separator(name),
        name != seq!['.'],
        name != seq!['.', '.'],
    ensures
        path_file_name(path_join(base, name)) == Some(name),
{
    let p = path_join(base, name);
    let k = p.len() - name.len();
    assert(name[0] != '/');
    assert(p.skip(k) =~= name);
    assert forall|i: int| k <= i < p.len() implies p[i] != '/' by {
        assert(p[i] == name[i - k]);
    }
    assert(p.last() == name.last());
    if name.len() >= 2 {
        assert(p[p.len() - 2] == name[name.len() - 2]);
    } else if name.last() == '.' {
        assert(name =~= seq!['.']);
    }
    assert(trim_path_end(p) == p);
    lemma_last_segment_from(p, k);
}

/// The text `cs[from..to]`.
fn text_between(cs: &[char], from: usize, to: usize) -> (r: String)
    requires
        from <= to <= cs@.len(),
    ensures
        r@ == cs@.subrange(from as int, to as int),
{
    let mut out = String::new();
    let mut i = from;
    while i < to
        invariant
            from <= i <= to,
            to <= cs@.len(),
            out@ == cs@.subrange(from as int, i as int),
        decreases to - i,
    {
        push_char(&mut out, cs[i]);
        i = i + 1;
        assert(cs@.subrange(from as int, i as int) == cs@.subrange(from as int, i - 1).push(
            cs@[i - 1],
        ));
    }
    out
}

/// The last component of the path `path`, where it is a name, by the Unix
/// grammar.
pub fn unix_file_name_of(path: &str) -> (r: Option<String>)
    ensures
        match r {
            Some(s) => path_file_name(path@) == Some(s@),
            None => path_file_name(path@) is None,
        },
{
    let cs = chars_of(path);
    let ghost p = path@;
    let mut end = cs.len();
    assert(p.take(end as int) == p);
    while end > 0 && (cs[end - 1] == '/' || (end >= 2 && cs[end - 1] == '.' && cs[end - 2] == '/'))
        invariant
            cs@ == p,
            end <= p.len(),
            trim_path_end(p) == trim_path_end(p.take(end as int)),
        decreases end,
    {
        proof {
            lemma_trim_step(p, end as int);
        }
        end = end - 1;
    }
    let ghost t = p.take(end as int);
    assert(trim_path_end(t) == t) by {
        if t.len() > 0 {
            assert(t.last() == p[end - 1]);
            if t.len() >= 2 {
                assert(t[t.len() - 2] == p[end - 2]);
            }
        }
    }
    let mut start = end;
    assert(p.subrange(start as int, end as int) == Seq::<char>::empty());
    while start > 0 && cs[start - 1] != '/'
        invariant
            cs@ == p,
            start <= end <= p.len(),
            last_segment(t) == last_segment(p.take(start as int)) + p.subrange(
                start as int,
                end as int,
            ),
        decreases start,
    {
        proof {
            lemma_segment_step(p, start as int);
            assert(p.subrange(start - 1, end as int) == seq![p[start - 1]] + p.subrange(
                start as int,
                end as int,
            ));
        }
        start = start - 1;
    }
    assert(last_segment(p.take(start as int)) == Seq::<char>::empty()) by {
        if start > 0 {
            assert(p.take(start as int).last() == p[start - 1]);
        }
    }
    assert(p.take(end as int).subrange(start as int, end as int) == p.subrange(
        start as int,
        end as int,
    ));
    let len = end - start;
    let is_dot = len == 1 && cs[start] == '.';
    let is_dots = len == 2 && cs[start] == '.' && cs[start + 1] == '.';
    if end == 0 || is_dot || is_dots {
        proof {
            let s = p.subrange(start as int, end as int);
            if is_dot {
                assert(s =~= seq!['.']);
            }
            if is_dots {
                assert(s =~= seq!['.', '.']);
            }
        }
        None
    } else {
        let r = text_between(cs.as_slice(), start, end);
        proof {
            let s = p.subrange(start as int, end as int);
            assert(s.len() == len);
            if s == seq!['.'] {
                assert(s[0] == p[start as int]);
                assert(seq!['.'][0] == '.');
                assert(false);
            }
            if s == seq!['.', '.'] {
                assert(s[0] == p[start as int]);
                assert(s[1] == p[start + 1]);
                assert(seq!['.', '.'][1] == '.');
                assert(false);
            }
            assert(trim_path_end(p) == t);
            assert(last_segment(t) == s);
            assert(r@ == s);
        }
        Some(r)
    }
}

/// The extension of the file the path `path` names, by the Unix grammar.
pub fn unix_extension_of(path: &str) -> (r: Option<String>)
    ensures
        match r {
            Some(s) => path_extension(path@) == Some(s@),
            None => path_extension(path@) is None,
        },
{
    match unix_file_name_of(path) {
        None => None,
        Some(name) => {
            let cs = chars_of(name.as_str());
            let ghost n = name@;
            let mut k = cs.len();
            assert(n.take(k as int) == n);
            while k > 0 && cs[k - 1] != '.'
                invariant
                    cs@ == n,
                    k <= n.len(),
                    last_dot(n) == last_dot(n.take(k as int)),
                decreases k,
            {
                assert(n.take(k as int).drop_last() == n.take(k - 1));
                k = k - 1;
            }
            if k > 0 {
                assert(n.take(k as int).last() == '.');
            }
            if k > 1 {
                Some(text_between(cs.as_slice(), k, cs.len()))
            } else {
                None
            }
        },
    }
}

} // verus!

verus! {

/// Reads std's `path::MAIN_SEPARATOR`, the separator of the platform the
/// program runs on, which its documentation gives as `/` on Unix and a
/// backslash on Windows. Which of the two it is depends on the machine and
/// is not stated.
#[verifier::external_body]
fn main_separator() -> (r: char)
    ensures
        r == '/' || r == '\\',
{
    std::path::MAIN_SEPARATOR
}

/// Calls std's `Path::join`, converting the joined path back to text (it
/// is valid text, being made of two texts and separators). What it
/// returns is left unsaid: it follows the path grammar of the platform,
/// which on Windows (drive and verbatim prefixes, two separators) is not
/// stated here.
#[verifier::external_body]
fn std_join(base: &str, name: &str) -> String {
    std::path::Path::new(base).join(name).to_string_lossy().into_owned()
}

/// Calls std's `Path::file_name`, converting the name back to text. What
/// it returns is left unsaid, as for `std_join`.
#[verifier::external_body]
fn std_file_name(path: &str) -> Option<String> {
    std::path::Path::new(path).file_name().map(|n| n.to_string_lossy().into_owned())
}

/// Calls std's `Path::extension`, converting it back to text. What it
/// returns is left unsaid, as for `std_join`.
#[verifier::external_body]
fn std_extension(path: &str) -> Option<String> {
    std::path::Path::new(path).extension().map(|e| e.to_string_lossy().into_owned())
}

/// The path separator of the platform the program runs on.
pub fn platform_separator() -> (r: char)
    ensures
        r == '/' || r == '\\',
{
    main_separator()
}

/// Joins `name` under `base` on a platform whose separator is `sep`: by
/// the Unix grammar where it is `/`, by std's `Path` elsewhere.
pub fn join_path(sep: char, base: &str, name: &str) -> (r: String)
    ensures
        sep == '/' ==> r@ == path_join(base@, name@),
{
    if sep == '/' {
        unix_join_path(base, name)
    } else {
        std_join(base, name)
    }
}

/// The last component of the path `path`, where it is a name, on a
/// platform whose separator is `sep`.
pub fn file_name_of(sep: char, path: &str) -> (r: Option<String>)
    ensures
        sep == '/' ==> match r {
            Some(s) => path_file_name(path@) == Some(s@),
            None => path_file_name(path@) is None,
        },
{
    if sep == '/' {
        unix_file_name_of(path)
    } else {
        std_file_name(path)
    }
}

/// The extension of the file the path `path` names, on a platform whose
/// separator is `sep`.
pub fn extension_of(sep: char, path: &str) -> (r: Option<String>)
    ensures
        sep == '/' ==> match r {
            Some(s) => path_extension(path@) == Some(s@),
            None => path_extension(path@) is None,
        },
{
    if sep == '/' {
        unix_extension_of(path)
    } else {
        std_extension(path)
    }
}

} // verus!
