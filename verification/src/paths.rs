//! Path text helpers.
//!
//! The backend hands path strings to child processes and to the presentation
//! layer. Paths are modelled as '/'-separated text: a part that starts with
//! the separator is absolute, and joining onto a path that already ends with
//! the separator adds no second one.

use vstd::prelude::*;

verus! {

/// `base` extended by one '/' and `part`.
pub open spec fn slash_join(base: Seq<char>, part: Seq<char>) -> Seq<char> {
    base + seq!['/'] + part
}

/// What pushing `part` onto the path `cur` yields: an absolute part replaces
/// the path, anything else is appended behind a single separator.
pub open spec fn pushed(cur: Seq<char>, part: Seq<char>) -> Seq<char> {
    if part.len() > 0 && part[0] == '/' {
        part
    } else if cur.len() == 0 {
        part
    } else if cur.last() == '/' {
        cur + part
    } else {
        slash_join(cur, part)
    }
}

/// The path built by pushing every part in turn onto an empty path.
pub open spec fn joined_parts(parts: Seq<Seq<char>>) -> Seq<char>
    decreases parts.len(),
{
    if parts.len() == 0 {
        Seq::empty()
    } else {
        pushed(joined_parts(parts.drop_last()), parts.last())
    }
}

/// `path` without its trailing separators.
pub open spec fn strip_trailing_slashes(path: Seq<char>) -> Seq<char>
    decreases path.len(),
{
    if path.len() > 0 && path.last() == '/' {
        strip_trailing_slashes(path.drop_last())
    } else {
        path
    }
}

/// Whether the text holds a separator.
pub open spec fn has_slash(s: Seq<char>) -> bool {
    exists|i: int| 0 <= i < s.len() && s[i] == '/'
}

/// The parent of `path`: trailing separators are stripped first, then the
/// last component and the separators before it are removed. A parent that
/// is the root renders as the lone separator; the root itself, the empty
/// text and a single relative component have no parent, rendered empty.
pub open spec fn dirname(path: Seq<char>) -> Seq<char> {
    let t = strip_trailing_slashes(path);
    if t.len() == 0 || !has_slash(t) {
        Seq::empty()
    } else {
        let head = strip_trailing_slashes(t.take(last_slash(t) + 1));
        if head.len() == 0 {
            seq!['/']
        } else {
            head
        }
    }
}

/// The final component of `path`, trailing separators stripped; empty when
/// nothing remains.
pub open spec fn basename(path: Seq<char>) -> Seq<char> {
    let t = strip_trailing_slashes(path);
    if !has_slash(t) {
        t
    } else {
        t.skip(last_slash(t) + 1)
    }
}

/// The index of the last separator in `path`.
pub open spec fn last_slash(path: Seq<char>) -> int {
    choose|i: int|
        0 <= i < path.len() && path[i] == '/' && (forall|k: int|
            i < k < path.len() ==> path[k] != '/')
}

/// The separator position `last_slash` names exists and is unique whenever
/// the path holds a separator at all.
proof fn lemma_last_slash(path: Seq<char>, i: int)
    requires
        0 <= i < path.len(),
        path[i] == '/',
        forall|k: int| i < k < path.len() ==> path[k] != '/',
    ensures
        last_slash(path) == i,
{
    let j = last_slash(path);
    assert(0 <= j < path.len() && path[j] == '/' && (forall|k: int|
        j < k < path.len() ==> path[k] != '/'));
    if j < i {
        assert(path[i] != '/');
    } else if i < j {
        assert(path[j] != '/');
    }
}

/// A backwards scan that stops at the last non-separator identifies the
/// text with its trailing separators stripped.
proof fn lemma_strip_prefix(path: Seq<char>, e: int)
    requires
        0 <= e <= path.len(),
        forall|k: int| e <= k < path.len() ==> path[k] == '/',
        e == 0 || path[e - 1] != '/',
    ensures
        strip_trailing_slashes(path) == path.take(e),
    decreases path.len(),
{
    if path.len() == e {
        assert(path.take(e) =~= path);
    } else {
        assert(path.last() == '/');
        assert(path.drop_last() =~= path.take(path.len() - 1));
        lemma_strip_prefix(path.take(path.len() - 1), e);
        assert(path.take(path.len() - 1).take(e) =~= path.take(e));
    }
}

/// The interpreter below `root`: the virtual environment's python, whose
/// directory name depends on the host family.
pub open spec fn python_executable(root: Seq<char>, is_windows: bool) -> Seq<char> {
    if is_windows {
        root + "/.venv/Scripts/python"@
    } else {
        root + "/.venv/bin/python"@
    }
}

/// Resolves the python interpreter of the virtual environment under
/// `root_path`. `is_windows` names the host family, which decides the
/// directory that the environment keeps its executables in.
pub fn get_python_executable_path(root_path: &str, is_windows: bool) -> (r: String)
    ensures
        r@ == python_executable(root_path@, is_windows),
{
    let s = String::from_str(root_path);
    if is_windows {
        s.concat("/.venv/Scripts/python")
    } else {
        s.concat("/.venv/bin/python")
    }
}

/// Joins path parts left to right, one '/' between neighbours; an absolute
/// part restarts the path.
pub fn path_join(parts: &Vec<String>) -> (r: String)
    ensures
        r@ == joined_parts(parts.deep_view()),
{
    let mut cur = String::new();
    let mut i: usize = 0;
    proof {
        assert(parts.deep_view().take(0) =~= Seq::<Seq<char>>::empty());
    }
    while i < parts.len()
        invariant
            i <= parts.len(),
            parts.deep_view().len() == parts.len(),
            cur@ == joined_parts(parts.deep_view().take(i as int)),
        decreases parts.len() - i,
    {
        let part: &String = &parts[i];
        let part_len = part.as_str().unicode_len();
        let ghost prev = cur@;
        if part_len > 0 && part.as_str().get_char(0) == '/' {
            cur = String::from_str(part.as_str());
        } else {
            let cur_len = cur.as_str().unicode_len();
            if cur_len == 0 {
                cur = String::from_str(part.as_str());
            } else if cur.as_str().get_char(cur_len - 1) == '/' {
                cur.append(part.as_str());
            } else {
                cur.append("/");
                cur.append(part.as_str());
                proof {
                    reveal_strlit("/");
                    assert(cur@ =~= slash_join(prev, part@));
                }
            }
        }
        proof {
            assert(cur@ == pushed(prev, part@));
            assert(parts.deep_view().take(i + 1).drop_last() =~= parts.deep_view().take(i as int));
            assert(parts.deep_view().take(i + 1).last() == part@);
        }
        i = i + 1;
    }
    proof {
        assert(parts.deep_view().take(parts.len() as int) =~= parts.deep_view());
    }
    cur
}

/// When a backwards scan finds no separator before the trimmed end, the
/// text has no parent.
proof fn lemma_dirname_no_slash(path: Seq<char>, e: int)
    requires
        0 <= e <= path.len(),
        forall|k: int| e <= k < path.len() ==> path[k] == '/',
        e == 0 || path[e - 1] != '/',
        forall|k: int| 0 <= k < e ==> path[k] != '/',
    ensures
        dirname(path) == Seq::<char>::empty(),
        basename(path) == path.take(e),
{
    lemma_strip_prefix(path, e);
    let t = path.take(e);
    assert(!has_slash(t)) by {
        if has_slash(t) {
            let w = choose|w: int| 0 <= w < t.len() && t[w] == '/';
            assert(path[w] != '/');
        }
    }
}

/// What the three scan marks say the parent is: `e` ends the text proper,
/// `j` is the last separator before it, and `h` ends the parent once the
/// separators before the last component are stripped too.
proof fn lemma_dirname_parts(path: Seq<char>, e: int, j: int, h: int)
    requires
        0 <= j < e <= path.len(),
        0 <= h <= j,
        forall|k: int| e <= k < path.len() ==> path[k] == '/',
        path[e - 1] != '/',
        path[j] == '/',
        forall|k: int| j < k < e ==> path[k] != '/',
        forall|k: int| h <= k <= j ==> path[k] == '/',
        h == 0 || path[h - 1] != '/',
    ensures
        dirname(path) == if h == 0 {
            seq!['/']
        } else {
            path.take(h)
        },
{
    lemma_strip_prefix(path, e);
    let t = path.take(e);
    lemma_last_slash(t, j);
    assert(t[j] == '/');
    assert(has_slash(t));
    assert(t.take(j + 1) =~= path.take(j + 1));
    lemma_strip_prefix(path.take(j + 1), h);
    assert(path.take(j + 1).take(h) =~= path.take(h));
}

/// The parent of `path`, as `dirname` states it: trailing separators are
/// stripped, then the last component and the separators before it.
pub fn path_dirname(path: &str) -> (r: String)
    ensures
        r@ == dirname(path@),
{
    let n = path.unicode_len();
    let mut e: usize = n;
    while e > 0 && path.get_char(e - 1) == '/'
        invariant
            e <= n == path@.len(),
            forall|k: int| e <= k < path@.len() ==> path@[k] == '/',
        decreases e,
    {
        e = e - 1;
    }
    if e == 0 {
        proof {
            lemma_strip_prefix(path@, 0);
            assert(path@.take(0) =~= Seq::<char>::empty());
        }
        return String::new();
    }
    let mut i: usize = e;
    while i > 0
        invariant
            0 < e <= n == path@.len(),
            i <= e,
            path@[e - 1] != '/',
            forall|k: int| e <= k < path@.len() ==> path@[k] == '/',
            forall|k: int| i <= k < e ==> path@[k] != '/',
        decreases i,
    {
        if path.get_char(i - 1) == '/' {
            let mut h: usize = i;
            while h > 0 && path.get_char(h - 1) == '/'
                invariant
                    h <= i <= n == path@.len(),
                    forall|k: int| h <= k < i ==> path@[k] == '/',
                decreases h,
            {
                h = h - 1;
            }
            proof {
                lemma_dirname_parts(path@, e as int, i - 1, h as int);
            }
            if h == 0 {
                let r = String::from_str("/");
                proof {
                    reveal_strlit("/");
                    assert(r@ =~= seq!['/']);
                }
                return r;
            } else {
                let head = path.substring_char(0, h);
                proof {
                    assert(head@ =~= path@.take(h as int));
                }
                return String::from_str(head);
            }
        }
        i = i - 1;
    }
    proof {
        lemma_dirname_no_slash(path@, e as int);
    }
    String::new()
}

/// Whether two texts hold the same characters.
pub fn str_eq(a: &str, b: &str) -> (r: bool)
    ensures
        r == (a@ == b@),
{
    let n = a.unicode_len();
    if n != b.unicode_len() {
        proof {
            assert(a@ != b@);
        }
        return false;
    }
    let mut i: usize = 0;
    while i < n
        invariant
            i <= n == a@.len(),
            b@.len() == n,
            forall|k: int| 0 <= k < i ==> a@[k] == b@[k],
        decreases n - i,
    {
        if a.get_char(i) != b.get_char(i) {
            return false;
        }
        i = i + 1;
    }
    proof {
        assert(a@ =~= b@);
    }
    true
}

/// What the scan marks say the final component is: everything between the
/// last separator and the trimmed end.
proof fn lemma_basename_parts(path: Seq<char>, e: int, j: int)
    requires
        0 <= j < e <= path.len(),
        forall|k: int| e <= k < path.len() ==> path[k] == '/',
        path[e - 1] != '/',
        path[j] == '/',
        forall|k: int| j < k < e ==> path[k] != '/',
    ensures
        basename(path) == path.take(e).skip(j + 1),
{
    lemma_strip_prefix(path, e);
    let t = path.take(e);
    lemma_last_slash(t, j);
    assert(t[j] == '/');
    assert(has_slash(t));
}

/// The final component of `path`, as `basename` states it: what follows the
/// last separator once trailing separators are stripped, or the whole
/// stripped text when none remains.
pub fn path_basename(path: &str) -> (r: String)
    ensures
        r@ == basename(path@),
{
    let n = path.unicode_len();
    let mut e: usize = n;
    while e > 0 && path.get_char(e - 1) == '/'
        invariant
            e <= n == path@.len(),
            forall|k: int| e <= k < path@.len() ==> path@[k] == '/',
        decreases e,
    {
        e = e - 1;
    }
    if e == 0 {
        proof {
            lemma_dirname_no_slash(path@, 0);
            assert(path@.take(0) =~= Seq::<char>::empty());
        }
        return String::new();
    }
    let mut i: usize = e;
    while i > 0
        invariant
            0 < e <= n == path@.len(),
            i <= e,
            path@[e - 1] != '/',
            forall|k: int| e <= k < path@.len() ==> path@[k] == '/',
            forall|k: int| i <= k < e ==> path@[k] != '/',
        decreases i,
    {
        if path.get_char(i - 1) == '/' {
            proof {
                lemma_basename_parts(path@, e as int, i - 1);
            }
            let r = path.substring_char(i, e);
            proof {
                assert(r@ =~= path@.take(e as int).skip(i as int));
            }
            return String::from_str(r);
        }
        i = i - 1;
    }
    proof {
        lemma_dirname_no_slash(path@, e as int);
    }
    let r = path.substring_char(0, e);
    proof {
        assert(r@ =~= path@.take(e as int));
    }
    String::from_str(r)
}

} // verus!
