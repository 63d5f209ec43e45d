//! Path arithmetic on slash-separated paths: stripping the input root from
//! a walked file path, classifying markdown files by extension, replacing
//! that extension with `.html`, and joining a root with a relative path.
use vstd::prelude::*;

use crate::links::has_md_extension;
use crate::text::chars_to_string;
use crate::text::push_range;
use crate::text::str_to_chars;

verus! {

/// A directory path with its trailing slashes removed, so that joining and
/// prefix-stripping agree on where the root ends.
pub open spec fn trimmed_dir(d: Seq<char>) -> Seq<char>
    decreases d.len(),
{
    if d.len() > 0 && d[d.len() - 1] == '/' {
        trimmed_dir(d.take(d.len() - 1))
    } else {
        d
    }
}

/// `path` lies below the directory `root`: it is `root`, minus trailing
/// slashes, then `/`, then a relative remainder.
pub open spec fn is_under(path: Seq<char>, root: Seq<char>) -> bool {
    let t = trimmed_dir(root);
    &&& path.len() > t.len()
    &&& path.take(t.len() as int) == t
    &&& path[t.len() as int] == '/'
}

/// The part of `path` below the directory `root`.
pub open spec fn rel_of(path: Seq<char>, root: Seq<char>) -> Seq<char> {
    path.skip(trimmed_dir(root).len() + 1int)
}

/// The index of the last occurrence of `c` in `s[0 ..= k]`, if any.
pub open spec fn last_index_of(s: Seq<char>, c: char, k: int) -> Option<int>
    decreases k + 1
    when k < s.len()
{
    if k < 0 {
        None
    } else if s[k] == c {
        Some(k)
    } else {
        last_index_of(s, c, k - 1)
    }
}

/// A file path names markdown when its final component carries a
/// case-insensitive `.md` extension.
pub open spec fn is_markdown_path(p: Seq<char>) -> bool {
    has_md_extension(p)
}

/// The path with its extension replaced by `.html`: the final component's
/// last `.` (not its first character) starts the extension; a component
/// without one gets `.html` appended, as the standard path rules have it.
pub open spec fn html_target(rel: Seq<char>) -> Seq<char> {
    let name_start: int = match last_index_of(rel, '/', rel.len() - 1) {
        Some(ls) => ls + 1,
        None => 0,
    };
    match last_index_of(rel, '.', rel.len() - 1) {
        Some(d) => if d > name_start {
            rel.take(d) + seq!['.', 'h', 't', 'm', 'l']
        } else {
            rel + seq!['.', 'h', 't', 'm', 'l']
        },
        None => rel + seq!['.', 'h', 't', 'm', 'l'],
    }
}

/// The directory `dir`, minus trailing slashes, joined with `rel` by `/`.
pub open spec fn joined(dir: Seq<char>, rel: Seq<char>) -> Seq<char> {
    trimmed_dir(dir) + seq!['/'] + rel
}

// --- Facts about the locator ------------------------------------------------

proof fn lemma_last_index_of(s: Seq<char>, c: char, k: int, u: int)
    requires
        0 <= u <= k < s.len(),
        s[u] == c,
        forall|j: int| u < j <= k ==> s[j] != c,
    ensures
        last_index_of(s, c, k) == Some(u),
    decreases k - u,
{
    if k > u {
        lemma_last_index_of(s, c, k - 1, u);
    }
}

proof fn lemma_last_index_of_none(s: Seq<char>, c: char, k: int)
    requires
        k < s.len(),
        forall|j: int| 0 <= j <= k ==> s[j] != c,
    ensures
        last_index_of(s, c, k) is None,
    decreases k + 1,
{
    if k >= 0 {
        lemma_last_index_of_none(s, c, k - 1);
    }
}

// --- Executable helpers -----------------------------------------------------

/// Finds the last occurrence of `c` in `s[0 ..= k]`, scanning downward.
fn find_last(s: &Vec<char>, c: char, k: usize) -> (r: Option<usize>)
    requires
        k < s@.len(),
    ensures
        match r {
            Some(u) => last_index_of(s@, c, k as int) == Some(u as int) && u <= k,
            None => last_index_of(s@, c, k as int) is None,
        },
{
    let mut j: usize = k;
    loop
        invariant
            j <= k < s@.len(),
            forall|m: int| j < m <= k ==> s@[m] != c,
        decreases j,
    {
        if s[j] == c {
            proof {
                lemma_last_index_of(s@, c, k as int, j as int);
            }
            return Some(j);
        }
        if j == 0 {
            proof {
                lemma_last_index_of_none(s@, c, k as int);
            }
            return None;
        }
        j = j - 1;
    }
}

/// Removes trailing slashes from a directory path.
fn trim_dir(dir: &str) -> (r: Vec<char>)
    ensures
        r@ == trimmed_dir(dir@),
{
    let mut d = str_to_chars(dir);
    while d.len() > 0 && d[d.len() - 1] == '/'
        invariant
            trimmed_dir(d@) == trimmed_dir(dir@),
        decreases d@.len(),
    {
        let ghost before = d@;
        d.pop();
        proof {
            assert(d@ =~= before.take(before.len() - 1));
        }
    }
    d
}

/// Whether `path` lies below the directory `root`.
pub fn path_is_under(path: &str, root: &str) -> (b: bool)
    ensures
        b == is_under(path@, root@),
{
    let t = trim_dir(root);
    let p = str_to_chars(path);
    if p.len() <= t.len() {
        return false;
    }
    if p[t.len()] != '/' {
        return false;
    }
    let mut i: usize = 0;
    while i < t.len()
        invariant
            i <= t@.len() < p@.len(),
            t@ == trimmed_dir(root@),
            p@ == path@,
            forall|j: int| 0 <= j < i ==> p@[j] == t@[j],
        decreases t@.len() - i,
    {
        if p[i] != t[i] {
            proof {
                assert(path@.take(t@.len() as int)[i as int] != t@[i as int]);
            }
            return false;
        }
        i = i + 1;
    }
    proof {
        assert(path@.take(t@.len() as int) =~= t@);
    }
    true
}

/// The part of `path` below the directory `root`, when `path` lies there.
pub fn strip_dir_prefix(path: &str, root: &str) -> (r: Option<String>)
    ensures
        match r {
            Some(rest) => is_under(path@, root@) && rest@ == rel_of(path@, root@),
            None => !is_under(path@, root@),
        },
{
    if !path_is_under(path, root) {
        return None;
    }
    let t = trim_dir(root);
    let p = str_to_chars(path);
    let tl: usize = t.len();
    let pl: usize = p.len();
    assert(tl < pl);
    let mut rest: Vec<char> = Vec::new();
    push_range(&mut rest, &p, tl + 1, pl);
    proof {
        assert(rest@ =~= rel_of(path@, root@));
    }
    Some(chars_to_string(&rest))
}

/// Whether the file at this path is markdown: a case-insensitive `.md`
/// extension on its final component.
pub fn is_markdown_file(path: &str) -> (b: bool)
    ensures
        b == is_markdown_path(path@),
{
    let p = str_to_chars(path);
    let n: usize = p.len();
    if n < 3 {
        return false;
    }
    let dot = p[n - 3] == '.';
    let m_char = p[n - 2] == 'm' || p[n - 2] == 'M';
    let d_char = p[n - 1] == 'd' || p[n - 1] == 'D';
    let stem = !(n == 3 || p[n - 4] == '/');
    dot && m_char && d_char && stem
}

/// The relative path with its extension replaced by `.html`.
pub fn with_html_extension(rel: &str) -> (r: String)
    ensures
        r@ == html_target(rel@),
{
    let p = str_to_chars(rel);
    let mut out: Vec<char> = Vec::new();
    let mut cut: usize = p.len();
    if p.len() > 0 {
        let name_start: usize = match find_last(&p, '/', p.len() - 1) {
            Some(ls) => ls + 1,
            None => 0,
        };
        match find_last(&p, '.', p.len() - 1) {
            Some(d) => {
                if d > name_start {
                    cut = d;
                }
            },
            None => {},
        }
    }
    push_range(&mut out, &p, 0, cut);
    out.push('.');
    out.push('h');
    out.push('t');
    out.push('m');
    out.push('l');
    proof {
        if cut < p@.len() {
            assert(p@.subrange(0, cut as int) =~= p@.take(cut as int));
        } else {
            assert(p@.subrange(0, cut as int) =~= p@);
        }
        assert(out@ =~= html_target(rel@));
    }
    chars_to_string(&out)
}

/// Joins a directory with a relative path by a single `/`.
pub fn join_under(dir: &str, rel: &str) -> (r: String)
    ensures
        r@ == joined(dir@, rel@),
{
    let mut d = trim_dir(dir);
    d.push('/');
    let rest = str_to_chars(rel);
    proof {
        assert(d@ =~= trimmed_dir(dir@) + seq!['/'] + rel@.take(0));
    }
    let mut i: usize = 0;
    while i < rest.len()
        invariant
            i <= rest@.len(),
            rest@ == rel@,
            d@ == trimmed_dir(dir@) + seq!['/'] + rel@.take(i as int),
        decreases rest@.len() - i,
    {
        d.push(rest[i]);
        proof {
            assert(d@ =~= trimmed_dir(dir@) + seq!['/'] + rel@.take(i + 1));
        }
        i = i + 1;
    }
    proof {
        assert(d@ =~= joined(dir@, rel@));
    }
    chars_to_string(&d)
}

} // verus!
