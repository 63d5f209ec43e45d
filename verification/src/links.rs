//! Link rewriting: every inline link `[text](url)` whose URL is a relative
//! path with a `.md` extension has that extension rewritten to `.html`, so
//! that intra-site links keep working after compilation. This is a purely
//! syntactic pass over the raw markdown text, run before rendering.
//!
//! A link match starts at a `[`, its text runs up to the last `](` before
//! the first `)` that follows, and its URL runs from there to that `)`;
//! matches are found left to right and do not overlap.
use vstd::prelude::*;

use crate::text::chars_to_string;
use crate::text::push_range;
use crate::text::str_to_chars;

verus! {

// --- URL classification ---------------------------------------------------

/// A URL counts as relative when it neither starts at the filesystem root
/// (leading `/`) nor carries a scheme or drive marker (a `:` anywhere).
pub open spec fn is_relative_url(u: Seq<char>) -> bool {
    &&& !(u.len() > 0 && u[0] == '/')
    &&& forall|k: int| 0 <= k < u.len() ==> u[k] != ':'
}

/// The URL's final path component ends in `.md` (any letter case) with a
/// nonempty stem: a bare `.md` file name is a hidden file, not an extension.
pub open spec fn has_md_extension(u: Seq<char>) -> bool {
    &&& u.len() >= 3
    &&& u[u.len() - 3] == '.'
    &&& (u[u.len() - 2] == 'm' || u[u.len() - 2] == 'M')
    &&& (u[u.len() - 1] == 'd' || u[u.len() - 1] == 'D')
    &&& !(u.len() == 3 || u[u.len() - 4] == '/')
}

/// What a link URL becomes: `.md` turns into `.html` on relative markdown
/// targets, everything else is left untouched.
pub open spec fn rewritten_url(u: Seq<char>) -> Seq<char> {
    if is_relative_url(u) && has_md_extension(u) {
        u.take(u.len() - 3) + seq!['.', 'h', 't', 'm', 'l']
    } else {
        u
    }
}

// --- Locating one link match ----------------------------------------------

/// Index of the first `)` at or after `from`, if any.
pub open spec fn first_close(s: Seq<char>, from: int) -> Option<int>
    decreases s.len() - from
    when 0 <= from <= s.len()
{
    if from >= s.len() {
        None
    } else if s[from] == ')' {
        Some(from)
    } else {
        first_close(s, from + 1)
    }
}

/// The last index `u` in `(i, k]` with `s[u] == ']'` and `s[u + 1] == '('`,
/// found scanning downward from `k`.
pub open spec fn last_bracket_before(s: Seq<char>, i: int, k: int) -> Option<int>
    decreases k - i
    when i <= k
{
    if k <= i {
        None
    } else if s[k] == ']' && s[k + 1] == '(' {
        Some(k)
    } else {
        last_bracket_before(s, i, k - 1)
    }
}

/// The link match starting at `i`, if any: `Some((u, p))` where the text is
/// `s[i+1 .. u]`, `](` stands at `u`, and the URL is `s[u+2 .. p)` closed by
/// the `)` at `p`. The text part is greedy: `u` is the last `](` before the
/// first `)`.
pub open spec fn link_match_at(s: Seq<char>, i: int) -> Option<(int, int)> {
    if 0 <= i < s.len() && s[i] == '[' {
        match first_close(s, i + 1) {
            Some(p) => if p >= i + 3 {
                match last_bracket_before(s, i, p - 2) {
                    Some(u) => Some((u, p)),
                    None => None,
                }
            } else {
                None
            },
            None => None,
        }
    } else {
        None
    }
}

// --- The rewritten text ---------------------------------------------------

/// The replacement emitted for one match: text kept as is, URL rewritten.
pub open spec fn replaced_link(s: Seq<char>, i: int, u: int, p: int) -> Seq<char> {
    seq!['['] + s.subrange(i + 1, u) + seq![']', '('] + rewritten_url(s.subrange(u + 2, p))
        + seq![')']
}

/// The rewritten remainder of `s` from position `i` on: matches are
/// replaced and skipped whole, all other characters are copied.
pub open spec fn rewrite_from(s: Seq<char>, i: int) -> Seq<char>
    decreases s.len() - i
    when 0 <= i <= s.len()
    via rewrite_from_decreases
{
    if i >= s.len() {
        Seq::empty()
    } else {
        match link_match_at(s, i) {
            Some((u, p)) => replaced_link(s, i, u, p) + rewrite_from(s, p + 1),
            None => seq![s[i]] + rewrite_from(s, i + 1),
        }
    }
}

/// The whole markdown text with every inline link URL rewritten.
pub open spec fn rewrite_links_spec(s: Seq<char>) -> Seq<char> {
    rewrite_from(s, 0)
}

// --- Facts about the locator functions ------------------------------------

proof fn lemma_first_close_props(s: Seq<char>, from: int)
    requires
        0 <= from <= s.len(),
    ensures
        match first_close(s, from) {
            Some(p) => from <= p < s.len() && s[p] == ')' && (forall|k: int|
                from <= k < p ==> s[k] != ')'),
            None => forall|k: int| from <= k < s.len() ==> s[k] != ')',
        },
    decreases s.len() - from,
{
    if from < s.len() && s[from] != ')' {
        lemma_first_close_props(s, from + 1);
    }
}

proof fn lemma_first_close_of(s: Seq<char>, from: int, p: int)
    requires
        0 <= from <= p < s.len(),
        s[p] == ')',
        forall|k: int| from <= k < p ==> s[k] != ')',
    ensures
        first_close(s, from) == Some(p),
    decreases p - from,
{
    if from < p {
        lemma_first_close_of(s, from + 1, p);
    }
}

proof fn lemma_first_close_none(s: Seq<char>, from: int)
    requires
        0 <= from <= s.len(),
        forall|k: int| from <= k < s.len() ==> s[k] != ')',
    ensures
        first_close(s, from) is None,
    decreases s.len() - from,
{
    if from < s.len() {
        lemma_first_close_none(s, from + 1);
    }
}

proof fn lemma_last_bracket_props(s: Seq<char>, i: int, k: int)
    requires
        0 <= i <= k,
        k + 1 < s.len(),
    ensures
        match last_bracket_before(s, i, k) {
            Some(u) => i < u <= k && s[u] == ']' && s[u + 1] == '(' && (forall|j: int|
                u < j <= k ==> !(#[trigger] s[j] == ']' && s[j + 1] == '(')),
            None => forall|j: int| i < j <= k ==> !(#[trigger] s[j] == ']' && s[j + 1] == '('),
        },
    decreases k - i,
{
    if k > i && !(s[k] == ']' && s[k + 1] == '(') {
        lemma_last_bracket_props(s, i, k - 1);
    }
}

proof fn lemma_last_bracket_of(s: Seq<char>, i: int, k: int, u: int)
    requires
        0 <= i < u <= k,
        k + 1 < s.len(),
        s[u] == ']' && s[u + 1] == '(',
        forall|j: int| u < j <= k ==> !(#[trigger] s[j] == ']' && s[j + 1] == '('),
    ensures
        last_bracket_before(s, i, k) == Some(u),
    decreases k - u,
{
    if k > u {
        lemma_last_bracket_of(s, i, k - 1, u);
    }
}

proof fn lemma_last_bracket_none(s: Seq<char>, i: int, k: int)
    requires
        0 <= i <= k,
        k + 1 < s.len(),
        forall|j: int| i < j <= k ==> !(#[trigger] s[j] == ']' && s[j + 1] == '('),
    ensures
        last_bracket_before(s, i, k) is None,
    decreases k - i,
{
    if k > i {
        lemma_last_bracket_none(s, i, k - 1);
    }
}

/// Bounds that every successful match obeys; they make the main recursion
/// terminate.
proof fn lemma_match_bounds(s: Seq<char>, i: int)
    ensures
        match link_match_at(s, i) {
            Some((u, p)) => i + 1 <= u && u + 2 <= p && p < s.len() && 0 <= i,
            None => true,
        },
{
    if 0 <= i < s.len() && s[i] == '[' {
        lemma_first_close_props(s, i + 1);
        match first_close(s, i + 1) {
            Some(p) => {
                if p >= i + 3 {
                    lemma_last_bracket_props(s, i, p - 2);
                }
            },
            None => {},
        }
    }
}

#[via_fn]
proof fn rewrite_from_decreases(s: Seq<char>, i: int) {
    lemma_match_bounds(s, i);
}

// --- Executable search ------------------------------------------------------

fn find_close(s: &Vec<char>, from: usize) -> (r: Option<usize>)
    requires
        from <= s@.len(),
    ensures
        match r {
            Some(p) => first_close(s@, from as int) == Some(p as int) && from <= p < s@.len(),
            None => first_close(s@, from as int) is None,
        },
{
    let mut j: usize = from;
    while j < s.len()
        invariant
            from <= j <= s@.len(),
            forall|k: int| from <= k < j ==> s@[k] != ')',
        decreases s@.len() - j,
    {
        if s[j] == ')' {
            proof {
                lemma_first_close_of(s@, from as int, j as int);
            }
            return Some(j);
        }
        j = j + 1;
    }
    proof {
        lemma_first_close_none(s@, from as int);
    }
    None
}

fn find_bracket(s: &Vec<char>, i: usize, k: usize) -> (r: Option<usize>)
    requires
        i <= k,
        k + 1 < s@.len(),
    ensures
        match r {
            Some(u) => last_bracket_before(s@, i as int, k as int) == Some(u as int) && i < u <= k,
            None => last_bracket_before(s@, i as int, k as int) is None,
        },
{
    let n: usize = s.len();
    let mut j: usize = k;
    while j > i
        invariant
            i <= j <= k,
            k + 1 < s@.len(),
            n == s@.len(),
            forall|m: int| j < m <= k ==> !(#[trigger] s@[m] == ']' && s@[m + 1] == '('),
        decreases j,
    {
        if s[j] == ']' && s[j + 1] == '(' {
            proof {
                lemma_last_bracket_of(s@, i as int, k as int, j as int);
            }
            return Some(j);
        }
        j = j - 1;
    }
    proof {
        lemma_last_bracket_none(s@, i as int, k as int);
    }
    None
}

// --- Executable rewriting ---------------------------------------------------

/// Appends the rewritten form of the URL `s[from .. to)` to `out`.
fn push_rewritten_url(out: &mut Vec<char>, s: &Vec<char>, from: usize, to: usize)
    requires
        from <= to <= s@.len(),
    ensures
        final(out)@ == old(out)@ + rewritten_url(s@.subrange(from as int, to as int)),
{
    let ghost url = s@.subrange(from as int, to as int);
    let len: usize = to - from;

    let mut relative: bool = !(len > 0 && s[from] == '/');
    let mut j: usize = from;
    while j < to
        invariant
            from <= j <= to <= s@.len(),
            url == s@.subrange(from as int, to as int),
            relative ==> !(url.len() > 0 && url[0] == '/'),
            relative ==> forall|k: int| 0 <= k < j - from ==> url[k] != ':',
            !relative ==> !is_relative_url(url),
        decreases to - j,
    {
        if s[j] == ':' {
            proof {
                assert(url[j - from] == ':');
            }
            relative = false;
        }
        j = j + 1;
    }
    proof {
        assert(relative == is_relative_url(url));
    }

    let md_ext: bool = len >= 3 && s[to - 3] == '.' && (s[to - 2] == 'm' || s[to - 2] == 'M') && (
    s[to - 1] == 'd' || s[to - 1] == 'D') && !(len == 3 || s[to - 4] == '/');
    proof {
        assert(md_ext == has_md_extension(url));
    }

    if relative && md_ext {
        push_range(out, s, from, to - 3);
        out.push('.');
        out.push('h');
        out.push('t');
        out.push('m');
        out.push('l');
        proof {
            assert(s@.subrange(from as int, to - 3) =~= url.take(url.len() - 3));
            assert(out@ =~= old(out)@ + rewritten_url(url));
        }
    } else {
        push_range(out, s, from, to);
    }
}

/// Rewrites every inline link `[text](url)` whose URL is a relative path
/// with a `.md` extension so that it targets the compiled `.html` file;
/// all other text, and all other URLs, are copied unchanged.
pub fn replace_md_link_extensions_with_html(markdown: &str) -> (r: String)
    ensures
        r@ == rewrite_links_spec(markdown@),
{
    let s = str_to_chars(markdown);
    let mut out: Vec<char> = Vec::new();
    let mut i: usize = 0;
    proof {
        assert(out@ + rewrite_from(s@, 0) =~= rewrite_from(s@, 0));
    }
    while i < s.len()
        invariant
            i <= s@.len(),
            s@ == markdown@,
            out@ + rewrite_from(s@, i as int) == rewrite_from(s@, 0),
        decreases s@.len() - i,
    {
        let ghost prev = out@;
        let mut step: Option<(usize, usize)> = None;
        if s[i] == '[' {
            match find_close(&s, i + 1) {
                Some(p) => {
                    if p - i >= 3 {
                        match find_bracket(&s, i, p - 2) {
                            Some(u) => {
                                step = Some((u, p));
                            },
                            None => {},
                        }
                    }
                },
                None => {},
            }
        }
        match step {
            Some((u, p)) => {
                proof {
                    assert(link_match_at(s@, i as int) == Some((u as int, p as int)));
                }
                out.push('[');
                push_range(&mut out, &s, i + 1, u);
                out.push(']');
                out.push('(');
                push_rewritten_url(&mut out, &s, u + 2, p);
                out.push(')');
                proof {
                    assert(out@ =~= prev + replaced_link(s@, i as int, u as int, p as int));
                    assert(out@ + rewrite_from(s@, p + 1) =~= prev + rewrite_from(s@, i as int));
                }
                i = p + 1;
            },
            None => {
                proof {
                    assert(link_match_at(s@, i as int) is None);
                }
                out.push(s[i]);
                proof {
                    assert(out@ + rewrite_from(s@, i + 1) =~= prev + rewrite_from(s@, i as int));
                }
                i = i + 1;
            },
        }
    }
    proof {
        assert(out@ + rewrite_from(s@, s@.len() as int) =~= out@);
    }
    chars_to_string(&out)
}

} // verus!
