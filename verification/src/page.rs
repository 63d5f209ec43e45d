//! Page assembly: one markdown source text plus the run's configuration
//! becomes one complete HTML document, with an optional title element, an
//! optional stylesheet link whose relative path matches the page's nesting
//! depth, and optional header and footer fragments around the body.
use vstd::prelude::*;

use crate::doc::DocNode;
use crate::doc::title_of;
use crate::links::rewrite_links_spec;
use crate::links::replace_md_link_extensions_with_html;
use crate::md::ast_of;
use crate::md::html_of;
use crate::md::parse_markdown;
use crate::md::render_html;

verus! {

/// The fully resolved configuration of one run: the two roots, whether a
/// stylesheet is configured (and where it comes from), and the optional
/// header and footer fragments, already read into strings.
pub struct Config {
    pub input_dir: String,
    pub output_dir: String,
    pub stylesheet: Option<String>,
    pub header: Option<String>,
    pub footer: Option<String>,
}

/// How many directories deep a relative output path lies: one level per
/// separator in the (normalized, slash-separated) path.
pub open spec fn slash_count_from(s: Seq<char>, i: int) -> nat
    decreases s.len() - i
    when 0 <= i <= s.len()
{
    if i >= s.len() {
        0
    } else {
        (if s[i] == '/' {
            1nat
        } else {
            0nat
        }) + slash_count_from(s, i + 1)
    }
}

/// The nesting depth of a relative output path below the output root.
pub open spec fn nesting_depth(s: Seq<char>) -> nat {
    slash_count_from(s, 0)
}

/// `../` repeated `k` times.
pub open spec fn dotdots(k: nat) -> Seq<char>
    decreases k,
{
    if k == 0 {
        Seq::empty()
    } else {
        seq!['.', '.', '/'] + dotdots((k - 1) as nat)
    }
}

/// The stylesheet link element for a page `k` directories deep: its `href`
/// climbs back to the output root and names the shared stylesheet.
pub open spec fn link_tag_of(k: nat) -> Seq<char> {
    "<link rel=\"stylesheet\" href=\""@ + dotdots(k) + "style.css"@ + "\">"@
}

/// The title element for an extracted title, or nothing.
pub open spec fn title_tag_of(t: Option<Seq<char>>) -> Seq<char> {
    match t {
        Some(title) => "<title>"@ + title + "</title>\n"@,
        None => Seq::empty(),
    }
}

/// The complete HTML document for one page: head with optional title and
/// stylesheet link, then body with optional header, the rendered (link-
/// rewritten) markdown, and optional footer.
pub open spec fn page_of(cfg: Config, md: Seq<char>, rel: Seq<char>) -> Seq<char> {
    "<head>\n"@ + title_tag_of(title_of(ast_of(md))) + (match cfg.stylesheet {
        Some(_) => link_tag_of(nesting_depth(rel)),
        None => Seq::empty(),
    }) + "\n</head>\n<body>\n"@ + (match cfg.header {
        Some(h) => h@,
        None => Seq::empty(),
    }) + html_of(rewrite_links_spec(md)) + (match cfg.footer {
        Some(f) => f@,
        None => Seq::empty(),
    }) + "</body>"@
}

/// Appending one more `../` on the right is the same as stacking it on the
/// left: the climb is `k` identical steps.
proof fn lemma_dotdots_snoc(k: nat)
    ensures
        dotdots(k + 1) =~= dotdots(k) + seq!['.', '.', '/'],
    decreases k,
{
    if k > 0 {
        lemma_dotdots_snoc((k - 1) as nat);
        assert(dotdots(k + 1) =~= dotdots(k) + seq!['.', '.', '/']);
    } else {
        assert(dotdots(1) =~= seq!['.', '.', '/'] + dotdots(0));
        assert(dotdots(0) + seq!['.', '.', '/'] =~= seq!['.', '.', '/'] + dotdots(0));
    }
}

/// Counts the separators in a relative output path.
fn count_slashes(rel: &str) -> (k: usize)
    ensures
        k == nesting_depth(rel@),
{
    let n: usize = rel.unicode_len();
    let mut k: usize = 0;
    let mut i: usize = 0;
    while i < n
        invariant
            i <= n,
            n == rel@.len(),
            k <= i,
            k + slash_count_from(rel@, i as int) == nesting_depth(rel@),
        decreases n - i,
    {
        if rel.get_char(i) == '/' {
            k = k + 1;
        }
        i = i + 1;
    }
    k
}

/// The stylesheet link element for this output location, when a stylesheet
/// is configured; nothing otherwise.
pub fn get_html_style_link_tag(config: &Config, output_file_relative: &str) -> (r: Option<String>)
    ensures
        match r {
            Some(tag) => config.stylesheet is Some && tag@ == link_tag_of(
                nesting_depth(output_file_relative@),
            ),
            None => config.stylesheet is None,
        },
{
    match &config.stylesheet {
        None => None,
        Some(_) => {
            let depth = count_slashes(output_file_relative);
            let mut href = String::new();
            let mut j: usize = 0;
            while j < depth
                invariant
                    j <= depth,
                    href@ == dotdots(j as nat),
                decreases depth - j,
            {
                proof {
                    reveal_strlit("../");
                    assert("../"@ =~= seq!['.', '.', '/']);
                    lemma_dotdots_snoc(j as nat);
                }
                href.append("../");
                j = j + 1;
            }
            let mut tag = String::new();
            tag.append("<link rel=\"stylesheet\" href=\"");
            tag.append(href.as_str());
            tag.append("style.css");
            tag.append("\">");
            proof {
                assert(tag@ =~= link_tag_of(nesting_depth(output_file_relative@)));
            }
            Some(tag)
        },
    }
}

/// The title element of a document with the given top-level nodes: present
/// exactly when the document has a depth-1 top-level heading.
pub fn get_file_title_html_tag(nodes: &Vec<DocNode>) -> (r: Option<String>)
    ensures
        match r {
            Some(tag) => title_of(nodes@) is Some && tag@ == title_tag_of(title_of(nodes@)),
            None => title_of(nodes@) is None,
        },
{
    match crate::doc::extract_title(nodes) {
        None => None,
        Some(title) => {
            let mut tag = String::new();
            tag.append("<title>");
            tag.append(title.as_str());
            tag.append("</title>\n");
            proof {
                assert(tag@ =~= title_tag_of(title_of(nodes@)));
            }
            Some(tag)
        },
    }
}

/// Compiles one markdown source text into the complete HTML document that
/// belongs at the given output location.
pub fn compile_page(markdown_source: &str, config: &Config, output_file_relative: &str) -> (r:
    String)
    ensures
        r@ == page_of(*config, markdown_source@, output_file_relative@),
{
    let mut out = String::new();
    out.append("<head>\n");
    let nodes = parse_markdown(markdown_source);
    match get_file_title_html_tag(&nodes) {
        Some(tag) => out.append(tag.as_str()),
        None => (),
    }
    match get_html_style_link_tag(config, output_file_relative) {
        Some(tag) => out.append(tag.as_str()),
        None => (),
    }
    out.append("\n</head>\n<body>\n");
    match &config.header {
        Some(h) => out.append(h.as_str()),
        None => (),
    }
    let rewritten = replace_md_link_extensions_with_html(markdown_source);
    let body = render_html(rewritten.as_str());
    out.append(body.as_str());
    match &config.footer {
        Some(f) => out.append(f.as_str()),
        None => (),
    }
    out.append("</body>");
    proof {
        assert(out@ =~= page_of(*config, markdown_source@, output_file_relative@));
    }
    out
}

/// Idempotence: the compiled page is a function of the configuration, the
/// source text and the output location alone, so compiling the same
/// unchanged input again yields a byte-identical document.
pub proof fn lemma_compile_deterministic(
    cfg: Config,
    md: Seq<char>,
    rel: Seq<char>,
    first: Seq<char>,
    second: Seq<char>,
)
    requires
        first == page_of(cfg, md, rel),
        second == page_of(cfg, md, rel),
    ensures
        first == second,
{
}

} // verus!
