use mdmake::Config;
use mdmake::DocNode;
use mdmake::compile_page;
use mdmake::extract_title;
use mdmake::get_nodes_string_contents;
use mdmake::get_file_title_html_tag;
use mdmake::get_html_style_link_tag;
use mdmake::parse_markdown;

fn bare_config() -> Config {
    Config {
        input_dir: "src".to_string(),
        output_dir: "out".to_string(),
        stylesheet: None,
        header: None,
        footer: None,
    }
}

fn styled_config() -> Config {
    Config {
        input_dir: "src".to_string(),
        output_dir: "out".to_string(),
        stylesheet: Some("src/style.css".to_string()),
        header: None,
        footer: None,
    }
}

#[test]
fn title_from_first_top_level_heading() {
    let nodes = parse_markdown("# Hello *World*\n\nbody text\n");
    assert_eq!(extract_title(&nodes), Some("Hello World".to_string()));
}

#[test]
fn no_title_without_level_one_heading() {
    let nodes = parse_markdown("## Only a subheading\n\nbody\n");
    assert_eq!(extract_title(&nodes), None);
    assert_eq!(get_file_title_html_tag(&nodes), None);
}

#[test]
fn title_tag_wraps_extracted_title() {
    let nodes = parse_markdown("# Plain\n");
    assert_eq!(
        get_file_title_html_tag(&nodes),
        Some("<title>Plain</title>\n".to_string())
    );
}

#[test]
fn title_found_past_lower_headings() {
    // The scan looks for the first depth-1 heading; headings of other
    // depths are passed over, not taken as "no title".
    let nodes = parse_markdown("## First\n\n# Real Title\n");
    assert_eq!(extract_title(&nodes), Some("Real Title".to_string()));
}

#[test]
fn title_unwraps_code_and_links() {
    let nodes = parse_markdown("# See `code` and [linked text](x.md)\n");
    assert_eq!(
        extract_title(&nodes),
        Some("See code and linked text".to_string())
    );
}

#[test]
fn string_contents_recurses_and_drops_unlisted_kinds() {
    let n = DocNode::Emphasis(vec![
        DocNode::Text("a".to_string()),
        DocNode::Link(vec![DocNode::Text("b".to_string())]),
        DocNode::Other,
        DocNode::InlineCode("c".to_string()),
        DocNode::Heading(2, vec![DocNode::Text("dropped".to_string())]),
        DocNode::InlineMath("d".to_string()),
    ]);
    assert_eq!(n.get_string_contents(), "abcd");
    let list = vec![
        DocNode::Strong(vec![DocNode::Text("x".to_string())]),
        DocNode::Paragraph(vec![DocNode::Text("y".to_string())]),
    ];
    assert_eq!(get_nodes_string_contents(&list), "xy");
}

#[test]
fn full_page_with_title_and_no_style() {
    let page = compile_page("# Hi Mercury!", &bare_config(), "page.html");
    assert_eq!(
        page,
        "<head>\n<title>Hi Mercury!</title>\n\n</head>\n<body>\n<h1>Hi Mercury!</h1></body>"
    );
}

#[test]
fn full_page_without_title() {
    let page = compile_page("## Sub", &bare_config(), "page.html");
    assert_eq!(page, "<head>\n\n</head>\n<body>\n<h2>Sub</h2></body>");
}

#[test]
fn page_renders_rewritten_link() {
    let page = compile_page("[See also](notes.md)", &bare_config(), "page.html");
    assert!(page.contains("href=\"notes.html\""));
    assert!(!page.contains("notes.md"));
}

#[test]
fn page_keeps_external_md_url() {
    let page = compile_page(
        "[External](https://example.com/readme.md)",
        &bare_config(),
        "page.html",
    );
    assert!(page.contains("https://example.com/readme.md"));
}

#[test]
fn header_and_footer_wrap_body() {
    let mut cfg = bare_config();
    cfg.header = Some("<nav>top</nav>".to_string());
    cfg.footer = Some("<hr>".to_string());
    let page = compile_page("plain", &cfg, "page.html");
    assert_eq!(
        page,
        "<head>\n\n</head>\n<body>\n<nav>top</nav><p>plain</p><hr></body>"
    );
}

#[test]
fn stylesheet_link_two_levels_deep() {
    let tag = get_html_style_link_tag(&styled_config(), "a/b/page.html");
    assert_eq!(
        tag,
        Some("<link rel=\"stylesheet\" href=\"../../style.css\">".to_string())
    );
}

#[test]
fn stylesheet_link_at_output_root() {
    let tag = get_html_style_link_tag(&styled_config(), "page.html");
    assert_eq!(
        tag,
        Some("<link rel=\"stylesheet\" href=\"style.css\">".to_string())
    );
}

#[test]
fn no_stylesheet_no_link_tag() {
    assert_eq!(get_html_style_link_tag(&bare_config(), "a/page.html"), None);
}

#[test]
fn page_embeds_stylesheet_link_by_depth() {
    let page = compile_page("text", &styled_config(), "d1/d2/page.html");
    assert!(page.contains("<link rel=\"stylesheet\" href=\"../../style.css\">"));
}

#[test]
fn compiling_twice_is_byte_identical() {
    let cfg = styled_config();
    let src = "# Title\n\nSome [link](a.md) and *emphasis*.\n";
    let first = compile_page(src, &cfg, "sub/page.html");
    let second = compile_page(src, &cfg, "sub/page.html");
    assert_eq!(first, second);
}
