use mdmake::replace_md_link_extensions_with_html;

#[test]
fn relative_md_link_is_rewritten() {
    let out = replace_md_link_extensions_with_html("[See also](notes.md)");
    assert_eq!(out, "[See also](notes.html)");
}

#[test]
fn external_url_is_left_unchanged() {
    let out = replace_md_link_extensions_with_html("[External](https://example.com/readme.md)");
    assert_eq!(out, "[External](https://example.com/readme.md)");
}

#[test]
fn non_markdown_target_is_left_unchanged() {
    let out = replace_md_link_extensions_with_html("[Image](pic.png)");
    assert_eq!(out, "[Image](pic.png)");
}

#[test]
fn absolute_path_is_left_unchanged() {
    let out = replace_md_link_extensions_with_html("[Abs](/docs/notes.md)");
    assert_eq!(out, "[Abs](/docs/notes.md)");
}

#[test]
fn uppercase_extension_is_rewritten() {
    let out = replace_md_link_extensions_with_html("[A](dir/NOTES.MD)");
    assert_eq!(out, "[A](dir/NOTES.html)");
}

#[test]
fn hidden_md_file_has_no_extension() {
    let out = replace_md_link_extensions_with_html("[H](.md)");
    assert_eq!(out, "[H](.md)");
    let out2 = replace_md_link_extensions_with_html("[H](dir/.md)");
    assert_eq!(out2, "[H](dir/.md)");
}

#[test]
fn several_links_are_all_rewritten() {
    let out = replace_md_link_extensions_with_html("See [a](a.md) and [b](sub/b.md), not [c](c.txt).");
    assert_eq!(out, "See [a](a.html) and [b](sub/b.html), not [c](c.txt).");
}

#[test]
fn text_without_links_is_copied() {
    let src = "plain text, (parens), [brackets] alone";
    assert_eq!(replace_md_link_extensions_with_html(src), src);
}

#[test]
fn greedy_text_runs_to_last_bracket_before_close() {
    // The link text may itself hold `] [`: the match takes the last `](`
    // before the first `)`.
    let out = replace_md_link_extensions_with_html("[a] [b](c.md)");
    assert_eq!(out, "[a] [b](c.html)");
}

#[test]
fn unclosed_link_is_copied() {
    let src = "[dangling](never closed";
    assert_eq!(replace_md_link_extensions_with_html(src), src);
}
