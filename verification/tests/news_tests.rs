use news::article::Article;
use news::article::ArticleError;
use news::article::expand_placeholders;
use news::article::resolve_image;
use news::blocks::is_header_token;
use news::blocks::is_ordered_list_token;
use news::blocks::parse_news;
use news::dict::Dict;
use news::inline::format_primative_styles;
use news::links::convert_link_to_html;
use news::links::format_links;
use news::links::replace_with_url;
use news::split::split_meta_list;
use news::text::remove_file_extension;
use news::text::replace_all;
use news::text::sanitize_html;
use news::text::take_first_word;
use news::text::trim_str;

#[test]
fn remove_file_extension_works() {
    assert_eq!(remove_file_extension(""), "");
    assert_eq!(remove_file_extension("foo"), "foo");
    assert_eq!(remove_file_extension("foo.bar"), "foo");
    assert_eq!(remove_file_extension("foo.bar.baz"), "foo.bar");
}

#[test]
fn remove_file_extension_keeps_dotfiles() {
    assert_eq!(remove_file_extension(".txt"), ".txt");
    assert_eq!(remove_file_extension("foo."), "foo");
}

#[test]
fn sanitize_escapes_in_order() {
    assert_eq!(sanitize_html("<b>&x>"), "&lt;b&gt;&amp;x&gt;");
}

#[test]
fn sanitize_is_not_idempotent() {
    assert_eq!(sanitize_html("&amp;"), "&amp;amp;");
}

#[test]
fn pipe_list_splits_and_trims() {
    assert_eq!(split_meta_list("a | b |c"), vec!["a", "b", "c"]);
    assert_eq!(split_meta_list("solo"), vec!["solo"]);
    assert_eq!(split_meta_list(""), vec![""]);
}

#[test]
fn take_first_word_splits_at_first_space() {
    assert_eq!(take_first_word("hello big world"), ("hello", " big world"));
    assert_eq!(take_first_word("hello"), ("hello", ""));
    assert_eq!(take_first_word(""), ("", ""));
}

#[test]
fn trim_removes_edge_whitespace() {
    assert_eq!(trim_str("  a b \t"), "a b");
    assert_eq!(trim_str("\r\n"), "");
}

#[test]
fn header_tokens_are_hash_runs() {
    assert!(is_header_token("#"));
    assert!(is_header_token("###"));
    assert!(!is_header_token("#a"));
    assert!(!is_header_token(">"));
}

#[test]
fn ordered_tokens_are_digits_then_dot() {
    assert!(is_ordered_list_token("1."));
    assert!(is_ordered_list_token("42."));
    assert!(!is_ordered_list_token("."));
    assert!(!is_ordered_list_token("1"));
    assert!(!is_ordered_list_token("a."));
    assert!(!is_ordered_list_token("1.2."));
}

#[test]
fn replace_all_replaces_every_occurrence() {
    assert_eq!(replace_all("a@k b@k", "@k", "V"), "aV bV");
    assert_eq!(replace_all("xxx", "xx", "y"), "yx");
}

#[test]
fn image_resolution_policy() {
    assert_eq!(resolve_image("@", "x", "/root/"), "/root/static/thumbs/x.jpg");
    assert_eq!(resolve_image("@c.png", "x", "/root/"), "/root/c.png");
    assert_eq!(resolve_image("http://a/b.png", "x", "/root/"), "http://a/b.png");
}

#[test]
fn styles_toggle_in_pairs() {
    assert_eq!(format_primative_styles("*hi*"), "<i>hi</i>");
    assert_eq!(format_primative_styles("^b^ _u_ ~s~ `c`"), "<b>b</b> <u>u</u> <strike>s</strike> <code>c</code>");
    assert_eq!(format_primative_styles("%p%"), "<span class=\"purple\">p</span>");
}

#[test]
fn unmatched_style_leaves_dangling_tag() {
    assert_eq!(format_primative_styles("*hi"), "<i>hi");
}

#[test]
fn backslash_escapes_a_marker() {
    assert_eq!(format_primative_styles("\\*x\\%"), "*x%");
}

#[test]
fn links_substitute_with_base_url() {
    assert_eq!(format_links("[Desc|@path]", "/root/"), "<a href=/root/path>Desc</a>");
    assert_eq!(format_links("[@path]", "/root/"), "<a href=/root/path>/root/path</a>");
}

#[test]
fn unterminated_link_is_dropped() {
    assert_eq!(format_links("text [open", "/root/"), "text ");
}

#[test]
fn link_keeps_absolute_href_and_pipes_in_text() {
    assert_eq!(
        format_links("[a|b|http://x]", "/root/"),
        "<a href=http://x>a|b</a>"
    );
}

#[test]
fn convert_link_always_yields_a_tag() {
    assert_eq!(
        convert_link_to_html("Desc|@p", "/root/"),
        Some("<a href=/root/p>Desc</a>".to_string())
    );
    assert_eq!(convert_link_to_html("", "/root/"), Some("<a href=></a>".to_string()));
}

#[test]
fn replace_with_url_strips_leading_at() {
    assert_eq!(replace_with_url("@path", "/root/"), "/root/path");
    assert_eq!(replace_with_url("path", "/root/"), "path");
}

#[test]
fn dict_insert_overwrites_and_get_misses() {
    let mut d = Dict::new();
    d.insert("k".to_string(), "v1".to_string());
    d.insert("k".to_string(), "v2".to_string());
    assert_eq!(d.get("k"), Some("v2".to_string()));
    assert_eq!(d.get("other"), None);
    assert_eq!(d.len(), 1);
}

#[test]
fn frontmatter_feeds_the_mapping() {
    let (body, meta) = parse_news("@author Ann\n# Big\n## Small\nnoise line\n---\nhello\n");
    assert_eq!(meta.get("author"), Some("Ann".to_string()));
    assert_eq!(meta.get("headline"), Some("Big".to_string()));
    assert_eq!(meta.get("desc"), Some("Small".to_string()));
    assert_eq!(meta.get("noise"), None);
    assert_eq!(body, "<p>hello</p>");
}

#[test]
fn body_lines_classify_by_token() {
    let (body, _) = parse_news("---\n# big\n### deep\n> q\n---\n~~~ skip\nhello <world>\n");
    assert_eq!(
        body,
        "<h2>big</h2>\n<h4>deep</h4>\n<blockquote>q</blockquote>\n<hr/>\n<p>hello &lt;world&gt;</p>"
    );
}

#[test]
fn heading_level_is_hash_count_plus_one() {
    let (body, _) = parse_news("---\n######### nine\n");
    assert_eq!(body, "<h10>nine</h10>");
}

#[test]
fn blank_body_lines_are_skipped() {
    let (body, _) = parse_news("---\n\n   \nx\n");
    assert_eq!(body, "<p>x</p>");
}

#[test]
fn list_items_share_one_wrapper() {
    let (body, _) = parse_news("---\n- a\n- b\n- c\n");
    assert_eq!(body, "<ul><li>a</li>\n<li>b</li>\n<li>c</li>");
}

#[test]
fn list_switch_closes_the_other_kind() {
    let (body, _) = parse_news("---\n- a\n1. d\n");
    assert_eq!(body, "<ul><li>a</li>\n</ul>\n<ol>\n<li>d</li>");
    let (body2, _) = parse_news("---\n1. x\n- y\n");
    assert_eq!(body2, "<ol><li>x</li>\n</ol>\n<ul>\n<li>y</li>");
}

#[test]
fn list_item_text_is_sanitized() {
    let (body, _) = parse_news("---\n- a<b\n");
    assert_eq!(body, "<ul><li>a&lt;b</li>");
}

#[test]
fn expand_replaces_placeholders() {
    let mut d = Dict::new();
    d.insert("author".to_string(), "Ann".to_string());
    assert_eq!(expand_placeholders("by @author!", &d), "by Ann!");
}

fn doc_without(missing: &str) -> String {
    let mut out = String::new();
    if missing != "headline" {
        out.push_str("# Big News\n");
    }
    if missing != "desc" {
        out.push_str("## All of it\n");
    }
    if missing != "author" {
        out.push_str("@author Ann\n");
    }
    if missing != "date" {
        out.push_str("@date 2024-01-01\n");
    }
    if missing != "topic" {
        out.push_str("@topic One | Two\n");
    }
    if missing != "image" {
        out.push_str("@image @\n");
    }
    if missing != "alt" {
        out.push_str("@alt A thumb\n");
    }
    out.push_str("---\nbody text\n");
    out
}

#[test]
fn each_missing_required_key_is_named() {
    for key in ["headline", "desc", "author", "date", "topic", "image", "alt"] {
        let content = doc_without(key);
        let err = Article::from("x", &content, "/root/").unwrap_err();
        assert_eq!(err, ArticleError::MissingField(key.to_string()));
    }
}

#[test]
fn first_missing_key_in_fixed_order_wins() {
    let err = Article::from("x", "---\n", "/root/").unwrap_err();
    assert_eq!(err, ArticleError::MissingField("headline".to_string()));
}

#[test]
fn complete_document_builds_an_article() {
    let content = "@author Ann\n@date 2024-01-01\n@topic One | Two\n@image @\n@alt A thumb\n@tags x|y\n# Big News\n## All of it\n---\nby @author\n*hi*\n[Desc|@p]\n";
    let a = Article::from("art1", content, "/root/").unwrap();
    assert_eq!(a.id, "art1");
    assert_eq!(a.headline, "Big News");
    assert_eq!(a.desc, "All of it");
    assert_eq!(a.author, "Ann");
    assert_eq!(a.date, "2024-01-01");
    assert_eq!(a.topic, vec!["One", "Two"]);
    assert_eq!(a.tags, vec!["x", "y"]);
    assert_eq!(a.alt, "A thumb");
    assert_eq!(a.image, "/root/static/thumbs/art1.jpg");
    assert_eq!(
        a.body,
        "<p>by Ann</p>\n<p><i>hi</i></p>\n<p><a href=/root/p>Desc</a></p>"
    );
}

#[test]
fn tags_default_to_empty_and_image_passes_through() {
    let content = "@author A\n@date D\n@topic T\n@image http://a/b.png\n@alt Z\n# H\n## S\n---\n";
    let a = Article::from("id0", content, "/root/").unwrap();
    assert_eq!(a.tags, Vec::<String>::new());
    assert_eq!(a.image, "http://a/b.png");
    assert_eq!(a.topic, vec!["T"]);
    assert_eq!(a.body, "");
}

#[test]
fn relative_image_resolves_against_base() {
    let content = "@author A\n@date D\n@topic T\n@image @c.png\n@alt Z\n# H\n## S\n---\n";
    let a = Article::from("id0", content, "/root/").unwrap();
    assert_eq!(a.image, "/root/c.png");
}
