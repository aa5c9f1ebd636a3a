use anablog::date::{format_date, Date};
use anablog::page::{split_front_matter, BasicMeta, Page, PageMeta, PostMeta};
use anablog::page_entry::needs_update;
use anablog::rss::xml_escape;
use anablog::templates::{base, basic, html_escape, opengraph_metas, post};

fn sample_post_meta(title: &str, date: Date) -> PostMeta {
    PostMeta {
        title: title.to_string(),
        author: "someone".to_string(),
        date,
        desc: "about things".to_string(),
    }
}

#[test]
fn needs_update_when_no_output_exists() {
    assert!(needs_update(5, None));
}

#[test]
fn needs_update_when_source_newer() {
    assert!(needs_update(10, Some(9)));
}

#[test]
fn no_update_when_output_fresh() {
    assert!(!needs_update(10, Some(10)));
    assert!(!needs_update(10, Some(11)));
}

#[test]
fn split_front_matter_splits_at_first_terminator() {
    let raw = "title: x\n---\nbody text";
    let (head, tail) = split_front_matter(raw).expect("terminator present");
    assert_eq!(head, "title: x");
    assert_eq!(tail, "\nbody text");
}

#[test]
fn split_front_matter_takes_first_of_several() {
    let raw = "a\n---b\n---c";
    let (head, tail) = split_front_matter(raw).expect("terminator present");
    assert_eq!(head, "a");
    assert_eq!(tail, "b\n---c");
}

#[test]
fn split_front_matter_rejects_missing_terminator() {
    assert!(split_front_matter("no front matter here").is_none());
    assert!(split_front_matter("").is_none());
    assert!(split_front_matter("--- but no newline dashes").is_none());
}

#[test]
fn xml_escape_escapes_all_five() {
    assert_eq!(
        xml_escape("a<b>&\"c'd"),
        "a&lt;b&gt;&amp;&quot;c&apos;d"
    );
}

#[test]
fn xml_escape_leaves_plain_text() {
    assert_eq!(xml_escape("hello, world"), "hello, world");
}

#[test]
fn xml_escape_round_trips() {
    let original = "Tom & Jerry's <\"quoted\"> 1 > 0 &amp; more";
    let escaped = xml_escape(original);
    assert!(!escaped.contains('<'));
    assert!(!escaped.contains('>'));
    assert!(!escaped.contains('"'));
    assert!(!escaped.contains('\''));
    let unescaped = escaped
        .replace("&quot;", "\"")
        .replace("&apos;", "'")
        .replace("&lt;", "<")
        .replace("&gt;", ">")
        .replace("&amp;", "&");
    assert_eq!(unescaped, original);
}

#[test]
fn html_escape_escapes_markup() {
    assert_eq!(html_escape("a<b>&\"c'd"), "a&lt;b&gt;&amp;&quot;c'd");
}

#[test]
fn format_date_pads_to_four_digits() {
    assert_eq!(format_date(Date { year: 2023, month: 1, day: 1 }), "2023-01-01");
    assert_eq!(format_date(Date { year: 1, month: 2, day: 3 }), "0001-02-03");
    assert_eq!(format_date(Date { year: 987, month: 12, day: 31 }), "0987-12-31");
}

#[test]
fn format_date_out_of_range_years_carry_a_sign() {
    assert_eq!(format_date(Date { year: 12345, month: 6, day: 7 }), "+12345-06-07");
    assert_eq!(format_date(Date { year: -1, month: 2, day: 3 }), "-0001-02-03");
    assert_eq!(format_date(Date { year: -12345, month: 6, day: 7 }), "-12345-06-07");
}

#[test]
fn page_new_renders_markdown_body() {
    let meta = PageMeta::Basic(BasicMeta {
        title: "t".to_string(),
        is_home: false,
        desc: "d".to_string(),
    });
    let page = Page::new(meta, "# Hi\n\nsome *text*\n");
    assert!(page.content.contains("<h1>Hi</h1>"));
    assert!(page.content.contains("<em>text</em>"));
}

#[test]
fn page_new_passes_raw_html_through() {
    let meta = PageMeta::Basic(BasicMeta {
        title: "t".to_string(),
        is_home: false,
        desc: "d".to_string(),
    });
    let page = Page::new(meta, "<div class=\"x\">kept</div>\n");
    assert!(page.content.contains("<div class=\"x\">kept</div>"));
}

#[test]
fn base_home_title_omits_suffix() {
    let html = base("Home", true, "<p>hi</p>", "", "");
    assert!(html.contains("<title>Analog Hors</title>"));
    assert!(!html.contains("<title>Analog Hors - "));
    assert!(html.contains("<h1>Home</h1>"));
    assert!(html.contains("<p>hi</p>"));
}

#[test]
fn base_other_titles_carry_suffix() {
    let html = base("A & B", false, "", "", "");
    assert!(html.contains("<title>Analog Hors - A &amp; B</title>"));
    assert!(html.contains("<h1>A &amp; B</h1>"));
}

#[test]
fn base_injects_analytics_verbatim() {
    let html = base("t", false, "", "", "<script>snippet()</script>");
    assert!(html.contains("<script>snippet()</script></body></html>"));
}

#[test]
fn opengraph_metas_builds_canonical_url() {
    let metas = opengraph_metas("my-page", "Title", "Desc", "website");
    assert!(metas.contains("content=\"https://analog-hors.github.io/my-page/\""));
    assert!(metas.contains("<meta property=\"og:type\" content=\"website\">"));
    assert!(metas.contains("<meta property=\"og:title\" content=\"Title\">"));
}

#[test]
fn basic_page_includes_metas_and_shell() {
    let meta = BasicMeta {
        title: "About".to_string(),
        is_home: false,
        desc: "About me".to_string(),
    };
    let html = basic(&meta, "about", "<p>content</p>", "");
    assert!(html.contains("<title>Analog Hors - About</title>"));
    assert!(html.contains("<meta property=\"og:type\" content=\"website\">"));
    assert!(html.contains("<meta property=\"og:url\" content=\"https://analog-hors.github.io/about/\">"));
    assert!(html.contains("<p>content</p>"));
    assert!(html.contains("Support me on Ko-fi!"));
}

#[test]
fn post_page_has_byline_and_article_metas() {
    let meta = sample_post_meta("My Post", Date { year: 2023, month: 4, day: 5 });
    let html = post(&meta, "my-post", "<p>body</p>", "");
    assert!(html.contains("<title>Analog Hors - My Post</title>"));
    assert!(html.contains("fa-user\"></i> someone"));
    assert!(html.contains("fa-clock\"></i> 2023-04-05</p>"));
    assert!(html.contains("<meta property=\"og:type\" content=\"article\">"));
    assert!(html.contains("<p>body</p>"));
}

#[test]
fn to_html_dispatches_on_variant() {
    let basic_page = Page {
        meta: PageMeta::Basic(BasicMeta {
            title: "B".to_string(),
            is_home: false,
            desc: "d".to_string(),
        }),
        content: "<p>x</p>".to_string(),
    };
    let post_page = Page {
        meta: PageMeta::Post(sample_post_meta("P", Date { year: 2020, month: 1, day: 2 })),
        content: "<p>y</p>".to_string(),
    };
    let b = basic_page.to_html("b", "");
    let p = post_page.to_html("p", "");
    assert!(b.contains("og:type\" content=\"website\""));
    assert!(p.contains("og:type\" content=\"article\""));
    assert!(p.contains("fa-clock\"></i> 2020-01-02"));
}
