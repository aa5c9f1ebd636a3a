use vstd::prelude::*;

use crate::date::Date;
use crate::date::format_date;
use crate::date::iso_date;
use crate::page::BasicMeta;
use crate::page::PostMeta;
use crate::strutil::push_char;

verus! {

/// What the HTML escaper writes for one character: the four characters that
/// could open or close markup become entities, every other character stands
/// as itself.
pub open spec fn html_escape_char(c: char) -> Seq<char> {
    if c == '&' {
        seq!['&', 'a', 'm', 'p', ';']
    } else if c == '<' {
        seq!['&', 'l', 't', ';']
    } else if c == '>' {
        seq!['&', 'g', 't', ';']
    } else if c == '"' {
        seq!['&', 'q', 'u', 'o', 't', ';']
    } else {
        seq![c]
    }
}

/// The text with every character HTML-escaped.
pub open spec fn html_escape_seq(s: Seq<char>) -> Seq<char>
    decreases s.len(),
{
    if s.len() == 0 {
        Seq::<char>::empty()
    } else {
        html_escape_char(s[0]) + html_escape_seq(s.skip(1))
    }
}

proof fn lemma_html_escape_push(s: Seq<char>, c: char)
    ensures
        html_escape_seq(s.push(c)) == html_escape_seq(s) + html_escape_char(c),
    decreases s.len(),
{
    let t = s.push(c);
    if s.len() == 0 {
        assert(t[0] == c);
        assert(t.skip(1) =~= Seq::<char>::empty());
        assert(html_escape_seq(t) == html_escape_char(c) + html_escape_seq(
            Seq::<char>::empty(),
        ));
        assert(html_escape_seq(t) =~= html_escape_seq(s) + html_escape_char(c));
    } else {
        assert(t[0] == s[0]);
        assert(t.skip(1) =~= s.skip(1).push(c));
        lemma_html_escape_push(s.skip(1), c);
        assert(html_escape_seq(t) == html_escape_char(s[0]) + (html_escape_seq(s.skip(1))
            + html_escape_char(c)));
        assert(html_escape_seq(t) =~= html_escape_seq(s) + html_escape_char(c));
    }
}

/// Escapes text for inclusion in HTML element content or attribute values.
pub fn html_escape(s: &str) -> (r: String)
    ensures
        r@ == html_escape_seq(s@),
{
    let n = s.unicode_len();
    let mut out = String::new();
    let mut i: usize = 0;
    while i < n
        invariant
            i <= n,
            n == s@.len(),
            out@ == html_escape_seq(s@.take(i as int)),
        decreases n - i,
    {
        let c = s.get_char(i);
        if c == '&' {
            out.append("&amp;");
        } else if c == '<' {
            out.append("&lt;");
        } else if c == '>' {
            out.append("&gt;");
        } else if c == '"' {
            out.append("&quot;");
        } else {
            push_char(&mut out, c);
        }
        proof {
            reveal_strlit("&amp;");
            reveal_strlit("&lt;");
            reveal_strlit("&gt;");
            reveal_strlit("&quot;");
            lemma_html_escape_push(s@.take(i as int), c);
            assert(s@.take(i as int).push(c) =~= s@.take(i as int + 1));
            assert(out@ =~= html_escape_seq(s@.take(i as int + 1)));
        }
        i = i + 1;
    }
    proof {
        assert(s@.take(n as int) =~= s@);
    }
    out
}

/// The link-preview metadata block: content type, title, description,
/// canonical URL built from the page name, and fixed site fields.
pub open spec fn og_metas_spec(
    name: Seq<char>,
    title: Seq<char>,
    desc: Seq<char>,
    kind: Seq<char>,
) -> Seq<char> {
    "<meta property=\"og:type\" content=\""@ + html_escape_seq(kind)
        + "\"><meta property=\"og:title\" content=\""@ + html_escape_seq(title)
        + "\"><meta property=\"og:description\" content=\""@ + html_escape_seq(desc)
        + "\"><meta property=\"og:url\" content=\"https://analog-hors.github.io/"@
        + html_escape_seq(name)
        + "/\"><meta property=\"og:site_name\" content=\"Analog Hors\"><meta property=\"og:image\" content=\"https://analog-hors.github.io/shared/favicon.svg\"><meta property=\"og:locale\" content=\"en-US\">"@
}

/// Renders the link-preview metadata for a page.
pub fn opengraph_metas(name: &str, title: &str, desc: &str, kind: &str) -> (r: String)
    ensures
        r@ == og_metas_spec(name@, title@, desc@, kind@),
{
    let mut out = String::from_str("<meta property=\"og:type\" content=\"");
    let e = html_escape(kind);
    out.append(e.as_str());
    out.append("\"><meta property=\"og:title\" content=\"");
    let e = html_escape(title);
    out.append(e.as_str());
    out.append("\"><meta property=\"og:description\" content=\"");
    let e = html_escape(desc);
    out.append(e.as_str());
    out.append("\"><meta property=\"og:url\" content=\"https://analog-hors.github.io/");
    let e = html_escape(name);
    out.append(e.as_str());
    out.append(
        "/\"><meta property=\"og:site_name\" content=\"Analog Hors\"><meta property=\"og:image\" content=\"https://analog-hors.github.io/shared/favicon.svg\"><meta property=\"og:locale\" content=\"en-US\">",
    );
    proof {
        assert(out@ =~= og_metas_spec(name@, title@, desc@, kind@));
    }
    out
}

/// The document title element: the bare site name on the home page, the site
/// name and the page title everywhere else.
pub open spec fn title_tag_spec(title: Seq<char>, is_home: bool) -> Seq<char> {
    if is_home {
        "<title>Analog Hors</title>"@
    } else {
        "<title>Analog Hors - "@ + html_escape_seq(title) + "</title>"@
    }
}

/// Everything of the head before the title: encoding and viewport.
pub open spec fn head_open_spec() -> Seq<char> {
    "<!DOCTYPE html><html><head><meta charset=\"utf-8\"><meta name=\"viewport\" content=\"width=device-width, initial-scale=1.0\">"@
}

/// Stylesheet, web-font and icon links of the fixed page shell.
pub open spec fn head_links_spec() -> Seq<char> {
    "<link href=\"../shared/base.css\" rel=\"stylesheet\"><link rel=\"preconnect\" href=\"https://fonts.googleapis.com\"><link rel=\"preconnect\" href=\"https://fonts.gstatic.com\" crossorigin=\"\"><link href=\"https://fonts.googleapis.com/css2?family=Fira+Sans:ital@0;1&amp;family=JetBrains+Mono&amp;display=swap\" rel=\"stylesheet\"><link href=\"../shared/fontawesome/css/fontawesome.min.css\" rel=\"stylesheet\"><link href=\"../shared/fontawesome/css/regular.min.css\" rel=\"stylesheet\"><link href=\"../shared/favicon.svg\" rel=\"icon\">"@
}

/// The navigation header with the three fixed links.
pub open spec fn header_spec() -> Seq<char> {
    "</head><body><header><code><a href=\"../home/\">analog-hors</a>&nbsp;-&nbsp;<a href=\"../projects/\">projects</a>&nbsp;-&nbsp;<a href=\"../writing\">writing</a></code></header><div id=\"content-container\"><div id=\"content\"><h1>"@
}

/// The licensing and support footer block.
pub open spec fn end_block_spec() -> Seq<char> {
    "<br><br><p class=\"colored-block\"><em>Unless stated otherwise, content on this website is licensed with <a href=\"https://creativecommons.org/licenses/by-nc/4.0/\">CC BY-NC 4.0</a>. Source code is licensed under <a href=\"https://spdx.org/licenses/MIT.html\">the MIT license</a>. Cited materials belong to their respective owners.<br><br>Like what I do? <a href=\"https://ko-fi.com/analog_hors\">Support me on Ko-fi!</a></em></p><br><br></div></div>"@
}

/// A complete HTML document: fixed shell around the escaped title, the
/// already-rendered content, the link-preview metadata and the analytics
/// snippet injected verbatim.
pub open spec fn base_spec(
    title: Seq<char>,
    is_home: bool,
    content: Seq<char>,
    metas: Seq<char>,
    analytics: Seq<char>,
) -> Seq<char> {
    head_open_spec() + metas + title_tag_spec(title, is_home) + head_links_spec() + header_spec()
        + html_escape_seq(title) + "</h1>"@ + content + end_block_spec() + analytics
        + "</body></html>"@
}

/// Renders the fixed page shell around a title and rendered content.
pub fn base(title: &str, is_home: bool, content: &str, metas: &str, analytics: &str) -> (r: String)
    ensures
        r@ == base_spec(title@, is_home, content@, metas@, analytics@),
{
    let mut out = String::from_str(
        "<!DOCTYPE html><html><head><meta charset=\"utf-8\"><meta name=\"viewport\" content=\"width=device-width, initial-scale=1.0\">",
    );
    out.append(metas);
    if is_home {
        out.append("<title>Analog Hors</title>");
    } else {
        out.append("<title>Analog Hors - ");
        let e = html_escape(title);
        out.append(e.as_str());
        out.append("</title>");
    }
    out.append(
        "<link href=\"../shared/base.css\" rel=\"stylesheet\"><link rel=\"preconnect\" href=\"https://fonts.googleapis.com\"><link rel=\"preconnect\" href=\"https://fonts.gstatic.com\" crossorigin=\"\"><link href=\"https://fonts.googleapis.com/css2?family=Fira+Sans:ital@0;1&amp;family=JetBrains+Mono&amp;display=swap\" rel=\"stylesheet\"><link href=\"../shared/fontawesome/css/fontawesome.min.css\" rel=\"stylesheet\"><link href=\"../shared/fontawesome/css/regular.min.css\" rel=\"stylesheet\"><link href=\"../shared/favicon.svg\" rel=\"icon\">",
    );
    out.append(
        "</head><body><header><code><a href=\"../home/\">analog-hors</a>&nbsp;-&nbsp;<a href=\"../projects/\">projects</a>&nbsp;-&nbsp;<a href=\"../writing\">writing</a></code></header><div id=\"content-container\"><div id=\"content\"><h1>",
    );
    let e = html_escape(title);
    out.append(e.as_str());
    out.append("</h1>");
    out.append(content);
    out.append(
        "<br><br><p class=\"colored-block\"><em>Unless stated otherwise, content on this website is licensed with <a href=\"https://creativecommons.org/licenses/by-nc/4.0/\">CC BY-NC 4.0</a>. Source code is licensed under <a href=\"https://spdx.org/licenses/MIT.html\">the MIT license</a>. Cited materials belong to their respective owners.<br><br>Like what I do? <a href=\"https://ko-fi.com/analog_hors\">Support me on Ko-fi!</a></em></p><br><br></div></div>",
    );
    out.append(analytics);
    out.append("</body></html>");
    proof {
        assert(out@ =~= base_spec(title@, is_home, content@, metas@, analytics@));
    }
    out
}

/// A complete document for an informational page.
pub open spec fn basic_spec(
    title: Seq<char>,
    is_home: bool,
    desc: Seq<char>,
    name: Seq<char>,
    content: Seq<char>,
    analytics: Seq<char>,
) -> Seq<char> {
    base_spec(
        title,
        is_home,
        content,
        og_metas_spec(name, title, desc, "website"@),
        analytics,
    )
}

/// Renders an informational page.
pub fn basic(meta: &BasicMeta, name: &str, content: &str, analytics: &str) -> (r: String)
    ensures
        r@ == basic_spec(meta.title@, meta.is_home, meta.desc@, name@, content@, analytics@),
{
    let metas = opengraph_metas(name, meta.title.as_str(), meta.desc.as_str(), "website");
    base(meta.title.as_str(), meta.is_home, content, metas.as_str(), analytics)
}

/// The byline of a post: author and date, with their icons.
pub open spec fn byline_spec(author: Seq<char>, date: Date) -> Seq<char> {
    "<p><i class=\"fa-regular fa-user\"></i> "@ + html_escape_seq(author)
        + "&nbsp;&nbsp;&nbsp;<i class=\"fa-regular fa-clock\"></i> "@ + iso_date(date) + "</p>"@
}

/// Renders the byline of a post.
pub fn byline(author: &str, date: Date) -> (r: String)
    ensures
        r@ == byline_spec(author@, date),
{
    let mut out = String::from_str("<p><i class=\"fa-regular fa-user\"></i> ");
    let e = html_escape(author);
    out.append(e.as_str());
    out.append("&nbsp;&nbsp;&nbsp;<i class=\"fa-regular fa-clock\"></i> ");
    let d = format_date(date);
    out.append(d.as_str());
    out.append("</p>");
    proof {
        assert(out@ =~= byline_spec(author@, date));
    }
    out
}

/// A complete document for a dated post: the byline block above the body,
/// and the document title always carrying the site suffix.
pub open spec fn post_spec(
    title: Seq<char>,
    author: Seq<char>,
    date: Date,
    desc: Seq<char>,
    name: Seq<char>,
    content: Seq<char>,
    analytics: Seq<char>,
) -> Seq<char> {
    base_spec(
        title,
        false,
        byline_spec(author, date) + content,
        og_metas_spec(name, title, desc, "article"@),
        analytics,
    )
}

/// Renders a dated post page.
pub fn post(meta: &PostMeta, name: &str, content: &str, analytics: &str) -> (r: String)
    ensures
        r@ == post_spec(
            meta.title@,
            meta.author@,
            meta.date,
            meta.desc@,
            name@,
            content@,
            analytics@,
        ),
{
    let mut body = byline(meta.author.as_str(), meta.date);
    body.append(content);
    let metas = opengraph_metas(name, meta.title.as_str(), meta.desc.as_str(), "article");
    base(meta.title.as_str(), false, body.as_str(), metas.as_str(), analytics)
}

} // verus!
