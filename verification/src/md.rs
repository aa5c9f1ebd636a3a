use vstd::prelude::*;

verus! {

/// A name for the HTML that the Markdown engine renders from a text: the
/// result depends on the text alone.
pub uninterp spec fn html_of(md: Seq<char>) -> Seq<char>;

/// Relies on comrak's `markdown_to_html_with_plugins`: rendering is a pure
/// function of the input text. Raw HTML passthrough is enabled and fenced
/// code blocks are highlighted with a fixed color theme.
#[verifier::external_body]
pub fn render_md(md: &str) -> (r: String)
    ensures
        r@ == html_of(md@),
{
    let highlighter = comrak::plugins::syntect::SyntectAdapter::new(Some("base16-ocean.dark"));
    let mut options = comrak::Options::default();
    let mut plugins = comrak::Plugins::default();
    options.render.unsafe_ = true;
    plugins.render.codefence_syntax_highlighter = Some(&highlighter);
    comrak::markdown_to_html_with_plugins(md, &options, &plugins)
}

} // verus!
