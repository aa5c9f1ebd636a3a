use vstd::prelude::*;

use crate::date::Date;
use crate::md::html_of;
use crate::md::render_md;

verus! {

/// Metadata of an informational page.
#[derive(Debug)]
pub struct BasicMeta {
    pub title: String,
    pub is_home: bool,
    pub desc: String,
}

/// Metadata of a dated blog post.
#[derive(Debug)]
pub struct PostMeta {
    pub title: String,
    pub author: String,
    pub date: Date,
    pub desc: String,
}

/// The two shapes of front matter a content file may carry.
#[derive(Debug)]
pub enum PageMeta {
    Basic(BasicMeta),
    Post(PostMeta),
}

/// A parsed content record: its metadata, and its body rendered to HTML.
/// A record exists only as a whole; a file that fails to parse yields none.
#[derive(Debug)]
pub struct Page {
    pub meta: PageMeta,
    pub content: String,
}

/// Whether the front-matter terminator (a newline followed by `---`) stands
/// at position `i` of `s`.
pub open spec fn delim_at(s: Seq<char>, i: int) -> bool {
    &&& 0 <= i
    &&& i + 4 <= s.len()
    &&& s[i] == '\n'
    &&& s[i + 1] == '-'
    &&& s[i + 2] == '-'
    &&& s[i + 3] == '-'
}

/// The first position at or after `i` where the terminator stands.
pub open spec fn find_delim_from(s: Seq<char>, i: int) -> Option<int>
    decreases s.len() - i,
{
    if i + 4 > s.len() {
        None
    } else if delim_at(s, i) {
        Some(i)
    } else {
        find_delim_from(s, i + 1)
    }
}

/// The first position where the terminator stands, if any.
pub open spec fn find_delim(s: Seq<char>) -> Option<int> {
    find_delim_from(s, 0)
}

proof fn lemma_find_delim_from(s: Seq<char>, i: int)
    requires
        0 <= i,
        forall|j: int| 0 <= j < i ==> !delim_at(s, j),
    ensures
        find_delim(s) == find_delim_from(s, i),
    decreases i,
{
    if i > 0 {
        lemma_find_delim_from(s, i - 1);
    }
}

/// Splits a raw content file at the first front-matter terminator: the text
/// before it and the text after it. Returns nothing when no terminator
/// occurs, which signals a malformed file.
pub fn split_front_matter(raw: &str) -> (r: Option<(String, String)>)
    ensures
        match r {
            None => find_delim(raw@) is None,
            Some(ht) => {
                &&& find_delim(raw@) is Some
                &&& ht.0@ == raw@.take(find_delim(raw@).unwrap())
                &&& ht.1@ == raw@.skip(find_delim(raw@).unwrap() + 4)
            },
        },
{
    let n = raw.unicode_len();
    let mut i: usize = 0;
    while n - i >= 4
        invariant
            i <= n,
            n == raw@.len(),
            forall|j: int| 0 <= j < i ==> !delim_at(raw@, j),
        decreases n - i,
    {
        if raw.get_char(i) == '\n' && raw.get_char(i + 1) == '-' && raw.get_char(i + 2) == '-'
            && raw.get_char(i + 3) == '-' {
            let head = raw.substring_char(0, i);
            let tail = raw.substring_char(i + 4, n);
            proof {
                assert(delim_at(raw@, i as int));
                lemma_find_delim_from(raw@, i as int);
                assert(find_delim(raw@) == Some(i as int));
                assert(head@ =~= raw@.take(i as int));
                assert(tail@ =~= raw@.skip(i as int + 4));
            }
            return Some((head.to_owned(), tail.to_owned()));
        }
        i = i + 1;
    }
    proof {
        lemma_find_delim_from(raw@, i as int);
        assert(find_delim_from(raw@, i as int) is None);
    }
    None
}

/// The complete HTML document for a record published under `name`,
/// branching on the metadata variant.
pub open spec fn page_html_spec(p: Page, name: Seq<char>, analytics: Seq<char>) -> Seq<char> {
    match p.meta {
        PageMeta::Basic(b) => crate::templates::basic_spec(
            b.title@,
            b.is_home,
            b.desc@,
            name,
            p.content@,
            analytics,
        ),
        PageMeta::Post(m) => crate::templates::post_spec(
            m.title@,
            m.author@,
            m.date,
            m.desc@,
            name,
            p.content@,
            analytics,
        ),
    }
}

impl Page {
    /// Assembles a record from parsed metadata and the Markdown body that
    /// followed the terminator, rendering the body to HTML.
    pub fn new(meta: PageMeta, body_md: &str) -> (p: Page)
        ensures
            p.meta == meta,
            p.content@ == html_of(body_md@),
    {
        let content = render_md(body_md);
        Page { meta, content }
    }

    /// Renders the record to its complete HTML document.
    pub fn to_html(&self, name: &str, analytics: &str) -> (r: String)
        ensures
            r@ == page_html_spec(*self, name@, analytics@),
    {
        match &self.meta {
            PageMeta::Basic(b) => crate::templates::basic(
                b,
                name,
                self.content.as_str(),
                analytics,
            ),
            PageMeta::Post(m) => crate::templates::post(m, name, self.content.as_str(), analytics),
        }
    }
}

} // verus!
