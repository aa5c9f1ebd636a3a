use vstd::prelude::*;

use crate::date::rfc2822_midnight;
use crate::date::rfc2822_or_empty;
use crate::date::valid_date;
use crate::page::PageMeta;
use crate::site_pages::SitePages;
use crate::strutil::push_char;
use vstd::pervasive::unreached;

verus! {

/// The entity for a double quote.
pub open spec fn quot_entity() -> Seq<char> {
    seq!['&', 'q', 'u', 'o', 't', ';']
}

/// The entity for an apostrophe.
pub open spec fn apos_entity() -> Seq<char> {
    seq!['&', 'a', 'p', 'o', 's', ';']
}

/// The entity for a left angle bracket.
pub open spec fn lt_entity() -> Seq<char> {
    seq!['&', 'l', 't', ';']
}

/// The entity for a right angle bracket.
pub open spec fn gt_entity() -> Seq<char> {
    seq!['&', 'g', 't', ';']
}

/// The entity for an ampersand.
pub open spec fn amp_entity() -> Seq<char> {
    seq!['&', 'a', 'm', 'p', ';']
}

/// What the XML escaper writes for one character: the five reserved
/// characters become entities, every other character stands as itself.
pub open spec fn xml_escape_char(c: char) -> Seq<char> {
    if c == '"' {
        quot_entity()
    } else if c == '\'' {
        apos_entity()
    } else if c == '<' {
        lt_entity()
    } else if c == '>' {
        gt_entity()
    } else if c == '&' {
        amp_entity()
    } else {
        seq![c]
    }
}

/// The text with every character XML-escaped.
pub open spec fn xml_escape_seq(s: Seq<char>) -> Seq<char>
    decreases s.len(),
{
    if s.len() == 0 {
        Seq::<char>::empty()
    } else {
        xml_escape_char(s[0]) + xml_escape_seq(s.skip(1))
    }
}

proof fn lemma_xml_escape_push(s: Seq<char>, c: char)
    ensures
        xml_escape_seq(s.push(c)) == xml_escape_seq(s) + xml_escape_char(c),
    decreases s.len(),
{
    let t = s.push(c);
    if s.len() == 0 {
        assert(t[0] == c);
        assert(t.skip(1) =~= Seq::<char>::empty());
        assert(xml_escape_seq(t) == xml_escape_char(c) + xml_escape_seq(Seq::<char>::empty()));
        assert(xml_escape_seq(t) =~= xml_escape_seq(s) + xml_escape_char(c));
    } else {
        assert(t[0] == s[0]);
        assert(t.skip(1) =~= s.skip(1).push(c));
        lemma_xml_escape_push(s.skip(1), c);
        assert(xml_escape_seq(t) == xml_escape_char(s[0]) + (xml_escape_seq(s.skip(1))
            + xml_escape_char(c)));
        assert(xml_escape_seq(t) =~= xml_escape_seq(s) + xml_escape_char(c));
    }
}

/// Escapes the five reserved XML characters of a text.
pub fn xml_escape(s: &str) -> (r: String)
    ensures
        r@ == xml_escape_seq(s@),
{
    let n = s.unicode_len();
    let mut out = String::new();
    let mut i: usize = 0;
    while i < n
        invariant
            i <= n,
            n == s@.len(),
            out@ == xml_escape_seq(s@.take(i as int)),
        decreases n - i,
    {
        let c = s.get_char(i);
        if c == '"' {
            out.append("&quot;");
        } else if c == '\'' {
            out.append("&apos;");
        } else if c == '<' {
            out.append("&lt;");
        } else if c == '>' {
            out.append("&gt;");
        } else if c == '&' {
            out.append("&amp;");
        } else {
            push_char(&mut out, c);
        }
        proof {
            reveal_strlit("&quot;");
            reveal_strlit("&apos;");
            reveal_strlit("&lt;");
            reveal_strlit("&gt;");
            reveal_strlit("&amp;");
            lemma_xml_escape_push(s@.take(i as int), c);
            assert(s@.take(i as int).push(c) =~= s@.take(i as int + 1));
            assert(out@ =~= xml_escape_seq(s@.take(i as int + 1)));
        }
        i = i + 1;
    }
    proof {
        assert(s@.take(n as int) =~= s@);
    }
    out
}

/// Whether `s` starts with `p`.
pub open spec fn begins(s: Seq<char>, p: Seq<char>) -> bool {
    p.len() <= s.len() && forall|k: int| 0 <= k < p.len() ==> s[k] == p[k]
}

/// A standard XML unescape: each leading entity becomes its character, any
/// other character is copied.
pub open spec fn xml_unescape_seq(s: Seq<char>) -> Seq<char>
    decreases s.len(),
{
    if s.len() == 0 {
        Seq::<char>::empty()
    } else if begins(s, quot_entity()) {
        seq!['"'] + xml_unescape_seq(s.skip(6))
    } else if begins(s, apos_entity()) {
        seq!['\''] + xml_unescape_seq(s.skip(6))
    } else if begins(s, lt_entity()) {
        seq!['<'] + xml_unescape_seq(s.skip(4))
    } else if begins(s, gt_entity()) {
        seq!['>'] + xml_unescape_seq(s.skip(4))
    } else if begins(s, amp_entity()) {
        seq!['&'] + xml_unescape_seq(s.skip(5))
    } else {
        seq![s[0]] + xml_unescape_seq(s.skip(1))
    }
}

/// Escaping always round-trips: a standard XML unescape of the escaped text
/// recovers the original text, whatever characters it held.
pub proof fn lemma_xml_unescape_escape(s: Seq<char>)
    ensures
        xml_unescape_seq(xml_escape_seq(s)) == s,
    decreases s.len(),
{
    if s.len() == 0 {
        assert(xml_unescape_seq(xml_escape_seq(s)) =~= s);
    } else {
        let c = s[0];
        let e = xml_escape_char(c);
        let rest = xml_escape_seq(s.skip(1));
        let t = e + rest;
        assert(xml_escape_seq(s) == t);
        lemma_xml_unescape_escape(s.skip(1));
        assert(forall|k: int| 0 <= k < e.len() ==> t[k] == e[k]);
        if c == '"' {
            assert(begins(t, quot_entity()));
            assert(t.skip(6) =~= rest);
            assert(xml_unescape_seq(t) == seq!['"'] + xml_unescape_seq(rest));
            assert(seq![c] + s.skip(1) =~= s);
        } else if c == '\'' {
            assert(!begins(t, quot_entity())) by {
                if begins(t, quot_entity()) {
                    assert(t[1] == 'q');
                }
            }
            assert(begins(t, apos_entity()));
            assert(t.skip(6) =~= rest);
            assert(xml_unescape_seq(t) == seq!['\''] + xml_unescape_seq(rest));
            assert(seq![c] + s.skip(1) =~= s);
        } else if c == '<' {
            assert(!begins(t, quot_entity())) by {
                if begins(t, quot_entity()) {
                    assert(t[1] == 'q');
                }
            }
            assert(!begins(t, apos_entity())) by {
                if begins(t, apos_entity()) {
                    assert(t[1] == 'a');
                }
            }
            assert(begins(t, lt_entity()));
            assert(t.skip(4) =~= rest);
            assert(xml_unescape_seq(t) == seq!['<'] + xml_unescape_seq(rest));
            assert(seq![c] + s.skip(1) =~= s);
        } else if c == '>' {
            assert(!begins(t, quot_entity())) by {
                if begins(t, quot_entity()) {
                    assert(t[1] == 'q');
                }
            }
            assert(!begins(t, apos_entity())) by {
                if begins(t, apos_entity()) {
                    assert(t[1] == 'a');
                }
            }
            assert(!begins(t, lt_entity())) by {
                if begins(t, lt_entity()) {
                    assert(t[1] == 'l');
                }
            }
            assert(begins(t, gt_entity()));
            assert(t.skip(4) =~= rest);
            assert(xml_unescape_seq(t) == seq!['>'] + xml_unescape_seq(rest));
            assert(seq![c] + s.skip(1) =~= s);
        } else if c == '&' {
            assert(!begins(t, quot_entity())) by {
                if begins(t, quot_entity()) {
                    assert(t[1] == 'q');
                }
            }
            assert(!begins(t, apos_entity())) by {
                if begins(t, apos_entity()) {
                    assert(t[2] == 'p');
                }
            }
            assert(!begins(t, lt_entity())) by {
                if begins(t, lt_entity()) {
                    assert(t[1] == 'l');
                }
            }
            assert(!begins(t, gt_entity())) by {
                if begins(t, gt_entity()) {
                    assert(t[1] == 'g');
                }
            }
            assert(begins(t, amp_entity()));
            assert(t.skip(5) =~= rest);
            assert(xml_unescape_seq(t) == seq!['&'] + xml_unescape_seq(rest));
            assert(seq![c] + s.skip(1) =~= s);
        } else {
            assert(t[0] == c);
            assert(!begins(t, quot_entity())) by {
                if begins(t, quot_entity()) {
                    assert(t[0] == '&');
                }
            }
            assert(!begins(t, apos_entity())) by {
                if begins(t, apos_entity()) {
                    assert(t[0] == '&');
                }
            }
            assert(!begins(t, lt_entity())) by {
                if begins(t, lt_entity()) {
                    assert(t[0] == '&');
                }
            }
            assert(!begins(t, gt_entity())) by {
                if begins(t, gt_entity()) {
                    assert(t[0] == '&');
                }
            }
            assert(!begins(t, amp_entity())) by {
                if begins(t, amp_entity()) {
                    assert(t[0] == '&');
                }
            }
            assert(t.skip(1) =~= rest);
            assert(xml_unescape_seq(t) == seq![c] + xml_unescape_seq(rest));
            assert(seq![c] + s.skip(1) =~= s);
        }
    }
}

/// The fixed channel head of the feed, up to the first item.
pub open spec fn feed_head_spec() -> Seq<char> {
    "<?xml version=\"1.0\" encoding=\"UTF-8\" ?><rss version=\"2.0\" xmlns:atom=\"http://www.w3.org/2005/Atom\"><channel><title>Analog Hors - Writing</title><description>Analog&apos;s Blog</description><link>https://analog-hors.github.io/site/</link><language>en</language><atom:link href=\"https://analog-hors.github.io/writing/feed.rss\" rel=\"self\" type=\"application/rss+xml\"></atom:link>"@
}

/// One feed item: escaped title, description, canonical link, publication
/// timestamp at midnight UTC, and the link again as the identifier.
pub open spec fn feed_item_spec(s: SitePages, i: int) -> Seq<char> {
    let name = s.entries@[i].name@;
    let m = s.post_meta(i);
    "<item><title>"@ + xml_escape_seq(m.title@) + "</title><description>"@ + xml_escape_seq(
        m.desc@,
    ) + "</description><link>https://analog-hors.github.io/site/"@ + xml_escape_seq(name)
        + "/</link><pubDate>"@ + xml_escape_seq(rfc2822_or_empty(m.date))
        + "</pubDate><guid>https://analog-hors.github.io/site/"@ + xml_escape_seq(name)
        + "/</guid></item>"@
}

/// The items for the listed entries, in order.
pub open spec fn feed_items_spec(s: SitePages, idxs: Seq<usize>) -> Seq<char>
    decreases idxs.len(),
{
    if idxs.len() == 0 {
        Seq::<char>::empty()
    } else {
        feed_items_spec(s, idxs.drop_last()) + feed_item_spec(s, idxs.last() as int)
    }
}

/// The complete syndication document: fixed channel fields, then one item
/// per post in listing order.
pub open spec fn feed_spec(s: SitePages) -> Seq<char> {
    feed_head_spec() + feed_items_spec(s, s.writings_seq()) + "</channel></rss>"@
}

proof fn lemma_feed_items_cong(a: SitePages, b: SitePages, idxs: Seq<usize>)
    requires
        crate::site_pages::same_posts(a, b),
        forall|t: int| 0 <= t < idxs.len() ==> a.is_post(#[trigger] idxs[t] as int),
    ensures
        feed_items_spec(a, idxs) == feed_items_spec(b, idxs),
    decreases idxs.len(),
{
    if idxs.len() > 0 {
        let head = idxs.drop_last();
        assert(forall|t: int| 0 <= t < head.len() ==> a.is_post(#[trigger] head[t] as int))
            by {
            assert(forall|t: int| 0 <= t < head.len() ==> head[t] == idxs[t]);
        }
        lemma_feed_items_cong(a, b, head);
        let i = idxs.last() as int;
        assert(a.is_post(i));
        assert(feed_item_spec(a, i) == feed_item_spec(b, i));
    }
}

/// Running the build again over the same sources yields byte-identical
/// index and feed documents: both depend only on the posts' names and
/// metadata, never on the staleness recomputed each run.
pub proof fn lemma_rebuild_outputs_identical(a: SitePages, b: SitePages, analytics: Seq<char>)
    requires
        crate::site_pages::same_posts(a, b),
    ensures
        crate::site_pages::index_page_spec(a, analytics) == crate::site_pages::index_page_spec(
            b,
            analytics,
        ),
        feed_spec(a) == feed_spec(b),
{
    crate::site_pages::lemma_index_page_cong(a, b, analytics);
    crate::site_pages::lemma_writings_cong(a, b);
    a.lemma_writings_members();
    let w = a.writings_seq();
    assert forall|t: int| 0 <= t < w.len() implies a.is_post(#[trigger] w[t] as int) by {
        assert(w.contains(w[t]));
    }
    lemma_feed_items_cong(a, b, w);
}

/// Whether every post's date can carry a feed timestamp: RFC 2822 defines
/// years 0 through 9999 only, and the timestamp renderer rejects the rest.
pub open spec fn feed_dates_in_range(s: SitePages) -> bool {
    forall|i: int|
        #[trigger] s.is_post(i) ==> (valid_date(s.post_meta(i).date) ==> 0 <= s.post_meta(
            i,
        ).date.year <= 9999)
}

/// Renders the syndication feed of all posts. Every post date must fit the
/// feed format's year range: the timestamp renderer has no text for the
/// rest, so callers test `feed_dates_in_range` first.
#[verifier::rlimit(100)]
pub fn rss_feed(pages: &SitePages) -> (r: String)
    requires
        feed_dates_in_range(*pages),
    ensures
        r@ == feed_spec(*pages),
{
    let mut out = String::from_str(
        "<?xml version=\"1.0\" encoding=\"UTF-8\" ?><rss version=\"2.0\" xmlns:atom=\"http://www.w3.org/2005/Atom\"><channel><title>Analog Hors - Writing</title><description>Analog&apos;s Blog</description><link>https://analog-hors.github.io/site/</link><language>en</language><atom:link href=\"https://analog-hors.github.io/writing/feed.rss\" rel=\"self\" type=\"application/rss+xml\"></atom:link>",
    );
    let w = pages.writings();
    proof {
        pages.lemma_writings_members();
    }
    let mut k: usize = 0;
    proof {
        assert(w@.take(0) =~= Seq::<usize>::empty());
    }
    while k < w.len()
        invariant
            k <= w@.len(),
            w@ == pages.writings_seq(),
            feed_dates_in_range(*pages),
            forall|t: int| 0 <= t < w@.len() ==> pages.is_post(w@[t] as int),
            out@ == feed_head_spec() + feed_items_spec(*pages, w@.take(k as int)),
        decreases w@.len() - k,
    {
        let i = w[k];
        proof {
            assert(pages.is_post(i as int));
        }
        let entry = &pages.entries[i];
        let p = match &entry.page {
            Some(p) => p,
            None => unreached(),
        };
        let m = match &p.meta {
            PageMeta::Post(m) => m,
            PageMeta::Basic(_) => unreached(),
        };
        proof {
            assert(*m == pages.post_meta(i as int));
        }
        out.append("<item><title>");
        let e = xml_escape(m.title.as_str());
        out.append(e.as_str());
        out.append("</title><description>");
        let e = xml_escape(m.desc.as_str());
        out.append(e.as_str());
        out.append("</description><link>https://analog-hors.github.io/site/");
        let ename = xml_escape(entry.name.as_str());
        out.append(ename.as_str());
        out.append("/</link><pubDate>");
        let ts = rfc2822_midnight(m.date);
        let e = xml_escape(ts.as_str());
        out.append(e.as_str());
        out.append("</pubDate><guid>https://analog-hors.github.io/site/");
        out.append(ename.as_str());
        out.append("/</guid></item>");
        proof {
            assert(w@.take(k as int + 1).drop_last() =~= w@.take(k as int));
            assert(w@.take(k as int + 1).last() == w@[k as int]);
            assert(out@ =~= feed_head_spec() + feed_items_spec(*pages, w@.take(k as int + 1)));
        }
        k = k + 1;
    }
    out.append("</channel></rss>");
    proof {
        assert(w@.take(w@.len() as int) =~= w@);
        assert(out@ =~= feed_spec(*pages));
    }
    out
}

} // verus!
