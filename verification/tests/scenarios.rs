use anablog::date::Date;
use anablog::page::{split_front_matter, BasicMeta, Page, PageMeta, PostMeta};
use anablog::page_entry::{collect_page_entries, DirScan, FoundFile};
use anablog::rss::rss_feed;
use anablog::site_pages::{update_site_pages, Outcome, SitePages};

fn post_page(title: &str, date: Date) -> Page {
    Page {
        meta: PageMeta::Post(PostMeta {
            title: title.to_string(),
            author: "someone".to_string(),
            date,
            desc: format!("{} described", title),
        }),
        content: "<p>body</p>".to_string(),
    }
}

fn scan(name: &str, page: Option<Page>, source_mtime: u64, output_mtime: Option<u64>) -> DirScan {
    DirScan {
        name: name.to_string(),
        found: Some(FoundFile { page, source_mtime, output_mtime }),
    }
}

#[test]
fn directories_without_content_file_are_excluded() {
    let dirs = vec![
        DirScan { name: "assets".to_string(), found: None },
        scan("a", Some(post_page("A", Date { year: 2023, month: 1, day: 1 })), 1, None),
        DirScan { name: "fonts".to_string(), found: None },
    ];
    let entries = collect_page_entries(dirs);
    assert_eq!(entries.len(), 1);
    assert_eq!(entries[0].name, "a");
}

#[test]
fn collection_preserves_scan_order() {
    let dirs = vec![
        scan("one", None, 1, None),
        scan("two", None, 1, None),
        scan("three", None, 1, None),
    ];
    let entries = collect_page_entries(dirs);
    let names: Vec<&str> = entries.iter().map(|e| e.name.as_str()).collect();
    assert_eq!(names, vec!["one", "two", "three"]);
}

#[test]
fn descending_date_orders_listing() {
    let pages = SitePages {
        entries: collect_page_entries(vec![
            scan("a", Some(post_page("Zeta", Date { year: 2023, month: 1, day: 1 })), 1, None),
            scan("b", Some(post_page("Alpha", Date { year: 2023, month: 6, day: 1 })), 1, None),
        ]),
    };
    assert_eq!(pages.writings(), vec![1, 0]);
    let feed = rss_feed(&pages);
    let b_pos = feed.find("<title>Alpha</title>").expect("b listed");
    let a_pos = feed.find("<title>Zeta</title>").expect("a listed");
    assert!(b_pos < a_pos);
    let index = pages.writing_index_page("");
    let b_pos = index.find(">Alpha<").expect("b listed");
    let a_pos = index.find(">Zeta<").expect("a listed");
    assert!(b_pos < a_pos);
}

#[test]
fn ascending_title_breaks_date_ties() {
    let pages = SitePages {
        entries: collect_page_entries(vec![
            scan("beta", Some(post_page("Beta", Date { year: 2023, month: 1, day: 1 })), 1, None),
            scan("alpha", Some(post_page("Alpha", Date { year: 2023, month: 1, day: 1 })), 1, None),
        ]),
    };
    assert_eq!(pages.writings(), vec![1, 0]);
}

#[test]
fn index_and_feed_use_identical_order() {
    let pages = SitePages {
        entries: collect_page_entries(vec![
            scan("x", Some(post_page("Carol", Date { year: 2021, month: 3, day: 9 })), 1, None),
            scan("y", Some(post_page("Alice", Date { year: 2022, month: 7, day: 1 })), 1, None),
            scan("z", Some(post_page("Bob", Date { year: 2022, month: 7, day: 1 })), 1, None),
        ]),
    };
    let w1 = pages.writings();
    let w2 = pages.writings();
    assert_eq!(w1, w2);
    assert_eq!(w1, vec![1, 2, 0]);
    let feed = rss_feed(&pages);
    let index = pages.writing_index_page("");
    for pair in [("Alice", "Bob"), ("Bob", "Carol")] {
        assert!(feed.find(pair.0).unwrap() < feed.find(pair.1).unwrap());
        assert!(index.find(pair.0).unwrap() < index.find(pair.1).unwrap());
    }
}

#[test]
fn malformed_file_yields_errored_entry_and_no_output() {
    let raw = "no front matter here";
    assert!(split_front_matter(raw).is_none());
    let pages = SitePages {
        entries: collect_page_entries(vec![scan("broken", None, 1, None)]),
    };
    assert_eq!(pages.entries.len(), 1);
    assert!(pages.entries[0].page.is_none());
    let acts = update_site_pages(&pages, "");
    assert_eq!(acts.len(), 1);
    assert_eq!(acts[0].outcome, Outcome::Errored);
    assert!(acts[0].html.is_none());
}

#[test]
fn errored_even_when_output_is_fresh() {
    let pages = SitePages {
        entries: collect_page_entries(vec![scan("broken", None, 1, Some(5))]),
    };
    let acts = update_site_pages(&pages, "");
    assert_eq!(acts[0].outcome, Outcome::Errored);
    assert!(acts[0].html.is_none());
}

#[test]
fn stale_entry_with_record_is_updated() {
    let pages = SitePages {
        entries: collect_page_entries(vec![
            scan("p", Some(post_page("P", Date { year: 2023, month: 1, day: 1 })), 9, Some(5)),
        ]),
    };
    let acts = update_site_pages(&pages, "");
    assert_eq!(acts[0].outcome, Outcome::Updated);
    let html = acts[0].html.as_ref().expect("document rendered");
    assert!(html.contains("<title>Analog Hors - P</title>"));
    assert!(html.contains("<p>body</p>"));
}

#[test]
fn fresh_entry_with_record_is_skipped() {
    let pages = SitePages {
        entries: collect_page_entries(vec![
            scan("p", Some(post_page("P", Date { year: 2023, month: 1, day: 1 })), 5, Some(9)),
        ]),
    };
    let acts = update_site_pages(&pages, "");
    assert_eq!(acts[0].outcome, Outcome::Skipped);
    assert!(acts[0].html.is_none());
}

#[test]
fn second_run_skips_everything_and_reproduces_outputs() {
    let make = |source: u64, output: Option<u64>| SitePages {
        entries: collect_page_entries(vec![
            scan("a", Some(post_page("Zeta", Date { year: 2023, month: 1, day: 1 })), source, output),
            scan("b", Some(post_page("Alpha", Date { year: 2023, month: 6, day: 1 })), source, output),
        ]),
    };
    let first = make(10, None);
    let second = make(10, Some(20));
    assert!(first.entries.iter().all(|e| e.needs_update));
    assert!(second.entries.iter().all(|e| !e.needs_update));
    let acts = update_site_pages(&second, "");
    assert!(acts.iter().all(|a| a.outcome == Outcome::Skipped));
    assert_eq!(rss_feed(&first), rss_feed(&second));
    assert_eq!(first.writing_index_page("x"), second.writing_index_page("x"));
}

#[test]
fn feed_has_channel_fields_and_rfc2822_dates() {
    let pages = SitePages {
        entries: collect_page_entries(vec![
            scan("a", Some(post_page("Zeta", Date { year: 2023, month: 1, day: 1 })), 1, None),
        ]),
    };
    let feed = rss_feed(&pages);
    assert!(feed.starts_with("<?xml version=\"1.0\" encoding=\"UTF-8\" ?><rss version=\"2.0\""));
    assert!(feed.contains("<description>Analog&apos;s Blog</description>"));
    assert!(feed.contains("<pubDate>Sun, 1 Jan 2023 00:00:00 +0000</pubDate>"));
    assert!(feed.contains("<link>https://analog-hors.github.io/site/a/</link>"));
    assert!(feed.contains("<guid>https://analog-hors.github.io/site/a/</guid>"));
    assert!(feed.ends_with("</channel></rss>"));
}

#[test]
fn feed_escapes_post_text() {
    let pages = SitePages {
        entries: collect_page_entries(vec![
            scan(
                "a",
                Some(post_page("Tom & Jerry's <Show>", Date { year: 2022, month: 12, day: 25 })),
                1,
                None,
            ),
        ]),
    };
    let feed = rss_feed(&pages);
    assert!(feed.contains("<title>Tom &amp; Jerry&apos;s &lt;Show&gt;</title>"));
    assert!(!feed.contains("<Show>"));
    assert!(feed.contains("<pubDate>Sun, 25 Dec 2022 00:00:00 +0000</pubDate>"));
}

#[test]
fn feed_covers_the_whole_rfc2822_year_range() {
    let pages = SitePages {
        entries: collect_page_entries(vec![
            scan("old", Some(post_page("Old", Date { year: 0, month: 1, day: 1 })), 1, None),
            scan("far", Some(post_page("Far", Date { year: 9999, month: 12, day: 31 })), 1, None),
        ]),
    };
    let feed = rss_feed(&pages);
    assert!(feed.contains("Dec 9999 00:00:00 +0000"));
    assert!(feed.contains("Jan 0000 00:00:00 +0000"));
}

#[test]
fn index_page_lists_posts_with_bylines() {
    let pages = SitePages {
        entries: collect_page_entries(vec![
            scan("a", Some(post_page("Zeta", Date { year: 2023, month: 1, day: 1 })), 1, None),
        ]),
    };
    let index = pages.writing_index_page("");
    assert!(index.contains("<title>Analog Hors - Stuff I&#39;ve written</title>")
        || index.contains("<title>Analog Hors - Stuff I've written</title>"));
    assert!(index.contains("Also check out my <a href=\"./feed.xml\">RSS feed</a>"));
    assert!(index.contains("<h2><a href=\"../a/\">Zeta</a></h2>"));
    assert!(index.contains("fa-clock\"></i> 2023-01-01"));
    assert!(index.contains("Zeta described"));
}

#[test]
fn basic_records_are_not_listed() {
    let basic = Page {
        meta: PageMeta::Basic(BasicMeta {
            title: "Home".to_string(),
            is_home: true,
            desc: "home".to_string(),
        }),
        content: "<p>home</p>".to_string(),
    };
    let pages = SitePages {
        entries: collect_page_entries(vec![
            scan("home", Some(basic), 1, None),
            scan("a", Some(post_page("A", Date { year: 2023, month: 1, day: 1 })), 1, None),
        ]),
    };
    assert_eq!(pages.writings(), vec![1]);
    let feed = rss_feed(&pages);
    assert!(!feed.contains("<title>Home</title>"));
}
