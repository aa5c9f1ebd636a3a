use vstd::prelude::*;

use crate::date::date_key;
use crate::date::date_lt;
use crate::page::PageMeta;
use crate::page::PostMeta;
use crate::page::page_html_spec;
use crate::page_entry::DirScan;
use crate::page_entry::PageEntry;
use crate::page_entry::collect_page_entries;
use crate::page_entry::collect_spec;
use crate::strutil::lemma_str_lt_asymmetric;
use crate::strutil::lemma_str_lt_connected;
use crate::strutil::lemma_str_lt_transitive;
use crate::strutil::str_compare_lt;
use crate::strutil::str_lt;
use crate::templates::byline_spec;
use crate::templates::html_escape_seq;
use vstd::pervasive::unreached;

verus! {

proof fn lemma_filter_subset(s: Seq<usize>, pred: spec_fn(usize) -> bool, y: usize)
    requires
        s.filter(pred).contains(y),
    ensures
        s.contains(y),
    decreases s.len(),
{
    reveal(Seq::filter);
    if s.len() != 0 {
        let head = s.drop_last();
        if pred(s.last()) && y == s.last() {
            assert(s[s.len() - 1] == y);
        } else {
            assert(head.filter(pred).contains(y)) by {
                let t = choose|t: int|
                    0 <= t < s.filter(pred).len() && s.filter(pred)[t] == y;
                if pred(s.last()) {
                    assert(s.filter(pred) == head.filter(pred).push(s.last()));
                    assert(t < head.filter(pred).len());
                    assert(head.filter(pred)[t] == y);
                }
            }
            lemma_filter_subset(head, pred, y);
            let u = choose|u: int| 0 <= u < head.len() && head[u] == y;
            assert(s[u] == y);
        }
    }
}

proof fn lemma_filter_keeps_no_duplicates(s: Seq<usize>, pred: spec_fn(usize) -> bool)
    requires
        s.no_duplicates(),
    ensures
        s.filter(pred).no_duplicates(),
    decreases s.len(),
{
    reveal(Seq::filter);
    if s.len() != 0 {
        let head = s.drop_last();
        assert(head.no_duplicates());
        lemma_filter_keeps_no_duplicates(head, pred);
        if pred(s.last()) {
            assert(!head.filter(pred).contains(s.last())) by {
                if head.filter(pred).contains(s.last()) {
                    lemma_filter_subset(head, pred, s.last());
                    let t = choose|t: int| 0 <= t < head.len() && head[t] == s.last();
                    assert(s[t] == s[s.len() - 1]);
                }
            }
            let f = head.filter(pred);
            let r = f.push(s.last());
            assert forall|i: int, j: int|
                0 <= i < r.len() && 0 <= j < r.len() && i != j implies r[i] != r[j] by {
                if i < f.len() && j < f.len() {
                } else if i < f.len() {
                    assert(r[j] == s.last());
                    assert(f.contains(f[i]));
                } else {
                    assert(r[i] == s.last());
                    assert(f.contains(f[j]));
                }
            }
        }
    }
}

/// The ordered set of all page entries of one run.
pub struct SitePages {
    pub entries: Vec<PageEntry>,
}

impl SitePages {
    /// Builds the collection for one run from the filesystem scan, keeping
    /// scan order.
    pub fn collect(dirs: Vec<DirScan>) -> (s: SitePages)
        ensures
            s.entries@ == collect_spec(dirs@),
    {
        SitePages { entries: collect_page_entries(dirs) }
    }

    /// Whether entry `i` carries a post record.
    pub open spec fn is_post(self, i: int) -> bool {
        &&& 0 <= i < self.entries@.len()
        &&& self.entries@[i].page is Some
        &&& self.entries@[i].page.unwrap().meta is Post
    }

    /// The post metadata of entry `i`.
    pub open spec fn post_meta(self, i: int) -> PostMeta {
        self.entries@[i].page.unwrap().meta->Post_0
    }

    /// The strict order of the post listing: later date first, then title in
    /// ascending lexicographic order, then position in the collection.
    pub open spec fn post_before(self, i: int, j: int) -> bool {
        let a = self.post_meta(i);
        let b = self.post_meta(j);
        if date_key(a.date) != date_key(b.date) {
            date_key(a.date) > date_key(b.date)
        } else if a.title@ != b.title@ {
            str_lt(a.title@, b.title@)
        } else {
            i < j
        }
    }

    /// The listing order is irreflexive.
    pub proof fn lemma_post_before_irreflexive(self, i: int)
        ensures
            !self.post_before(i, i),
    {
    }

    /// Of two distinct entries, one lies before the other.
    pub proof fn lemma_post_before_connected(self, i: int, j: int)
        requires
            i != j,
        ensures
            self.post_before(i, j) || self.post_before(j, i),
    {
        let a = self.post_meta(i);
        let b = self.post_meta(j);
        lemma_str_lt_connected(a.title@, b.title@);
    }

    /// At most one of the two directions holds.
    pub proof fn lemma_post_before_asymmetric(self, i: int, j: int)
        ensures
            !(self.post_before(i, j) && self.post_before(j, i)),
    {
        let a = self.post_meta(i);
        let b = self.post_meta(j);
        lemma_str_lt_asymmetric(a.title@, b.title@);
    }

    /// The listing order is transitive.
    pub proof fn lemma_post_before_transitive(self, i: int, j: int, k: int)
        requires
            self.post_before(i, j),
            self.post_before(j, k),
        ensures
            self.post_before(i, k),
    {
        let ta = self.post_meta(i).title@;
        let tb = self.post_meta(j).title@;
        let tc = self.post_meta(k).title@;
        if str_lt(ta, tb) && str_lt(tb, tc) {
            lemma_str_lt_transitive(ta, tb, tc);
        }
        crate::strutil::lemma_str_lt_irreflexive(ta);
        crate::strutil::lemma_str_lt_irreflexive(tb);
        lemma_str_lt_asymmetric(ta, tb);
        lemma_str_lt_asymmetric(tb, tc);
        lemma_str_lt_asymmetric(ta, tc);
    }

    /// Whether `s` lists entries in strictly ascending listing order.
    pub open spec fn posts_ordered(self, s: Seq<usize>) -> bool {
        forall|a: int, b: int|
            0 <= a < b < s.len() ==> self.post_before(s[a] as int, s[b] as int)
    }

    /// The indices of all post entries, in collection order.
    pub open spec fn post_indices(self) -> Seq<usize> {
        Seq::new(self.entries@.len(), |t: int| t as usize).filter(
            |u: usize| self.is_post(u as int),
        )
    }

    /// `x` inserted into `s` before the first element it precedes.
    pub open spec fn insert_sorted(self, s: Seq<usize>, x: usize) -> Seq<usize>
        decreases s.len(),
    {
        if s.len() == 0 {
            seq![x]
        } else if self.post_before(x as int, s[0] as int) {
            seq![x] + s
        } else {
            seq![s[0]] + self.insert_sorted(s.skip(1), x)
        }
    }

    /// `s` sorted by repeated insertion, taken in order.
    pub open spec fn sort_posts(self, s: Seq<usize>) -> Seq<usize>
        decreases s.len(),
    {
        if s.len() == 0 {
            Seq::<usize>::empty()
        } else {
            self.insert_sorted(self.sort_posts(s.drop_last()), s.last())
        }
    }

    /// The post listing both derived artifacts use: the indices of the post
    /// entries, sorted by descending date, then ascending title, then
    /// collection position.
    pub open spec fn writings_seq(self) -> Seq<usize> {
        self.sort_posts(self.post_indices())
    }

    proof fn lemma_insert_sorted_members(self, s: Seq<usize>, x: usize)
        ensures
            self.insert_sorted(s, x).len() == s.len() + 1,
            self.insert_sorted(s, x).contains(x),
            forall|y: usize|
                #[trigger] self.insert_sorted(s, x).contains(y) ==> s.contains(y) || y == x,
            forall|y: usize| #[trigger] s.contains(y) ==> self.insert_sorted(s, x).contains(y),
        decreases s.len(),
    {
        let r = self.insert_sorted(s, x);
        if s.len() == 0 {
            assert(r[0] == x);
            assert(r.contains(x));
            assert forall|y: usize| r.contains(y) implies s.contains(y) || y == x by {
                let t = choose|t: int| 0 <= t < r.len() && r[t] == y;
            }
        } else if self.post_before(x as int, s[0] as int) {
            assert(r[0] == x);
            assert(r.contains(x));
            assert forall|y: usize| r.contains(y) implies s.contains(y) || y == x by {
                let t = choose|t: int| 0 <= t < r.len() && r[t] == y;
                if t > 0 {
                    assert(s[t - 1] == y);
                    assert(s.contains(y));
                }
            }
            assert forall|y: usize| s.contains(y) implies r.contains(y) by {
                let t = choose|t: int| 0 <= t < s.len() && s[t] == y;
                assert(r[t + 1] == y);
                assert(r.contains(y));
            }
        } else {
            self.lemma_insert_sorted_members(s.skip(1), x);
            let rest = self.insert_sorted(s.skip(1), x);
            assert(rest.contains(x));
            let t0 = choose|t: int| 0 <= t < rest.len() && rest[t] == x;
            assert(r[t0 + 1] == x);
            assert(r.contains(x));
            assert forall|y: usize| r.contains(y) implies s.contains(y) || y == x by {
                let t = choose|t: int| 0 <= t < r.len() && r[t] == y;
                if t == 0 {
                    assert(s[0] == y);
                    assert(s.contains(y));
                } else {
                    assert(rest[t - 1] == y);
                    assert(rest.contains(y));
                    if s.skip(1).contains(y) {
                        let u = choose|u: int| 0 <= u < s.skip(1).len() && s.skip(1)[u] == y;
                        assert(s[u + 1] == y);
                        assert(s.contains(y));
                    }
                }
            }
            assert forall|y: usize| s.contains(y) implies r.contains(y) by {
                let t = choose|t: int| 0 <= t < s.len() && s[t] == y;
                if t == 0 {
                    assert(r[0] == y);
                } else {
                    assert(s.skip(1)[t - 1] == y);
                    assert(s.skip(1).contains(y));
                    assert(rest.contains(y));
                    let u = choose|u: int| 0 <= u < rest.len() && rest[u] == y;
                    assert(r[u + 1] == y);
                }
                assert(r.contains(y));
            }
        }
    }

    proof fn lemma_insert_sorted_ordered(self, s: Seq<usize>, x: usize)
        requires
            self.posts_ordered(s),
            !s.contains(x),
        ensures
            self.posts_ordered(self.insert_sorted(s, x)),
        decreases s.len(),
    {
        let r = self.insert_sorted(s, x);
        if s.len() == 0 {
        } else if self.post_before(x as int, s[0] as int) {
            assert forall|a: int, b: int|
                0 <= a < b < r.len() implies self.post_before(r[a] as int, r[b] as int) by {
                if a == 0 {
                    assert(r[b] == s[b - 1]);
                    if b > 1 {
                        self.lemma_post_before_transitive(
                            x as int,
                            s[0] as int,
                            s[b - 1] as int,
                        );
                    }
                } else {
                    assert(r[a] == s[a - 1] && r[b] == s[b - 1]);
                }
            }
        } else {
            assert(s[0] != x);
            self.lemma_post_before_connected(x as int, s[0] as int);
            assert(self.post_before(s[0] as int, x as int));
            assert(forall|t: int|
                0 <= t < s.skip(1).len() ==> s.skip(1)[t] == s[t + 1]);
            assert(self.posts_ordered(s.skip(1)));
            assert(!s.skip(1).contains(x)) by {
                if s.skip(1).contains(x) {
                    let t = choose|t: int| 0 <= t < s.skip(1).len() && s.skip(1)[t] == x;
                    assert(s[t + 1] == x);
                }
            }
            self.lemma_insert_sorted_ordered(s.skip(1), x);
            self.lemma_insert_sorted_members(s.skip(1), x);
            let rest = self.insert_sorted(s.skip(1), x);
            assert forall|a: int, b: int|
                0 <= a < b < r.len() implies self.post_before(r[a] as int, r[b] as int) by {
                if a == 0 {
                    assert(r[b] == rest[b - 1]);
                    assert(rest.contains(rest[b - 1]));
                    let y = rest[b - 1];
                    if y == x {
                        assert(self.post_before(s[0] as int, x as int));
                    } else {
                        assert(s.skip(1).contains(y));
                        let t = choose|t: int| 0 <= t < s.skip(1).len() && s.skip(1)[t] == y;
                        assert(s[t + 1] == y);
                        assert(self.post_before(s[0] as int, y as int));
                    }
                } else {
                    assert(r[a] == rest[a - 1] && r[b] == rest[b - 1]);
                }
            }
        }
    }

    proof fn lemma_sort_posts_props(self, s: Seq<usize>)
        requires
            s.no_duplicates(),
        ensures
            self.sort_posts(s).len() == s.len(),
            forall|y: usize| #[trigger] self.sort_posts(s).contains(y) ==> s.contains(y),
            forall|y: usize| #[trigger] s.contains(y) ==> self.sort_posts(s).contains(y),
            self.posts_ordered(self.sort_posts(s)),
        decreases s.len(),
    {
        let r = self.sort_posts(s);
        if s.len() == 0 {
            assert forall|y: usize| r.contains(y) implies s.contains(y) by {
                let t = choose|t: int| 0 <= t < r.len() && r[t] == y;
            }
            assert forall|y: usize| s.contains(y) implies r.contains(y) by {
                let t = choose|t: int| 0 <= t < s.len() && s[t] == y;
            }
        } else {
            let head = s.drop_last();
            assert(head.no_duplicates());
            self.lemma_sort_posts_props(head);
            let sorted_head = self.sort_posts(head);
            assert(!head.contains(s.last())) by {
                if head.contains(s.last()) {
                    let t = choose|t: int| 0 <= t < head.len() && head[t] == s.last();
                    assert(s[t] == s[s.len() - 1]);
                }
            }
            assert(!sorted_head.contains(s.last()));
            self.lemma_insert_sorted_members(sorted_head, s.last());
            self.lemma_insert_sorted_ordered(sorted_head, s.last());
            assert(r == self.insert_sorted(sorted_head, s.last()));
            assert forall|y: usize| r.contains(y) implies s.contains(y) by {
                assert(self.insert_sorted(sorted_head, s.last()).contains(y));
                if sorted_head.contains(y) {
                    assert(head.contains(y));
                    let u = choose|u: int| 0 <= u < head.len() && head[u] == y;
                    assert(s[u] == y);
                } else {
                    assert(y == s.last());
                    assert(s[s.len() - 1] == y);
                }
                assert(s.contains(y));
            }
            assert forall|y: usize| s.contains(y) implies r.contains(y) by {
                let t = choose|t: int| 0 <= t < s.len() && s[t] == y;
                if t < s.len() - 1 {
                    assert(head[t] == y);
                    assert(head.contains(y));
                    assert(sorted_head.contains(y));
                } else {
                    assert(y == s.last());
                }
                assert(r.contains(y));
            }
        }
    }

    /// The post listing is strictly ordered: descending date, then ascending
    /// title, then collection position.
    pub proof fn lemma_writings_ordered(self)
        ensures
            self.posts_ordered(self.writings_seq()),
    {
        self.lemma_post_indices_no_duplicates();
        self.lemma_sort_posts_props(self.post_indices());
    }

    /// The post listing holds exactly the indices of the post entries.
    pub proof fn lemma_writings_members(self)
        ensures
            forall|y: usize| self.writings_seq().contains(y) <==> self.is_post(y as int),
            self.writings_seq().len() == self.post_indices().len(),
    {
        self.lemma_post_indices_no_duplicates();
        self.lemma_sort_posts_props(self.post_indices());
        assert forall|y: usize|
            self.writings_seq().contains(y) <==> self.is_post(y as int) by {
            self.lemma_post_indices_members(y);
            if self.is_post(y as int) {
                assert(self.post_indices().contains(y));
                assert(self.writings_seq().contains(y));
            }
            if self.writings_seq().contains(y) {
                assert(self.post_indices().contains(y));
            }
        }
    }

    proof fn lemma_post_indices_no_duplicates(self)
        ensures
            self.post_indices().no_duplicates(),
    {
        let base = Seq::new(self.entries@.len(), |t: int| t as usize);
        let pred = |u: usize| self.is_post(u as int);
        assert(vstd::std_specs::vec::spec_vec_len(&self.entries) == self.entries@.len());
        assert forall|i: int, j: int|
            0 <= i < base.len() && 0 <= j < base.len() && i != j implies base[i] != base[j] by {
            assert(base[i] == i as usize && base[j] == j as usize);
        }
        lemma_filter_keeps_no_duplicates(base, pred);
    }

    proof fn lemma_post_indices_members(self, y: usize)
        ensures
            self.post_indices().contains(y) <==> self.is_post(y as int),
    {
        let base = Seq::new(self.entries@.len(), |t: int| t as usize);
        let pred = |u: usize| self.is_post(u as int);
        if self.is_post(y as int) {
            assert(base[y as int] == y);
            assert(base.contains(y));
            base.lemma_filter_contains(pred, y as int);
        }
        if self.post_indices().contains(y) {
            let t = choose|t: int|
                0 <= t < self.post_indices().len() && self.post_indices()[t] == y;
            base.lemma_filter_pred(pred, t);
            assert(pred(y));
        }
    }

    fn post_before_exec(&self, a: usize, b: usize) -> (r: bool)
        requires
            self.is_post(a as int),
            self.is_post(b as int),
        ensures
            r == self.post_before(a as int, b as int),
    {
        let pa = match &self.entries[a].page {
            Some(p) => p,
            None => unreached(),
        };
        let ma = match &pa.meta {
            PageMeta::Post(m) => m,
            PageMeta::Basic(_) => unreached(),
        };
        let pb = match &self.entries[b].page {
            Some(p) => p,
            None => unreached(),
        };
        let mb = match &pb.meta {
            PageMeta::Post(m) => m,
            PageMeta::Basic(_) => unreached(),
        };
        proof {
            assert(*ma == self.post_meta(a as int));
            assert(*mb == self.post_meta(b as int));
        }
        if date_lt(mb.date, ma.date) {
            true
        } else if date_lt(ma.date, mb.date) {
            false
        } else {
            proof {
                crate::date::lemma_date_key_injective(ma.date, mb.date);
                crate::strutil::lemma_str_lt_irreflexive(ma.title@);
                crate::strutil::lemma_str_lt_irreflexive(mb.title@);
                lemma_str_lt_asymmetric(ma.title@, mb.title@);
                lemma_str_lt_connected(ma.title@, mb.title@);
            }
            if str_compare_lt(ma.title.as_str(), mb.title.as_str()) {
                true
            } else if str_compare_lt(mb.title.as_str(), ma.title.as_str()) {
                false
            } else {
                a < b
            }
        }
    }

    proof fn lemma_insert_sorted_at(self, s: Seq<usize>, x: usize, p: int)
        requires
            0 <= p <= s.len(),
            forall|t: int| 0 <= t < p ==> !self.post_before(x as int, s[t] as int),
            p < s.len() ==> self.post_before(x as int, s[p] as int),
        ensures
            self.insert_sorted(s, x) == s.insert(p, x),
        decreases s.len(),
    {
        if s.len() == 0 {
            assert(self.insert_sorted(s, x) =~= s.insert(0, x));
        } else if self.post_before(x as int, s[0] as int) {
            assert(p == 0);
            assert(seq![x] + s =~= s.insert(0, x));
        } else {
            assert(p > 0);
            assert(forall|t: int|
                0 <= t < p - 1 ==> s.skip(1)[t] == s[t + 1]);
            assert(p - 1 < s.skip(1).len() ==> self.post_before(
                x as int,
                s.skip(1)[p - 1] as int,
            ));
            self.lemma_insert_sorted_at(s.skip(1), x, p - 1);
            assert(seq![s[0]] + s.skip(1).insert(p - 1, x) =~= s.insert(p, x));
        }
    }

    /// The filtered and sorted post listing, recomputed on demand: the
    /// indices into `entries` of every post record, ordered by descending
    /// date, then ascending title, then collection position.
    pub fn writings(&self) -> (w: Vec<usize>)
        ensures
            w@ == self.writings_seq(),
    {
        let n = self.entries.len();
        let ghost pred = |u: usize| self.is_post(u as int);
        let mut unsorted: Vec<usize> = Vec::new();
        let mut k: usize = 0;
        proof {
            assert(Seq::new(0, |t: int| t as usize).filter(pred) =~= Seq::<usize>::empty()) by {
                reveal(Seq::filter);
            }
        }
        while k < n
            invariant
                k <= n,
                n == self.entries@.len(),
                unsorted@ == Seq::new(k as nat, |t: int| t as usize).filter(pred),
                pred == (|u: usize| self.is_post(u as int)),
                forall|t: int| 0 <= t < unsorted@.len() ==> self.is_post(unsorted@[t] as int),
            decreases n - k,
        {
            let found: bool = match &self.entries[k].page {
                Some(p) => match &p.meta {
                    PageMeta::Post(_) => true,
                    PageMeta::Basic(_) => false,
                },
                None => false,
            };
            if found {
                unsorted.push(k);
            }
            proof {
                let prev = Seq::new(k as nat, |t: int| t as usize);
                let cur = Seq::new((k + 1) as nat, |t: int| t as usize);
                assert(cur.drop_last() =~= prev);
                assert(cur.last() == k as usize);
                reveal(Seq::filter);
                assert(unsorted@ =~= cur.filter(pred));
            }
            k = k + 1;
        }
        proof {
            assert(Seq::new(n as nat, |t: int| t as usize) =~= Seq::new(
                self.entries@.len(),
                |t: int| t as usize,
            ));
            assert(unsorted@ == self.post_indices());
        }
        let mut w: Vec<usize> = Vec::new();
        let mut k: usize = 0;
        while k < unsorted.len()
            invariant
                k <= unsorted@.len(),
                unsorted@ == self.post_indices(),
                forall|t: int| 0 <= t < unsorted@.len() ==> self.is_post(unsorted@[t] as int),
                w@ == self.sort_posts(unsorted@.take(k as int)),
                forall|t: int| 0 <= t < w@.len() ==> self.is_post(w@[t] as int),
            decreases unsorted@.len() - k,
        {
            let x = unsorted[k];
            let mut p: usize = 0;
            while p < w.len() && !self.post_before_exec(x, w[p])
                invariant
                    p <= w@.len(),
                    self.is_post(x as int),
                    forall|t: int| 0 <= t < w@.len() ==> self.is_post(w@[t] as int),
                    forall|t: int| 0 <= t < p ==> !self.post_before(x as int, w@[t] as int),
                decreases w@.len() - p,
            {
                p = p + 1;
            }
            proof {
                self.lemma_insert_sorted_at(w@, x, p as int);
                assert(unsorted@.take(k as int + 1).drop_last() =~= unsorted@.take(k as int));
                assert(unsorted@.take(k as int + 1).last() == x);
            }
            w.insert(p, x);
            k = k + 1;
        }
        proof {
            assert(unsorted@.take(unsorted@.len() as int) =~= unsorted@);
        }
        w
    }

    /// Renders the aggregate listing page of all posts.
    #[verifier::rlimit(100)]
    pub fn writing_index_page(&self, analytics: &str) -> (r: String)
        ensures
            r@ == index_page_spec(*self, analytics@),
    {
        let mut content = String::from_str(
            "<p>Also check out my <a href=\"./feed.xml\">RSS feed</a> if you use that.</p>",
        );
        let w = self.writings();
        proof {
            self.lemma_writings_members();
            assert(w@.take(0) =~= Seq::<usize>::empty());
        }
        let mut k: usize = 0;
        while k < w.len()
            invariant
                k <= w@.len(),
                w@ == self.writings_seq(),
                forall|t: int| 0 <= t < w@.len() ==> self.is_post(w@[t] as int),
                content@ == "<p>Also check out my <a href=\"./feed.xml\">RSS feed</a> if you use that.</p>"@
                    + listing_items_spec(*self, w@.take(k as int)),
            decreases w@.len() - k,
        {
            let i = w[k];
            proof {
                assert(self.is_post(i as int));
            }
            let entry = &self.entries[i];
            let p = match &entry.page {
                Some(p) => p,
                None => unreached(),
            };
            let m = match &p.meta {
                PageMeta::Post(m) => m,
                PageMeta::Basic(_) => unreached(),
            };
            content.append("<h2><a href=\"../");
            let e = crate::templates::html_escape(entry.name.as_str());
            content.append(e.as_str());
            content.append("/\">");
            let e = crate::templates::html_escape(m.title.as_str());
            content.append(e.as_str());
            content.append("</a></h2>");
            let b = crate::templates::byline(m.author.as_str(), m.date);
            content.append(b.as_str());
            content.append("<p>");
            let e = crate::templates::html_escape(m.desc.as_str());
            content.append(e.as_str());
            content.append("</p>");
            proof {
                assert(w@.take(k as int + 1).drop_last() =~= w@.take(k as int));
                assert(w@.take(k as int + 1).last() == w@[k as int]);
                assert(content@ =~= "<p>Also check out my <a href=\"./feed.xml\">RSS feed</a> if you use that.</p>"@
                    + listing_items_spec(*self, w@.take(k as int + 1)));
            }
            k = k + 1;
        }
        proof {
            assert(w@.take(w@.len() as int) =~= w@);
        }
        let meta = crate::page::BasicMeta {
            title: String::from_str("Stuff I've written"),
            is_home: false,
            desc: String::from_str("Stuff I've written."),
        };
        let r = crate::templates::basic(&meta, "writings", content.as_str(), analytics);
        r
    }
}

/// One listing item of the index page: linked title, byline, description.
pub open spec fn listing_item_spec(s: SitePages, i: int) -> Seq<char> {
    let name = s.entries@[i].name@;
    let m = s.post_meta(i);
    "<h2><a href=\"../"@ + html_escape_seq(name) + "/\">"@ + html_escape_seq(m.title@)
        + "</a></h2>"@ + byline_spec(m.author@, m.date) + "<p>"@ + html_escape_seq(m.desc@)
        + "</p>"@
}

/// The listing items for the listed entries, in order.
pub open spec fn listing_items_spec(s: SitePages, idxs: Seq<usize>) -> Seq<char>
    decreases idxs.len(),
{
    if idxs.len() == 0 {
        Seq::<char>::empty()
    } else {
        listing_items_spec(s, idxs.drop_last()) + listing_item_spec(s, idxs.last() as int)
    }
}

/// The content of the index page: the feed pointer, then the post listing.
pub open spec fn index_content_spec(s: SitePages) -> Seq<char> {
    "<p>Also check out my <a href=\"./feed.xml\">RSS feed</a> if you use that.</p>"@
        + listing_items_spec(s, s.writings_seq())
}

/// The complete index page document.
pub open spec fn index_page_spec(s: SitePages, analytics: Seq<char>) -> Seq<char> {
    crate::templates::basic_spec(
        "Stuff I've written"@,
        false,
        "Stuff I've written."@,
        "writings"@,
        index_content_spec(s),
        analytics,
    )
}

/// Whether two collections describe the same posts in the same places:
/// equal length, equal names, the same entries carrying post records, and
/// those records equal in every field a derived artifact reads. Staleness
/// flags and rendered bodies may differ.
pub open spec fn same_posts(a: SitePages, b: SitePages) -> bool {
    &&& a.entries@.len() == b.entries@.len()
    &&& forall|i: int|
        0 <= i < a.entries@.len() ==> #[trigger] a.entries@[i].name@ == b.entries@[i].name@
    &&& forall|i: int| 0 <= i < a.entries@.len() ==> (#[trigger] a.is_post(i) <==> b.is_post(i))
    &&& forall|i: int|
        0 <= i < a.entries@.len() && #[trigger] a.is_post(i) ==> {
            let ma = a.post_meta(i);
            let mb = b.post_meta(i);
            &&& ma.title@ == mb.title@
            &&& ma.author@ == mb.author@
            &&& ma.desc@ == mb.desc@
            &&& ma.date == mb.date
        }
}

proof fn lemma_same_posts_is_post(a: SitePages, b: SitePages, i: int)
    requires
        same_posts(a, b),
    ensures
        a.is_post(i) <==> b.is_post(i),
{
    if 0 <= i < a.entries@.len() {
        assert(a.is_post(i) <==> b.is_post(i));
    }
}

proof fn lemma_same_posts_before(a: SitePages, b: SitePages, i: int, j: int)
    requires
        same_posts(a, b),
        a.is_post(i),
        a.is_post(j),
    ensures
        a.post_before(i, j) == b.post_before(i, j),
{
}

proof fn lemma_insert_sorted_cong(a: SitePages, b: SitePages, s: Seq<usize>, x: usize)
    requires
        same_posts(a, b),
        a.is_post(x as int),
        forall|t: int| 0 <= t < s.len() ==> a.is_post(#[trigger] s[t] as int),
    ensures
        a.insert_sorted(s, x) == b.insert_sorted(s, x),
    decreases s.len(),
{
    if s.len() > 0 {
        lemma_same_posts_before(a, b, x as int, s[0] as int);
        if !a.post_before(x as int, s[0] as int) {
            assert(forall|t: int|
                0 <= t < s.skip(1).len() ==> a.is_post(#[trigger] s.skip(1)[t] as int)) by {
                assert(forall|t: int| 0 <= t < s.skip(1).len() ==> s.skip(1)[t] == s[t + 1]);
            }
            lemma_insert_sorted_cong(a, b, s.skip(1), x);
        }
    }
}

proof fn lemma_sort_posts_cong(a: SitePages, b: SitePages, s: Seq<usize>)
    requires
        same_posts(a, b),
        s.no_duplicates(),
        forall|t: int| 0 <= t < s.len() ==> a.is_post(#[trigger] s[t] as int),
    ensures
        a.sort_posts(s) == b.sort_posts(s),
    decreases s.len(),
{
    if s.len() > 0 {
        let head = s.drop_last();
        assert(head.no_duplicates());
        assert(forall|t: int| 0 <= t < head.len() ==> a.is_post(#[trigger] head[t] as int))
            by {
            assert(forall|t: int| 0 <= t < head.len() ==> head[t] == s[t]);
        }
        lemma_sort_posts_cong(a, b, head);
        a.lemma_sort_posts_props(head);
        let sh = a.sort_posts(head);
        assert forall|t: int| 0 <= t < sh.len() implies a.is_post(#[trigger] sh[t] as int) by {
            assert(sh.contains(sh[t]));
            assert(head.contains(sh[t]));
            let u = choose|u: int| 0 <= u < head.len() && head[u] == sh[t];
        }
        lemma_insert_sorted_cong(a, b, sh, s.last());
    }
}

proof fn lemma_filter_cong(s: Seq<usize>, p1: spec_fn(usize) -> bool, p2: spec_fn(usize) -> bool)
    requires
        forall|y: usize| #[trigger] p1(y) == p2(y),
    ensures
        s.filter(p1) == s.filter(p2),
    decreases s.len(),
{
    reveal(Seq::filter);
    if s.len() == 0 {
        assert(s.filter(p1) =~= s.filter(p2));
    } else {
        lemma_filter_cong(s.drop_last(), p1, p2);
        assert(p1(s.last()) == p2(s.last()));
        assert(s.filter(p1) =~= s.filter(p2));
    }
}

/// Two collections with the same posts list them identically.
pub proof fn lemma_writings_cong(a: SitePages, b: SitePages)
    requires
        same_posts(a, b),
    ensures
        a.writings_seq() == b.writings_seq(),
{
    let base_a = Seq::new(a.entries@.len(), |t: int| t as usize);
    let base_b = Seq::new(b.entries@.len(), |t: int| t as usize);
    assert(base_a =~= base_b);
    let pa = |u: usize| a.is_post(u as int);
    let pb = |u: usize| b.is_post(u as int);
    assert forall|y: usize| #[trigger] pa(y) == pb(y) by {
        lemma_same_posts_is_post(a, b, y as int);
    }
    lemma_filter_cong(base_a, pa, pb);
    assert(a.post_indices() == b.post_indices());
    a.lemma_post_indices_no_duplicates();
    assert forall|t: int|
        0 <= t < a.post_indices().len() implies a.is_post(
        #[trigger] a.post_indices()[t] as int,
    ) by {
        base_a.lemma_filter_pred(pa, t);
    }
    lemma_sort_posts_cong(a, b, a.post_indices());
}

proof fn lemma_listing_items_cong(a: SitePages, b: SitePages, idxs: Seq<usize>)
    requires
        same_posts(a, b),
        forall|t: int| 0 <= t < idxs.len() ==> a.is_post(#[trigger] idxs[t] as int),
    ensures
        listing_items_spec(a, idxs) == listing_items_spec(b, idxs),
    decreases idxs.len(),
{
    if idxs.len() > 0 {
        let head = idxs.drop_last();
        assert(forall|t: int| 0 <= t < head.len() ==> a.is_post(#[trigger] head[t] as int))
            by {
            assert(forall|t: int| 0 <= t < head.len() ==> head[t] == idxs[t]);
        }
        lemma_listing_items_cong(a, b, head);
        let i = idxs.last() as int;
        assert(a.is_post(i));
        assert(listing_item_spec(a, i) == listing_item_spec(b, i));
    }
}

/// Two collections with the same posts render the same index page: the
/// index depends only on the posts' names and metadata, not on staleness.
pub proof fn lemma_index_page_cong(a: SitePages, b: SitePages, analytics: Seq<char>)
    requires
        same_posts(a, b),
    ensures
        index_page_spec(a, analytics) == index_page_spec(b, analytics),
{
    lemma_writings_cong(a, b);
    a.lemma_writings_members();
    let w = a.writings_seq();
    assert forall|t: int| 0 <= t < w.len() implies a.is_post(#[trigger] w[t] as int) by {
        assert(w.contains(w[t]));
    }
    lemma_listing_items_cong(a, b, w);
}

/// The listing order pins the list completely: any sequence that is
/// strictly ordered and holds exactly the post indices is the one listing
/// that both the index page and the feed render.
pub proof fn lemma_listing_unique(pages: SitePages, w: Seq<usize>)
    requires
        pages.posts_ordered(w),
        forall|y: usize| #[trigger] w.contains(y) <==> pages.is_post(y as int),
    ensures
        w == pages.writings_seq(),
{
    pages.lemma_writings_ordered();
    pages.lemma_writings_members();
    lemma_ordered_same_members_eq(pages, w, pages.writings_seq());
}

proof fn lemma_ordered_no_duplicates(p: SitePages, s: Seq<usize>)
    requires
        p.posts_ordered(s),
    ensures
        s.no_duplicates(),
{
    assert forall|i: int, j: int|
        0 <= i < s.len() && 0 <= j < s.len() && i != j implies s[i] != s[j] by {
        if i < j {
            assert(p.post_before(s[i] as int, s[j] as int));
            p.lemma_post_before_irreflexive(s[i] as int);
        } else {
            assert(p.post_before(s[j] as int, s[i] as int));
            p.lemma_post_before_irreflexive(s[i] as int);
        }
    }
}

proof fn lemma_ordered_same_members_eq(p: SitePages, s1: Seq<usize>, s2: Seq<usize>)
    requires
        p.posts_ordered(s1),
        p.posts_ordered(s2),
        forall|y: usize| #[trigger] s1.contains(y) <==> s2.contains(y),
    ensures
        s1 == s2,
    decreases s1.len(),
{
    lemma_ordered_no_duplicates(p, s1);
    lemma_ordered_no_duplicates(p, s2);
    if s1.len() == 0 {
        if s2.len() > 0 {
            assert(s2.contains(s2[0]));
            assert(s1.contains(s2[0]));
            let t = choose|t: int| 0 <= t < s1.len() && s1[t] == s2[0];
        }
        assert(s1 =~= s2);
    } else {
        assert(s1.contains(s1[0]));
        assert(s2.contains(s1[0]));
        assert(s2.len() > 0);
        let x = s1[0];
        let y = s2[0];
        assert(x == y) by {
            if x != y {
                let k = choose|k: int| 0 <= k < s2.len() && s2[k] == x;
                assert(s2.contains(y));
                assert(s1.contains(y));
                let l = choose|l: int| 0 <= l < s1.len() && s1[l] == y;
                assert(k != 0);
                assert(l != 0);
                assert(p.post_before(y as int, x as int));
                assert(p.post_before(x as int, y as int));
                p.lemma_post_before_asymmetric(x as int, y as int);
            }
        }
        let t1 = s1.skip(1);
        let t2 = s2.skip(1);
        assert(forall|t: int| 0 <= t < t1.len() ==> t1[t] == s1[t + 1]);
        assert(forall|t: int| 0 <= t < t2.len() ==> t2[t] == s2[t + 1]);
        assert(p.posts_ordered(t1));
        assert(p.posts_ordered(t2));
        assert forall|z: usize| #[trigger] t1.contains(z) <==> t2.contains(z) by {
            if t1.contains(z) {
                let u = choose|u: int| 0 <= u < t1.len() && t1[u] == z;
                assert(s1[u + 1] == z);
                assert(z != x);
                assert(s1.contains(z));
                assert(s2.contains(z));
                let v = choose|v: int| 0 <= v < s2.len() && s2[v] == z;
                assert(v != 0);
                assert(t2[v - 1] == z);
                assert(t2.contains(z));
            }
            if t2.contains(z) {
                let u = choose|u: int| 0 <= u < t2.len() && t2[u] == z;
                assert(s2[u + 1] == z);
                assert(z != y);
                assert(s2.contains(z));
                assert(s1.contains(z));
                let v = choose|v: int| 0 <= v < s1.len() && s1[v] == z;
                assert(v != 0);
                assert(t1[v - 1] == z);
                assert(t1.contains(z));
            }
        }
        lemma_ordered_same_members_eq(p, t1, t2);
        assert(s1.len() == s2.len());
        assert forall|i: int| 0 <= i < s1.len() implies s1[i] == s2[i] by {
            if i > 0 {
                assert(s1[i] == t1[i - 1]);
                assert(s2[i] == t2[i - 1]);
            }
        }
        assert(s1 =~= s2);
    }
}

/// The outcome reported for one entry.
#[derive(Clone, Copy, PartialEq, Eq, Structural, Debug)]
pub enum Outcome {
    Updated,
    Skipped,
    Errored,
}

/// What one run does for one entry: the outcome to report, and the document
/// to write when the entry is regenerated.
pub struct PageAction {
    pub name: String,
    pub outcome: Outcome,
    pub html: Option<String>,
}

/// The outcome an entry is reported with: a missing record is an error, a
/// stale entry with a record is regenerated, a fresh one is skipped.
pub open spec fn outcome_of(e: PageEntry) -> Outcome {
    if e.page is None {
        Outcome::Errored
    } else if e.needs_update {
        Outcome::Updated
    } else {
        Outcome::Skipped
    }
}

/// An entry without a record is reported as errored, and only such an
/// entry: a parse failure is never reported as updated or skipped.
pub proof fn lemma_errored_iff_no_record(e: PageEntry)
    ensures
        (outcome_of(e) == Outcome::Errored) <==> (e.page is None),
{
}

/// What a correct action for entry `i` holds.
pub open spec fn action_ok(s: SitePages, analytics: Seq<char>, i: int, a: PageAction) -> bool {
    let e = s.entries@[i];
    &&& a.name@ == e.name@
    &&& a.outcome == outcome_of(e)
    &&& (a.html is Some <==> outcome_of(e) == Outcome::Updated)
    &&& (outcome_of(e) == Outcome::Updated ==> a.html.unwrap()@ == page_html_spec(
        e.page.unwrap(),
        e.name@,
        analytics,
    ))
}

/// Decides, for every entry in order, what the run does with it: the
/// document to overwrite a stale entry's output with, and the outcome to
/// report for it.
pub fn update_site_pages(pages: &SitePages, analytics: &str) -> (acts: Vec<PageAction>)
    ensures
        acts@.len() == pages.entries@.len(),
        forall|i: int|
            0 <= i < acts@.len() ==> action_ok(*pages, analytics@, i, #[trigger] acts@[i]),
{
    let mut acts: Vec<PageAction> = Vec::new();
    let n = pages.entries.len();
    let mut k: usize = 0;
    while k < n
        invariant
            k <= n,
            n == pages.entries@.len(),
            acts@.len() == k as int,
            forall|i: int|
                0 <= i < k as int ==> action_ok(*pages, analytics@, i, #[trigger] acts@[i]),
        decreases n - k,
    {
        let entry = &pages.entries[k];
        let name = entry.name.clone();
        match &entry.page {
            None => {
                acts.push(PageAction { name, outcome: Outcome::Errored, html: None });
            },
            Some(p) => {
                if entry.needs_update {
                    let html = p.to_html(entry.name.as_str(), analytics);
                    acts.push(
                        PageAction { name, outcome: Outcome::Updated, html: Some(html) },
                    );
                } else {
                    acts.push(PageAction { name, outcome: Outcome::Skipped, html: None });
                }
            },
        }
        k = k + 1;
    }
    acts
}

} // verus!
