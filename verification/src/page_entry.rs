use vstd::prelude::*;

use crate::page::Page;

verus! {

/// What a run reports of one content file that was found and read: its
/// parsed record (or nothing when parsing failed) and the modification
/// times, in nanoseconds, of the source and of the output if one exists.
pub struct FoundFile {
    pub page: Option<Page>,
    pub source_mtime: u64,
    pub output_mtime: Option<u64>,
}

/// What a run reports of one immediate subdirectory of the working
/// directory: its name, and its content file when it holds one.
pub struct DirScan {
    pub name: String,
    pub found: Option<FoundFile>,
}

/// One discovered content unit: its directory name, its record when the
/// content file parsed, and whether its output must be regenerated.
pub struct PageEntry {
    pub page: Option<Page>,
    pub name: String,
    pub needs_update: bool,
}

/// Whether a page's output must be regenerated: true when no output exists
/// yet, or when the source was modified after the output was.
pub open spec fn spec_needs_update(source_mtime: u64, output_mtime: Option<u64>) -> bool {
    output_mtime is None || source_mtime > output_mtime.unwrap()
}

/// Decides staleness from the two modification times.
pub fn needs_update(source_mtime: u64, output_mtime: Option<u64>) -> (r: bool)
    ensures
        r == spec_needs_update(source_mtime, output_mtime),
{
    match output_mtime {
        None => true,
        Some(t) => source_mtime > t,
    }
}

/// The entries of a scan: one per directory holding a content file, in scan
/// order; directories without one yield nothing.
pub open spec fn collect_spec(ds: Seq<DirScan>) -> Seq<PageEntry>
    decreases ds.len(),
{
    if ds.len() == 0 {
        Seq::<PageEntry>::empty()
    } else {
        collect_spec(ds.drop_last()) + match ds.last().found {
            None => Seq::<PageEntry>::empty(),
            Some(f) => seq![
                PageEntry {
                    page: f.page,
                    name: ds.last().name,
                    needs_update: spec_needs_update(f.source_mtime, f.output_mtime),
                },
            ],
        }
    }
}

/// A directory without a content file is no content unit: scanning it adds
/// no entry, wherever it stands among the others.
pub proof fn lemma_missing_file_adds_no_entry(ds: Seq<DirScan>, p: int, d: DirScan)
    requires
        0 <= p <= ds.len(),
        d.found is None,
    ensures
        collect_spec(ds.insert(p, d)) == collect_spec(ds),
    decreases ds.len(),
{
    let t = ds.insert(p, d);
    if p == ds.len() {
        assert(t.drop_last() =~= ds);
        assert(t.last() == d);
        assert(collect_spec(t) =~= collect_spec(ds));
    } else {
        assert(t.drop_last() =~= ds.drop_last().insert(p, d));
        assert(t.last() == ds.last());
        lemma_missing_file_adds_no_entry(ds.drop_last(), p, d);
        assert(collect_spec(t) =~= collect_spec(ds));
    }
}

/// Whether a scanned directory's output, if it has a content file at all,
/// is at least as new as its source: what holds of every directory right
/// after a completed run with no source changes since.
pub open spec fn fresh_scan(d: DirScan) -> bool {
    d.found is Some ==> {
        let f = d.found.unwrap();
        &&& f.output_mtime is Some
        &&& f.output_mtime.unwrap() >= f.source_mtime
    }
}

/// When every found content file's output is at least as new as its source,
/// as after a completed run with no source changes, no entry of the next
/// collection is stale.
pub proof fn lemma_fresh_outputs_skip(ds: Seq<DirScan>)
    requires
        forall|i: int| 0 <= i < ds.len() ==> fresh_scan(#[trigger] ds[i]),
    ensures
        forall|j: int|
            0 <= j < collect_spec(ds).len() ==> !(#[trigger] collect_spec(ds)[j]).needs_update,
    decreases ds.len(),
{
    if ds.len() > 0 {
        let head = ds.drop_last();
        assert(forall|i: int| 0 <= i < head.len() ==> fresh_scan(#[trigger] head[i]))
            by {
            assert(forall|i: int| 0 <= i < head.len() ==> head[i] == ds[i]);
        }
        lemma_fresh_outputs_skip(head);
        assert(fresh_scan(ds[ds.len() - 1]));
        assert forall|j: int|
            0 <= j < collect_spec(ds).len() implies !(#[trigger] collect_spec(ds)[j]).needs_update by {
            if j < collect_spec(head).len() {
                assert(collect_spec(ds)[j] == collect_spec(head)[j]);
            }
        }
    }
}

/// Builds the page entries for one run from the filesystem scan, keeping
/// scan order.
pub fn collect_page_entries(dirs: Vec<DirScan>) -> (v: Vec<PageEntry>)
    ensures
        v@ == collect_spec(dirs@),
{
    let ghost orig = dirs@;
    let mut rest = dirs;
    let mut out: Vec<PageEntry> = Vec::new();
    proof {
        assert(rest@ =~= orig.skip(orig.len() - rest@.len()));
        assert(orig.take(orig.len() - rest@.len()) =~= Seq::<DirScan>::empty());
    }
    while rest.len() > 0
        invariant
            rest@.len() <= orig.len(),
            rest@ == orig.skip(orig.len() - rest@.len()),
            out@ == collect_spec(orig.take(orig.len() - rest@.len())),
        decreases rest@.len(),
    {
        let ghost i = orig.len() - rest@.len();
        let d = rest.remove(0);
        proof {
            assert(d == orig[i]);
            assert(rest@ =~= orig.skip(orig.len() - rest@.len()));
        }
        match d.found {
            None => {},
            Some(f) => {
                let stale = needs_update(f.source_mtime, f.output_mtime);
                out.push(
                    PageEntry { page: f.page, name: d.name, needs_update: stale },
                );
            },
        }
        proof {
            assert(orig.take(i + 1).drop_last() =~= orig.take(i));
            assert(orig.take(i + 1).last() == orig[i]);
            assert(out@ =~= collect_spec(orig.take(i + 1)));
        }
    }
    proof {
        assert(orig.take(orig.len() as int) =~= orig);
    }
    out
}

} // verus!
