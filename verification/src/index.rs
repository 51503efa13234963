//! The index store: a snapshot of entries, replaced wholesale by a build,
//! plus the build step that turns a filesystem listing into entries.

use vstd::prelude::*;
use crate::entry::Category;
use crate::entry::SearchResult;
use crate::entry::SourceRoot;
use crate::entry::classify_file;
use crate::entry::classify_spec;
use crate::text::lower_of;

verus! {

/// One file met during a filesystem walk, as the host shell reports it:
/// the file stem, the full path, the extension, and which kind of root it
/// was found under.
pub struct RawFile {
    /// File name without its extension; becomes the entry's name.
    pub stem: String,
    /// Absolute path; becomes the entry's location.
    pub path: String,
    /// File extension, in whatever case the filesystem has it.
    pub ext: String,
    /// The kind of root the walk started from.
    pub root: SourceRoot,
}

/// The `(name, location, category)` triple an entry carries.
pub open spec fn triple_of(e: SearchResult) -> (Seq<char>, Seq<char>, Category) {
    (e.name@, e.path@, e.kind)
}

/// The triples of a whole snapshot, in order.
pub open spec fn triples_of(s: Seq<SearchResult>) -> Seq<(Seq<char>, Seq<char>, Category)> {
    s.map_values(|e: SearchResult| triple_of(e))
}

/// The triple a listed file contributes to the index, or `None` when it is
/// skipped: unrecognized extension, wrong root for its extension, or no
/// derivable name.
pub open spec fn planned_entry(f: RawFile) -> Option<(Seq<char>, Seq<char>, Category)> {
    match classify_spec(f.root, lower_of(f.ext@)) {
        Some(k) => if f.stem@.len() > 0 {
            Some((f.stem@, f.path@, k))
        } else {
            None
        },
        None => None,
    }
}

/// The triples a build over the given listing records, in listing order.
pub open spec fn build_view(files: Seq<RawFile>) -> Seq<(Seq<char>, Seq<char>, Category)>
    decreases files.len(),
{
    if files.len() == 0 {
        Seq::empty()
    } else {
        let pre = build_view(files.drop_last());
        match planned_entry(files.last()) {
            Some(t) => pre.push(t),
            None => pre,
        }
    }
}

/// Assembles the entries of a new snapshot from a filesystem listing.
/// Exactly the recognized files are kept, in listing order, and every
/// recorded entry has a non-empty name.
pub fn build_entries(files: &Vec<RawFile>) -> (r: Vec<SearchResult>)
    ensures
        triples_of(r@) == build_view(files@),
        forall|i: int| 0 <= i < r@.len() ==> #[trigger] r@[i].name@.len() > 0,
{
    let mut r: Vec<SearchResult> = Vec::new();
    let mut i: usize = 0;
    while i < files.len()
        invariant
            i <= files@.len(),
            triples_of(r@) == build_view(files@.take(i as int)),
            forall|j: int| 0 <= j < r@.len() ==> #[trigger] r@[j].name@.len() > 0,
        decreases files@.len() - i,
    {
        let f = &files[i];
        let ghost pre = r@;
        match classify_file(f.root, f.ext.as_str()) {
            Some(k) => {
                if !f.stem.as_str().is_empty() {
                    r.push(SearchResult { name: f.stem.clone(), path: f.path.clone(), kind: k });
                }
            },
            None => {},
        }
        i = i + 1;
        proof {
            assert(files@.take(i as int).drop_last() =~= files@.take(i - 1));
            assert(files@.take(i as int).last() == files@[i - 1]);
            assert(triples_of(r@) =~= build_view(files@.take(i as int)));
        }
    }
    proof {
        assert(files@.take(files@.len() as int) =~= files@);
    }
    r
}

/// A build over a listing that reports the same files in the same order
/// yields the same entries; in particular the multisets of
/// `(name, location, category)` triples of two builds over an unchanged
/// filesystem are identical.
pub proof fn lemma_build_deterministic(a: Seq<RawFile>, b: Seq<RawFile>)
    requires
        a.len() == b.len(),
        forall|i: int| 0 <= i < a.len() ==> {
            &&& (#[trigger] a[i]).stem@ == b[i].stem@
            &&& a[i].path@ == b[i].path@
            &&& a[i].ext@ == b[i].ext@
            &&& a[i].root == b[i].root
        },
    ensures
        build_view(a) == build_view(b),
        build_view(a).to_multiset() == build_view(b).to_multiset(),
    decreases a.len(),
{
    if a.len() > 0 {
        lemma_build_deterministic(a.drop_last(), b.drop_last());
        assert(a.last() == a[a.len() - 1]);
        assert(planned_entry(a.last()) == planned_entry(b.last()));
    }
}

/// Classification determinism: files with the same extension under the same
/// kind of root are always given the same category (or are both skipped).
pub proof fn lemma_classification_deterministic(a: RawFile, b: RawFile)
    requires
        a.ext@ == b.ext@,
        a.root == b.root,
    ensures
        classify_spec(a.root, lower_of(a.ext@)) == classify_spec(b.root, lower_of(b.ext@)),
{
}

/// The current snapshot of the index: a single owned collection of entries,
/// installed wholesale by a build and only read by queries.
pub struct Index {
    entries: Vec<SearchResult>,
}

impl View for Index {
    type V = Seq<SearchResult>;

    closed spec fn view(&self) -> Seq<SearchResult> {
        self.entries@
    }
}

impl Index {
    /// An index with no snapshot installed yet: every query over it comes
    /// back empty.
    pub fn new() -> (r: Index)
        ensures
            r@ == Seq::<SearchResult>::empty(),
    {
        Index { entries: Vec::new() }
    }

    /// Installs a fully assembled snapshot, replacing the prior one in a
    /// single step.
    pub fn install(&mut self, entries: Vec<SearchResult>)
        ensures
            final(self)@ == entries@,
    {
        self.entries = entries;
    }

    /// Borrows the installed snapshot.
    pub fn snapshot(&self) -> (r: &Vec<SearchResult>)
        ensures
            r@ == self@,
    {
        &self.entries
    }
}

/// The counts the diagnostics summary reports.
pub struct IndexInfo {
    /// Number of entries in the snapshot.
    pub total: usize,
    /// Number of application entries.
    pub apps: usize,
    /// Number of entries that are not applications.
    pub files: usize,
}

/// How many of the entries are applications.
pub open spec fn app_count(s: Seq<SearchResult>) -> int
    decreases s.len(),
{
    if s.len() == 0 {
        0
    } else {
        app_count(s.drop_last()) + if s.last().kind == Category::Application {
            1int
        } else {
            0int
        }
    }
}

/// The application count never exceeds the length.
proof fn lemma_app_count_bounds(s: Seq<SearchResult>)
    ensures
        0 <= app_count(s) <= s.len(),
    decreases s.len(),
{
    if s.len() > 0 {
        lemma_app_count_bounds(s.drop_last());
    }
}

/// Reports the summary counts of the current snapshot: total entries,
/// application entries, and the rest.
pub fn get_index_info(index: &Index) -> (r: IndexInfo)
    ensures
        r.total == index@.len(),
        r.apps == app_count(index@),
        r.files == index@.len() - app_count(index@),
{
    let entries = index.snapshot();
    let total: usize = entries.len();
    let mut apps: usize = 0;
    let mut i: usize = 0;
    while i < total
        invariant
            i <= total,
            total == index@.len(),
            entries@ == index@,
            apps == app_count(index@.take(i as int)),
            apps <= i,
        decreases total - i,
    {
        proof {
            lemma_app_count_bounds(index@.take(i as int));
        }
        if entries[i].kind == Category::Application {
            apps = apps + 1;
        }
        i = i + 1;
        proof {
            assert(index@.take(i as int).drop_last() =~= index@.take(i - 1));
            assert(index@.take(i as int).last() == index@[i - 1]);
        }
    }
    proof {
        assert(index@.take(total as int) =~= index@);
        lemma_app_count_bounds(index@);
    }
    let files: usize = total - apps;
    IndexInfo { total, apps, files }
}

} // verus!
