//! Directory listings: the entry data model, the canonical ordering
//! (directories first, then case-insensitive name), the split of a large
//! listing into a synchronous first page and streamed chunks, and the
//! naming of copies.
use vstd::prelude::*;
use vstd::relations::sorted_by;
use vstd::string::StrSliceExecFns;
use vstd::string::StringExecFns;

use crate::config::ENUMERATION_PAGE_SIZE;
use crate::registry::{OperationKind, Registry};
use crate::seqtools::lemma_insert_to_multiset;
use crate::textops::{
    chars_le, dec_str, last_index_of, lemma_chars_le_total, lemma_chars_le_trans, lowercase,
    lower_of, last_index_spec, lemma_last_index_spec, str_eq, str_le, u64_to_string,
};

verus! {

#[derive(Debug, Clone, Copy, PartialEq, Eq, Structural)]
pub enum FileKind {
    File,
    Directory,
}

/// One filesystem entry of a listing.
#[derive(Debug, Clone)]
pub struct FileEntry {
    pub name: String,
    pub path: String,
    pub kind: FileKind,
    /// Zero for directories.
    pub size: u64,
    /// Modification time, as the caller formatted it.
    pub modified: String,
}

/// A directory listing: the path asked for and its sorted entries.
#[derive(Debug)]
pub struct DirectoryListing {
    pub path: String,
    pub entries: Vec<FileEntry>,
}

/// Errors of the single-shot file operations.
#[derive(Debug, Clone)]
pub enum FileError {
    NotFound(String),
    PermissionDenied(String),
    AlreadyExists(String),
    InvalidPath(String),
    Io(String),
}

/// One streamed chunk of a large directory listing.
#[derive(Debug, Clone)]
pub struct DirectoryEntriesEvent {
    pub listing_id: u64,
    pub path: String,
    pub entries: Vec<FileEntry>,
    pub done: bool,
    pub total_count: usize,
}

/// Build an entry from plain metadata values; a directory's size reads as
/// zero whatever was measured for it.
pub fn make_entry(name: String, path: String, is_dir: bool, size: u64, modified: String) -> (r:
    FileEntry)
    ensures
        r.name == name,
        r.path == path,
        r.kind == (if is_dir {
            FileKind::Directory
        } else {
            FileKind::File
        }),
        r.size == (if is_dir {
            0u64
        } else {
            size
        }),
        r.modified == modified,
{
    FileEntry {
        name,
        path,
        kind: if is_dir {
            FileKind::Directory
        } else {
            FileKind::File
        },
        size: if is_dir {
            0
        } else {
            size
        },
        modified,
    }
}

/// The canonical listing order: directories before files, and within one
/// kind by lowercased name, lexicographically by code point.
pub open spec fn entry_le(a: FileEntry, b: FileEntry) -> bool {
    if a.kind == FileKind::Directory && b.kind == FileKind::File {
        true
    } else if a.kind == FileKind::File && b.kind == FileKind::Directory {
        false
    } else {
        chars_le(lower_of(a.name@), lower_of(b.name@))
    }
}

/// An entry paired with its lowercased name, the sort key.
struct Keyed {
    entry: FileEntry,
    key: String,
}

spec fn keyed_wf(p: Keyed) -> bool {
    p.key@ == lower_of(p.entry.name@)
}

/// The listing order is total over well-keyed pairs.
proof fn lemma_entry_le_total(a: FileEntry, b: FileEntry)
    ensures
        entry_le(a, b) || entry_le(b, a),
{
    lemma_chars_le_total(lower_of(a.name@), lower_of(b.name@));
}

proof fn lemma_entry_le_trans(a: FileEntry, b: FileEntry, c: FileEntry)
    requires
        entry_le(a, b),
        entry_le(b, c),
    ensures
        entry_le(a, c),
{
    if entry_le(a, b) && entry_le(b, c) && !(a.kind == FileKind::Directory && c.kind
        == FileKind::File)  {
        if (a.kind == FileKind::Directory) == (c.kind == FileKind::Directory) && (a.kind
            == FileKind::Directory) == (b.kind == FileKind::Directory) {
            lemma_chars_le_trans(lower_of(a.name@), lower_of(b.name@), lower_of(c.name@));
        }
    }
}

/// Exec comparison matching `entry_le` on well-keyed pairs.
fn keyed_le(a: &Keyed, b: &Keyed) -> (r: bool)
    requires
        keyed_wf(*a),
        keyed_wf(*b),
    ensures
        r == entry_le(a.entry, b.entry),
{
    let a_dir = matches!(a.entry.kind, FileKind::Directory);
    let b_dir = matches!(b.entry.kind, FileKind::Directory);
    if a_dir && !b_dir {
        true
    } else if !a_dir && b_dir {
        false
    } else {
        str_le(a.key.as_str(), b.key.as_str())
    }
}

/// Sort a directory's entries into the canonical order: the result is a
/// permutation of the input, sorted directories-first and by lowercased
/// name within one kind.
pub fn sort_directory_entries(entries: Vec<FileEntry>) -> (r: Vec<FileEntry>)
    ensures
        r@.to_multiset() == entries@.to_multiset(),
        r@.len() == entries@.len(),
        sorted_by(r@, |a: FileEntry, b: FileEntry| entry_le(a, b)),
{
    broadcast use vstd::seq_lib::group_to_multiset_ensures;

    let ghost leq = |a: FileEntry, b: FileEntry| entry_le(a, b);
    let ghost orig = entries@;
    let ghost unkey = |_i: int, p: Keyed| p.entry;
    let mut rest = entries;
    let mut sorted: Vec<Keyed> = Vec::new();
    proof {
        assert(sorted@.map(unkey).to_multiset().add(rest@.to_multiset()) =~= orig.to_multiset());
    }
    while rest.len() > 0
        invariant
            forall|i: int| 0 <= i < sorted@.len() ==> keyed_wf(#[trigger] sorted@[i]),
            sorted_by(sorted@.map(unkey), leq),
            unkey == (|_i: int, p: Keyed| p.entry),
            leq == (|a: FileEntry, b: FileEntry| entry_le(a, b)),
            sorted@.map(unkey).to_multiset().add(rest@.to_multiset()) =~= orig.to_multiset(),
        decreases rest@.len(),
    {
        broadcast use vstd::seq_lib::group_to_multiset_ensures;

        let ghost rest0 = rest@;
        let e = rest.remove(0);
        proof {
            assert(rest@ =~= rest0.remove(0));
            assert(rest0[0] == e);
            assert(rest0.to_multiset() =~= rest@.to_multiset().insert(e));
        }
        let key = lowercase(e.name.as_str());
        let x = Keyed { entry: e, key };
        // Find the first position whose element does not precede `x`.
        let ghost old_view = sorted@.map(unkey);
        let mut k: usize = 0;
        while k < sorted.len() && keyed_le(&sorted[k], &x)
            invariant
                forall|i: int| 0 <= i < sorted@.len() ==> keyed_wf(#[trigger] sorted@[i]),
                keyed_wf(x),
                old_view == sorted@.map(unkey),
                unkey == (|_i: int, p: Keyed| p.entry),
                0 <= k <= sorted@.len(),
                forall|i: int| 0 <= i < k ==> entry_le(#[trigger] old_view[i], x.entry),
            decreases sorted@.len() - k,
    {
            k = k + 1;
        }
        proof {
            if k < sorted@.len() {
                lemma_entry_le_total(old_view[k as int], x.entry);
                assert(entry_le(x.entry, old_view[k as int]));
            }
        }
        let ghost old_sorted = sorted@;
        sorted.insert(k, x);
        proof {
            let new_view = sorted@.map(unkey);
            assert(sorted@ =~= old_sorted.insert(k as int, x));
            assert(new_view =~= old_view.insert(k as int, x.entry));
            lemma_insert_to_multiset(old_view, k as int, x.entry);
            assert(new_view.to_multiset() =~= old_view.to_multiset().insert(x.entry));
            assert forall|i: int| 0 <= i < sorted@.len() implies keyed_wf(
                #[trigger] sorted@[i],
            ) by {
                if i < k {
                    assert(sorted@[i] == old_sorted[i]);
                } else if i > k {
                    assert(sorted@[i] == old_sorted[i - 1]);
                }
            }
            assert forall|i: int, j: int| 0 <= i < j < new_view.len() implies #[trigger] leq(
                new_view[i],
                new_view[j],
            ) by {
                if j < k {
                    assert(leq(old_view[i], old_view[j]));
                } else if i < k && j == k {
                    assert(entry_le(old_view[i], x.entry));
                } else if i < k && j > k {
                    assert(leq(old_view[i], old_view[j - 1]));
                } else if i == k && j > k {
                    if j - 1 == k {
                        assert(entry_le(x.entry, old_view[k as int]));
                    } else {
                        assert(leq(old_view[k as int], old_view[j - 1]));
                        assert(entry_le(old_view[k as int], old_view[j - 1]));
                        lemma_entry_le_trans(x.entry, old_view[k as int], old_view[j - 1]);
                    }
                } else if i > k {
                    assert(leq(old_view[i - 1], old_view[j - 1]));
                }
            }
            assert(sorted@.map(unkey).to_multiset().add(rest@.to_multiset())
                =~= orig.to_multiset());
        }
    }
    // Unpair.
    let ghost final_view = sorted@.map(unkey);
    let mut out: Vec<FileEntry> = Vec::new();
    while sorted.len() > 0
        invariant
            unkey == (|_i: int, p: Keyed| p.entry),
            out@ + sorted@.map(unkey) =~= final_view,
        decreases sorted@.len(),
    {
        let ghost before = sorted@;
        let p = sorted.remove(0);
        proof {
            assert(sorted@ =~= before.remove(0));
            assert(before[0] == p);
            assert(out@.push(p.entry) + sorted@.map(unkey) =~= out@ + before.map(unkey));
        }
        out.push(p.entry);
    }
    proof {
        broadcast use vstd::seq_lib::group_to_multiset_ensures;

        assert(sorted@.map(unkey) =~= Seq::<FileEntry>::empty());
        assert(out@ =~= final_view);
        assert(out@.to_multiset().add(Seq::<FileEntry>::empty().to_multiset())
            =~= orig.to_multiset());
        assert(Seq::<FileEntry>::empty().to_multiset() =~= vstd::multiset::Multiset::<
            FileEntry,
        >::empty());
        assert(out@.to_multiset() =~= orig.to_multiset());
        assert(out@.len() == out@.to_multiset().len());
        assert(orig.len() == orig.to_multiset().len());
    }
    out
}

/// The views of a sequence of entry chunks.
pub open spec fn chunk_views(chunks: Seq<Vec<FileEntry>>) -> Seq<Seq<FileEntry>> {
    chunks.map(|_i: int, c: Vec<FileEntry>| c@)
}

/// How a listing is paged: the first page is returned synchronously, the
/// chunks are streamed afterwards.
pub struct EnumerationPlan {
    pub first_page: Vec<FileEntry>,
    pub chunks: Vec<Vec<FileEntry>>,
    pub total_count: usize,
}

/// Split a listing into its synchronous first page and the streamed
/// remainder. A listing of at most one page spawns no chunks at all; a
/// larger one is cut into chunks of at most one page each, which together
/// hold exactly the entries after the first page.
pub fn plan_enumeration(entries: Vec<FileEntry>) -> (r: EnumerationPlan)
    ensures
        r.total_count == entries@.len(),
        r.first_page@ == entries@.take(
            if entries@.len() <= ENUMERATION_PAGE_SIZE {
                entries@.len() as int
            } else {
                ENUMERATION_PAGE_SIZE as int
            },
        ),
        chunk_views(r.chunks@).flatten() == entries@.skip(
            if entries@.len() <= ENUMERATION_PAGE_SIZE {
                entries@.len() as int
            } else {
                ENUMERATION_PAGE_SIZE as int
            },
        ),
        forall|i: int| 0 <= i < r.chunks@.len() ==> 0 < (#[trigger] r.chunks@[i])@.len()
            <= ENUMERATION_PAGE_SIZE,
        (entries@.len() <= ENUMERATION_PAGE_SIZE) <==> (r.chunks@.len() == 0),
{
    let ghost orig = entries@;
    let total = entries.len();
    let page_take: usize = if total <= ENUMERATION_PAGE_SIZE {
        total
    } else {
        ENUMERATION_PAGE_SIZE
    };
    let mut rest = entries;
    let mut first: Vec<FileEntry> = Vec::new();
    while first.len() < page_take
        invariant
            page_take <= orig.len(),
            first@.len() <= page_take,
            first@ == orig.take(first@.len() as int),
            rest@ == orig.skip(first@.len() as int),
        decreases page_take - first@.len(),
    {
        let ghost rest0 = rest@;
        let e = rest.remove(0);
        proof {
            assert(rest@ =~= rest0.remove(0));
            assert(rest0[0] == e);
            assert(first@.push(e) =~= orig.take(first@.len() as int + 1));
            assert(rest@ =~= orig.skip(first@.len() as int + 1));
        }
        first.push(e);
    }
    let mut chunks: Vec<Vec<FileEntry>> = Vec::new();
    proof {
        assert(chunk_views(chunks@) =~= Seq::<Seq<FileEntry>>::empty());
        assert(chunk_views(chunks@).flatten() + rest@ =~= orig.skip(page_take as int));
    }
    while rest.len() > 0
        invariant
            chunk_views(chunks@).flatten() + rest@ == orig.skip(page_take as int),
            forall|i: int| 0 <= i < chunks@.len() ==> 0 < (#[trigger] chunks@[i])@.len()
                <= ENUMERATION_PAGE_SIZE,
        decreases rest@.len(),
    {
        let ghost outer_rest = rest@;
        let mut chunk: Vec<FileEntry> = Vec::new();
        while chunk.len() < ENUMERATION_PAGE_SIZE && rest.len() > 0
            invariant
                chunk@.len() <= ENUMERATION_PAGE_SIZE,
                chunk@.len() + rest@.len() == outer_rest.len(),
                chunk@ == outer_rest.take(chunk@.len() as int),
                rest@ == outer_rest.skip(chunk@.len() as int),
            decreases ENUMERATION_PAGE_SIZE - chunk@.len(),
        {
            let ghost rest0 = rest@;
            let e = rest.remove(0);
            proof {
                assert(rest@ =~= rest0.remove(0));
                assert(rest0[0] == e);
                assert(chunk@.push(e) =~= outer_rest.take(chunk@.len() as int + 1));
                assert(rest@ =~= outer_rest.skip(chunk@.len() as int + 1));
            }
            chunk.push(e);
        }
        let ghost flat0 = chunk_views(chunks@).flatten();
        proof {
            assert(chunk@.len() > 0);
        }
        let ghost chunk_view = chunk@;
        let ghost chunks0 = chunks@;
        chunks.push(chunk);
        proof {
            assert(chunk_views(chunks@) =~= chunk_views(chunks0).push(chunk_view));
            Seq::lemma_flatten_push(chunk_views(chunks0), chunk_view);
            assert(chunk_views(chunks@).flatten() =~= flat0 + chunk_view);
            assert(chunk_views(chunks@).flatten() + rest@ =~= orig.skip(page_take as int)) by {
                assert(chunk_view + rest@ =~= outer_rest);
                assert((flat0 + chunk_view) + rest@ =~= flat0 + (chunk_view + rest@));
            }
        }
    }
    proof {
        assert(chunk_views(chunks@).flatten() + rest@ =~= chunk_views(chunks@).flatten());
        if orig.len() > page_take {
            assert(orig.skip(page_take as int).len() > 0);
        }
    }
    EnumerationPlan { first_page: first, chunks, total_count: total }
}

/// Turn the streamed chunks of a plan into the events a consumer sees: one
/// event per chunk, all correlated to the listing's identifier, with
/// `done` set on the last chunk and nowhere else.
pub fn chunk_events(listing_id: u64, path: &str, chunks: Vec<Vec<FileEntry>>, total_count: usize)
    -> (r: Vec<DirectoryEntriesEvent>)
    ensures
        r@.len() == chunks@.len(),
        forall|i: int| 0 <= i < r@.len() ==> {
            let ev = #[trigger] r@[i];
            &&& ev.listing_id == listing_id
            &&& ev.path@ == path@
            &&& ev.entries@ == chunks@[i]@
            &&& ev.total_count == total_count
            &&& (ev.done <==> i == chunks@.len() - 1)
        },
{
    let ghost orig = chunks@;
    let n = chunks.len();
    let mut rest = chunks;
    let mut out: Vec<DirectoryEntriesEvent> = Vec::new();
    while rest.len() > 0
        invariant
            out@.len() + rest@.len() == n,
            rest@ == orig.skip(out@.len() as int),
            n == orig.len(),
            forall|i: int| 0 <= i < out@.len() ==> {
                let ev = #[trigger] out@[i];
                &&& ev.listing_id == listing_id
                &&& ev.path@ == path@
                &&& ev.entries@ == orig[i]@
                &&& ev.total_count == total_count
                &&& (ev.done <==> i == n - 1)
            },
        decreases rest@.len(),
    {
        let ghost rest0 = rest@;
        let chunk = rest.remove(0);
        proof {
            assert(rest@ =~= rest0.remove(0));
            assert(rest0[0] == chunk);
            assert(rest@ =~= orig.skip(out@.len() as int + 1));
        }
        let done = rest.len() == 0;
        out.push(
            DirectoryEntriesEvent {
                listing_id,
                path: String::from_str(path),
                entries: chunk,
                done,
                total_count,
            },
        );
    }
    out
}

/// The tagged path of a streamed listing's first page, carrying the
/// listing identifier for the caller to correlate events with.
pub fn tagged_listing_path(path: &str, listing_id: u64) -> (r: String)
    ensures
        r@ == path@ + "|listing:"@ + dec_str(listing_id as int),
{
    let mut s = String::from_str(path);
    s.append("|listing:");
    let num = u64_to_string(listing_id);
    s.append(num.as_str());
    proof {
        assert(s@ =~= path@ + "|listing:"@ + dec_str(listing_id as int));
    }
    s
}

/// Sort a directory's raw entries and decide how they reach the caller:
/// a listing of at most one page is returned whole, synchronously, and no
/// operation is registered; a larger one is registered as an enumeration,
/// its first page is returned under a tagged path, and the rest becomes a
/// stream of chunk events of which exactly the last carries `done`.
pub fn prepare_directory_stream(reg: &mut Registry, path: String, raw_entries: Vec<FileEntry>)
    -> (r: (DirectoryListing, Option<(u64, Vec<DirectoryEntriesEvent>)>))
    requires
        old(reg).well_formed(),
        old(reg).next_id() < u64::MAX,
    ensures
        final(reg).well_formed(),
        (raw_entries@.len() <= ENUMERATION_PAGE_SIZE) <==> (r.1 is None),
        r.1 is None ==> {
            &&& final(reg).ops() == old(reg).ops()
            &&& final(reg).next_id() == old(reg).next_id()
            &&& r.0.path == path
            &&& r.0.entries@.to_multiset() == raw_entries@.to_multiset()
            &&& sorted_by(r.0.entries@, |a: FileEntry, b: FileEntry| entry_le(a, b))
        },
        r.1 matches Some((id, events)) ==> {
            &&& id == old(reg).next_id()
            &&& final(reg).next_id() == old(reg).next_id() + 1
            &&& final(reg).ops() == old(reg).ops().insert(
                id,
                crate::registry::OperationState {
                    kind: OperationKind::Enumeration,
                    cancelled: false,
                },
            )
            &&& r.0.path@ == path@ + "|listing:"@ + dec_str(id as int)
            &&& events@.len() >= 1
            &&& exists|s: Seq<FileEntry>|
                {
                    &&& s.to_multiset() == raw_entries@.to_multiset()
                    &&& sorted_by(s, |a: FileEntry, b: FileEntry| entry_le(a, b))
                    &&& r.0.entries@ == s.take(ENUMERATION_PAGE_SIZE as int)
                    &&& events@.map(|_i: int, ev: DirectoryEntriesEvent| ev.entries@).flatten()
                        == s.skip(ENUMERATION_PAGE_SIZE as int)
                }
            &&& forall|i: int| 0 <= i < events@.len() ==> {
                let ev = #[trigger] events@[i];
                &&& ev.listing_id == id
                &&& ev.path@ == path@
                &&& ev.total_count == raw_entries@.len()
                &&& 0 < ev.entries@.len() <= ENUMERATION_PAGE_SIZE
                &&& (ev.done <==> i == events@.len() - 1)
            }
        },
{
    let total = raw_entries.len();
    let sorted = sort_directory_entries(raw_entries);
    let ghost sorted_view = sorted@;
    let plan = plan_enumeration(sorted);
    if plan.chunks.len() == 0 {
        proof {
            assert(plan.first_page@ =~= sorted_view);
        }
        (DirectoryListing { path, entries: plan.first_page }, None)
    } else {
        let id = reg.start(OperationKind::Enumeration);
        let events = chunk_events(id, path.as_str(), plan.chunks, total);
        proof {
            assert(events@.map(|_i: int, ev: DirectoryEntriesEvent| ev.entries@)
                =~= chunk_views(plan.chunks@));
            assert(events@.map(|_i: int, ev: DirectoryEntriesEvent| ev.entries@).flatten()
                == sorted_view.skip(ENUMERATION_PAGE_SIZE as int));
        }
        let tagged = tagged_listing_path(path.as_str(), id);
        (DirectoryListing { path: tagged, entries: plan.first_page }, Some((id, events)))
    }
}

/// Where a copy's name splits: a directory copies whole, a file splits at
/// the last dot into a stem and an extension (which keeps the dot).
pub open spec fn copy_base(name: Seq<char>, is_dir: bool) -> Seq<char> {
    if is_dir {
        name
    } else {
        match last_index_spec(name, '.') {
            Some(i) => name.take(i),
            None => name,
        }
    }
}

pub open spec fn copy_ext(name: Seq<char>, is_dir: bool) -> Seq<char> {
    if is_dir {
        Seq::empty()
    } else {
        match last_index_spec(name, '.') {
            Some(i) => name.skip(i),
            None => Seq::empty(),
        }
    }
}

/// The k-th name tried for a copy: first `stem - Copy.ext`, then
/// `stem - Copy (k).ext` for k of two and up.
pub open spec fn copy_candidate(name: Seq<char>, is_dir: bool, k: int) -> Seq<char> {
    let base = copy_base(name, is_dir);
    let ext = copy_ext(name, is_dir);
    if k == 1 {
        base + " - Copy"@ + ext
    } else {
        base + " - Copy ("@ + dec_str(k) + ")"@ + ext
    }
}

/// Whether some string of the list reads as the given characters.
pub open spec fn contains_name(existing: Seq<String>, v: Seq<char>) -> bool {
    exists|i: int| 0 <= i < existing.len() && existing[i]@ == v
}

/// Whether the list holds a string equal to `cand`.
fn contains_name_exec(existing: &Vec<String>, cand: &str) -> (r: bool)
    ensures
        r == contains_name(existing@, cand@),
{
    let mut i: usize = 0;
    while i < existing.len()
        invariant
            0 <= i <= existing@.len(),
            forall|j: int| 0 <= j < i ==> existing@[j]@ != cand@,
        decreases existing@.len() - i,
    {
        if str_eq(existing[i].as_str(), cand) {
            return true;
        }
        i = i + 1;
    }
    false
}

/// Build the k-th candidate from a precomputed stem and extension.
fn build_copy_candidate(base: &str, ext: &str, k: u64) -> (r: String)
    requires
        k >= 1,
    ensures
        r@ == (if k == 1 {
            base@ + " - Copy"@ + ext@
        } else {
            base@ + " - Copy ("@ + dec_str(k as int) + ")"@ + ext@
        }),
{
    let mut s = String::from_str(base);
    if k == 1 {
        s.append(" - Copy");
        s.append(ext);
        proof {
            assert(s@ =~= base@ + " - Copy"@ + ext@);
        }
    } else {
        s.append(" - Copy (");
        let num = u64_to_string(k);
        s.append(num.as_str());
        s.append(")");
        s.append(ext);
        proof {
            assert(s@ =~= base@ + " - Copy ("@ + dec_str(k as int) + ")"@ + ext@);
        }
    }
    s
}

/// Pick a name for a copy of `source_name` among the names already taken:
/// the first of `stem - Copy.ext`, `stem - Copy (2).ext`, ... up to 1000
/// that is not taken; with every one of those taken, a fallback marked
/// `(overflow)`.
pub fn generate_copy_name(existing: &Vec<String>, source_name: &str, is_directory: bool) -> (r:
    String)
    ensures
        (exists|k: int|
            1 <= k <= 1000 && r@ == copy_candidate(source_name@, is_directory, k)
                && !contains_name(existing@, r@) && forall|j: int|
                1 <= j < k ==> contains_name(
                    existing@,
                    #[trigger] copy_candidate(source_name@, is_directory, j),
                )) || ((forall|k: int|
            1 <= k <= 1000 ==> contains_name(
                existing@,
                #[trigger] copy_candidate(source_name@, is_directory, k),
            )) && r@ == copy_base(source_name@, is_directory) + " - Copy (overflow)"@ + copy_ext(
            source_name@,
            is_directory,
        )),
{
    let n = source_name.unicode_len();
    let base: String;
    let ext: String;
    if is_directory {
        base = String::from_str(source_name);
        ext = String::new();
    } else {
        match last_index_of(source_name, '.') {
            Some(i) => {
                proof {
                    lemma_last_index_spec(source_name@, '.');
                }
                base = String::from_str(source_name.substring_char(0, i));
                ext = String::from_str(source_name.substring_char(i, n));
            },
            None => {
                proof {
                    lemma_last_index_spec(source_name@, '.');
                }
                base = String::from_str(source_name);
                ext = String::new();
            },
        }
    }
    proof {
        assert(base@ == copy_base(source_name@, is_directory));
        assert(ext@ =~= copy_ext(source_name@, is_directory));
    }
    let first = build_copy_candidate(base.as_str(), ext.as_str(), 1);
    if !contains_name_exec(existing, first.as_str()) {
        proof {
            assert(first@ == copy_candidate(source_name@, is_directory, 1));
        }
        return first;
    }
    let mut k: u64 = 2;
    while k <= 1000
        invariant
            2 <= k <= 1001,
            base@ == copy_base(source_name@, is_directory),
            ext@ == copy_ext(source_name@, is_directory),
            forall|j: int| 1 <= j < k ==> contains_name(
                existing@,
                #[trigger] copy_candidate(source_name@, is_directory, j),
            ),
        decreases 1001 - k,
    {
        let cand = build_copy_candidate(base.as_str(), ext.as_str(), k);
        if !contains_name_exec(existing, cand.as_str()) {
            proof {
                assert(cand@ == copy_candidate(source_name@, is_directory, k as int));
            }
            return cand;
        }
        k = k + 1;
    }
    let mut s = String::from_str(base.as_str());
    s.append(" - Copy (overflow)");
    s.append(ext.as_str());
    proof {
        assert(s@ =~= copy_base(source_name@, is_directory) + " - Copy (overflow)"@ + copy_ext(
            source_name@,
            is_directory,
        ));
    }
    s
}

} // verus!
