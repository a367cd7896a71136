//! Fuzzy name search: scoring candidate names against a query, ranking the
//! best matches, and the streaming collector that turns a walked tree into
//! snapshot batches of the current best results.
use vstd::prelude::*;
use vstd::seq_lib::group_to_multiset_ensures;
use vstd::string::StrSliceExecFns;
use vstd::string::StringExecFns;

use crate::config::{spec_clamp_limit, clamp_limit, MAX_WALK_ENTRIES, NAME_BATCH_SIZE,
    NAME_LIMIT_MAX};
use crate::listing::FileKind;
use crate::registry::{OperationKind, Registry};
use crate::seqtools::lemma_insert_to_multiset;
use crate::fsprobe::{path_exists, path_is_dir};
use crate::textops::str_eq;

verus! {

#[verifier::external_type_specification]
#[verifier::external_body]
pub struct ExNucleoPattern(nucleo_matcher::pattern::Pattern);

#[verifier::external_type_specification]
#[verifier::external_body]
pub struct ExNucleoMatcher(nucleo_matcher::Matcher);

/// What the fuzzy scorer returns for a query and a candidate name: with a
/// fixed configuration, the score is a function of the two texts alone.
/// `None` means the name does not match the query at all.
pub uninterp spec fn fuzzy_score_of(query: Seq<char>, name: Seq<char>) -> Option<u32>;

/// A compiled fuzzy query: the pattern is always the one parsed from
/// `query`, and the matcher holds the fixed default scoring configuration
/// and its scratch space.
pub struct NameScorer {
    query: String,
    pattern: nucleo_matcher::pattern::Pattern,
    matcher: nucleo_matcher::Matcher,
}

/// Relies on `nucleo_matcher::pattern::Pattern::parse`, with case-insensitive
/// matching and smart normalization, as the name scorer always parses its
/// query.
#[verifier::external_body]
fn parse_pattern(query: &str) -> nucleo_matcher::pattern::Pattern {
    nucleo_matcher::pattern::Pattern::parse(
        query,
        nucleo_matcher::pattern::CaseMatching::Ignore,
        nucleo_matcher::pattern::Normalization::Smart,
    )
}

/// Relies on `nucleo_matcher::Matcher::new` with the default configuration.
#[verifier::external_body]
fn new_fuzzy_matcher() -> nucleo_matcher::Matcher {
    nucleo_matcher::Matcher::new(nucleo_matcher::Config::DEFAULT)
}

impl NameScorer {
    /// The query this scorer was built for.
    pub closed spec fn query_view(&self) -> Seq<char> {
        self.query@
    }

    pub fn new(query: &str) -> (r: NameScorer)
        ensures
            r.query_view() == query@,
    {
        NameScorer {
            query: String::from_str(query),
            pattern: parse_pattern(query),
            matcher: new_fuzzy_matcher(),
        }
    }

    /// Relies on `nucleo_matcher::pattern::Pattern::score`: with the fixed
    /// default configuration, the score depends on the parsed query and the
    /// haystack alone; the matcher only carries reusable scratch space.
    #[verifier::external_body]
    pub(crate) fn score(&mut self, name: &str) -> (r: Option<u32>)
        ensures
            r == fuzzy_score_of(old(self).query_view(), name@),
            final(self).query_view() == old(self).query_view(),
    {
        let mut buf = Vec::new();
        let haystack = nucleo_matcher::Utf32Str::new(name, &mut buf);
        self.pattern.score(haystack, &mut self.matcher)
    }
}

/// A filesystem entry discovered by the tree walker, before scoring.
#[derive(Debug, Clone)]
pub struct Candidate {
    pub name: String,
    pub path: String,
    pub relative_path: String,
    pub is_dir: bool,
}

/// One scored name-search hit.
#[derive(Debug)]
pub struct SearchResult {
    pub name: String,
    pub path: String,
    pub relative_path: String,
    pub score: u32,
    pub kind: FileKind,
}

/// The response of a synchronous name search.
#[derive(Debug)]
pub struct SearchResponse {
    pub results: Vec<SearchResult>,
}

/// One streamed batch of name-search results: a snapshot of the current
/// best matches, superseding earlier batches for the same operation.
#[derive(Debug)]
pub struct SearchResultsEvent {
    pub search_id: u64,
    pub results: Vec<SearchResult>,
    pub done: bool,
    pub total_scanned: usize,
}

/// The validation errors of a name search.
#[derive(Debug, Clone, Copy, PartialEq, Eq, Structural)]
pub enum SearchError {
    NotFound,
    NotADirectory,
    EmptyQuery,
}

/// Whether a directory name is pruned from every walk: hidden names and a
/// deny-list of conventional build, cache and VCS directories.
pub open spec fn spec_should_skip_dir(name: Seq<char>) -> bool {
    ||| (name.len() > 0 && name[0] == '.')
    ||| name == ".git"@
    ||| name == ".svn"@
    ||| name == ".hg"@
    ||| name == "node_modules"@
    ||| name == "__pycache__"@
    ||| name == ".venv"@
    ||| name == "venv"@
    ||| name == ".cache"@
    ||| name == ".npm"@
    ||| name == ".cargo"@
    ||| name == "target"@
    ||| name == "build"@
    ||| name == "dist"@
    ||| name == "out"@
    ||| name == ".idea"@
    ||| name == ".vscode"@
}

/// Check if a directory should be skipped during a walk.
pub fn should_skip_dir(name: &str) -> (r: bool)
    ensures
        r == spec_should_skip_dir(name@),
{
    if name.unicode_len() > 0 && name.get_char(0) == '.' {
        return true;
    }
    str_eq(name, ".git") || str_eq(name, ".svn") || str_eq(name, ".hg") || str_eq(
        name,
        "node_modules",
    ) || str_eq(name, "__pycache__") || str_eq(name, ".venv") || str_eq(name, "venv") || str_eq(
        name,
        ".cache",
    ) || str_eq(name, ".npm") || str_eq(name, ".cargo") || str_eq(name, "target") || str_eq(
        name,
        "build",
    ) || str_eq(name, "dist") || str_eq(name, "out") || str_eq(name, ".idea") || str_eq(
        name,
        ".vscode",
    )
}

/// Relies on `jwalk::WalkDir`: walks the tree under `root` with hidden
/// entries skipped and the deny-listed directory names pruned at descent
/// time, yielding at most `max` entries in discovery order as (name, path,
/// relative path, is-directory) tuples. The pruning hook is run on every
/// produced entry list, the root's included, so no yielded entry carries a
/// name the deny-list accepts; what else comes back depends on the disk,
/// and entries that error on read are silently skipped.
#[verifier::external_body]
fn walk_candidates(root: &str, max: usize) -> (r: Vec<(String, String, String, bool)>)
    ensures
        r@.len() <= max,
        forall|i: int| 0 <= i < r@.len() ==> !spec_should_skip_dir((#[trigger] r@[i]).0@),
{
    let rp = std::path::PathBuf::from(root);
    let w = jwalk::WalkDir::new(&rp).skip_hidden(true).process_read_dir(|_d, _p, _s, kids| {
        kids.retain(|c| c.as_ref().map_or(true, |e| !should_skip_dir(&e.file_name().to_string_lossy())));
    });
    let mut out = Vec::new();
    for entry in w.into_iter().take(max) {
        let Ok(e) = entry else { continue };
        let p = e.path();
        let Ok(rel) = p.strip_prefix(&rp) else { continue };
        out.push((e.file_name().to_string_lossy().to_string(), p.to_string_lossy().to_string(), rel.to_string_lossy().to_string(), e.file_type().is_dir()));
    }
    out
}

/// The candidate a walked tuple stands for.
pub open spec fn candidate_of(t: (String, String, String, bool)) -> Candidate {
    Candidate { name: t.0, path: t.1, relative_path: t.2, is_dir: t.3 }
}

/// Whether a walked entry takes part in the search: the walk's root itself
/// (empty relative path) and hidden names are left out.
pub open spec fn spec_keep_candidate(t: (String, String, String, bool)) -> bool {
    t.0@.len() > 0 && t.0@[0] != '.' && t.2@.len() > 0
}

/// The candidates that take part, in walk order.
pub open spec fn kept_candidates(s: Seq<(String, String, String, bool)>) -> Seq<Candidate>
    decreases s.len(),
{
    if s.len() == 0 {
        Seq::empty()
    } else if spec_keep_candidate(s.last()) {
        kept_candidates(s.drop_last()).push(candidate_of(s.last()))
    } else {
        kept_candidates(s.drop_last())
    }
}

/// Drop the walk's root entry and hidden names, and shape what is left.
fn filter_candidates(raw: Vec<(String, String, String, bool)>) -> (r: Vec<Candidate>)
    ensures
        r@ == kept_candidates(raw@),
        r@.len() <= raw@.len(),
{
    let ghost orig = raw@;
    let mut rest = raw;
    let mut out: Vec<Candidate> = Vec::new();
    let ghost done: int = 0;
    while rest.len() > 0
        invariant
            0 <= done <= orig.len(),
            rest@ == orig.skip(done),
            out@ == kept_candidates(orig.take(done)),
            out@.len() <= done,
        decreases rest@.len(),
    {
        let ghost rest0 = rest@;
        let (name, path, rel, is_dir) = rest.remove(0);
        proof {
            assert(rest@ =~= orig.skip(done + 1));
            assert(rest0[0] == orig[done]);
            assert(orig.take(done + 1).drop_last() =~= orig.take(done));
            assert(orig.take(done + 1).last() == orig[done]);
        }
        let keep = name.as_str().unicode_len() > 0 && name.as_str().get_char(0) != '.'
            && rel.as_str().unicode_len() > 0;
        proof {
            assert(keep == spec_keep_candidate(orig[done]));
        }
        if keep {
            let c = Candidate { name, path, relative_path: rel, is_dir };
            proof {
                assert(c == candidate_of(orig[done]));
            }
            out.push(c);
        }
        proof {
            done = done + 1;
        }
    }
    proof {
        assert(orig.take(done) =~= orig);
    }
    out
}

/// The result one candidate contributes, given its score.
pub open spec fn result_for(c: Candidate, score: u32) -> SearchResult {
    SearchResult {
        name: c.name,
        path: c.path,
        relative_path: c.relative_path,
        score,
        kind: if c.is_dir {
            FileKind::Directory
        } else {
            FileKind::File
        },
    }
}

/// All results a candidate list yields for a query, in list order: one per
/// candidate whose name matches the query.
pub open spec fn scored_seq(cands: Seq<Candidate>, query: Seq<char>) -> Seq<SearchResult>
    decreases cands.len(),
{
    if cands.len() == 0 {
        Seq::empty()
    } else {
        scored_seq(cands.drop_last(), query) + (match fuzzy_score_of(query, cands.last().name@) {
            Some(s) => seq![result_for(cands.last(), s)],
            None => Seq::empty(),
        })
    }
}

/// Every element of `scored_seq` carries the score its name earns.
pub proof fn lemma_scored_seq_elements(cands: Seq<Candidate>, query: Seq<char>)
    ensures
        forall|x: SearchResult| #[trigger] scored_seq(cands, query).contains(x)
            ==> fuzzy_score_of(query, x.name@) == Some(x.score),
    decreases cands.len(),
{
    if cands.len() > 0 {
        lemma_scored_seq_elements(cands.drop_last(), query);
        let prev = scored_seq(cands.drop_last(), query);
        assert forall|x: SearchResult| #[trigger] scored_seq(cands, query).contains(x)
            implies fuzzy_score_of(query, x.name@) == Some(x.score) by {
            let whole = scored_seq(cands, query);
            let i = choose|i: int| 0 <= i < whole.len() && whole[i] == x;
            if i < prev.len() {
                assert(prev.contains(x));
            } else {
                assert(x == result_for(cands.last(), x.score));
            }
        }
    }
}

/// Every element of `scored_seq` is the result of one of the candidates.
pub proof fn lemma_scored_seq_from(cands: Seq<Candidate>, query: Seq<char>)
    ensures
        forall|x: SearchResult| #[trigger] scored_seq(cands, query).contains(x) ==> exists|j: int|
            0 <= j < cands.len() && x == result_for(cands[j], x.score),
    decreases cands.len(),
{
    if cands.len() > 0 {
        lemma_scored_seq_from(cands.drop_last(), query);
        let prev = scored_seq(cands.drop_last(), query);
        assert forall|x: SearchResult| #[trigger] scored_seq(cands, query).contains(x)
            implies exists|j: int| 0 <= j < cands.len() && x == result_for(cands[j], x.score) by {
            let whole = scored_seq(cands, query);
            let i = choose|i: int| 0 <= i < whole.len() && whole[i] == x;
            if i < prev.len() {
                assert(prev.contains(x));
                let j = choose|j: int|
                    0 <= j < cands.drop_last().len() && x == result_for(
                        cands.drop_last()[j],
                        x.score,
                    );
                assert(cands[j] == cands.drop_last()[j]);
                assert(x == result_for(cands[j], x.score));
            } else {
                assert(x == result_for(cands[cands.len() - 1], x.score));
            }
        }
    }
}

/// Every candidate the filter keeps was walked, and passed the filter.
pub proof fn lemma_kept_from(raw: Seq<(String, String, String, bool)>)
    ensures
        forall|x: Candidate| #[trigger] kept_candidates(raw).contains(x) ==> exists|t: (
            String,
            String,
            String,
            bool,
        )|
            raw.contains(t) && spec_keep_candidate(t) && x == candidate_of(t),
    decreases raw.len(),
{
    if raw.len() > 0 {
        lemma_kept_from(raw.drop_last());
        let prev = kept_candidates(raw.drop_last());
        assert forall|x: Candidate| #[trigger] kept_candidates(raw).contains(x) implies exists|t: (
            String,
            String,
            String,
            bool,
        )|
            raw.contains(t) && spec_keep_candidate(t) && x == candidate_of(t) by {
            let whole = kept_candidates(raw);
            let i = choose|i: int| 0 <= i < whole.len() && whole[i] == x;
            if i < prev.len() {
                assert(prev.contains(x));
                let t = choose|t: (String, String, String, bool)|
                    raw.drop_last().contains(t) && spec_keep_candidate(t) && x == candidate_of(t);
                let j = choose|j: int| 0 <= j < raw.drop_last().len() && raw.drop_last()[j] == t;
                assert(raw[j] == t);
                assert(raw.contains(t));
            } else {
                assert(spec_keep_candidate(raw.last()));
                assert(x == candidate_of(raw.last()));
                assert(raw.contains(raw.last()));
            }
        }
    }
}

/// Results in non-increasing score order: the first is always among the
/// best.
pub open spec fn sorted_desc(s: Seq<SearchResult>) -> bool {
    forall|i: int, j: int| 0 <= i < j < s.len() ==> #[trigger] s[i].score >= #[trigger] s[j].score
}

/// Copy a result field by field.
fn clone_result(r: &SearchResult) -> (c: SearchResult)
    ensures
        c == *r,
{
    SearchResult {
        name: r.name.clone(),
        path: r.path.clone(),
        relative_path: r.relative_path.clone(),
        score: r.score,
        kind: r.kind,
    }
}

/// Score every candidate, in list order.
fn score_candidates(scorer: &mut NameScorer, cands: Vec<Candidate>) -> (r: Vec<SearchResult>)
    ensures
        final(scorer).query_view() == old(scorer).query_view(),
        r@ == scored_seq(cands@, old(scorer).query_view()),
{
    let ghost q = scorer.query_view();
    let ghost orig = cands@;
    let mut rest = cands;
    let mut out: Vec<SearchResult> = Vec::new();
    let ghost done: int = 0;
    while rest.len() > 0
        invariant
            scorer.query_view() == q,
            0 <= done <= orig.len(),
            rest@ == orig.skip(done),
            out@ == scored_seq(orig.take(done), q),
        decreases rest@.len(),
    {
        let ghost rest0 = rest@;
        let c = rest.remove(0);
        proof {
            assert(rest@ =~= orig.skip(done + 1));
            assert(rest0[0] == c);
            assert(orig[done] == c);
            assert(orig.take(done + 1).drop_last() =~= orig.take(done));
            assert(orig.take(done + 1).last() == c);
        }
        let sc = scorer.score(c.name.as_str());
        match sc {
            Some(s) => {
                let item = SearchResult {
                    name: c.name,
                    path: c.path,
                    relative_path: c.relative_path,
                    score: s,
                    kind: if c.is_dir {
                        FileKind::Directory
                    } else {
                        FileKind::File
                    },
                };
                proof {
                    assert(item == result_for(orig[done], s));
                    assert(out@.push(item) =~= scored_seq(orig.take(done + 1), q));
                }
                out.push(item);
            },
            None => {
                proof {
                    assert(out@ =~= scored_seq(orig.take(done + 1), q));
                }
            },
        }
        proof {
            done = done + 1;
        }
    }
    proof {
        assert(orig.take(done) =~= orig);
    }
    out
}

/// Sort results into non-increasing score order; the result is a
/// permutation of the input.
fn sort_results_desc(items: Vec<SearchResult>) -> (r: Vec<SearchResult>)
    ensures
        r@.to_multiset() == items@.to_multiset(),
        r@.len() == items@.len(),
        sorted_desc(r@),
{
    broadcast use group_to_multiset_ensures;

    let ghost orig = items@;
    let mut rest = items;
    let mut sorted: Vec<SearchResult> = Vec::new();
    proof {
        assert(sorted@.to_multiset().add(rest@.to_multiset()) =~= orig.to_multiset());
    }
    while rest.len() > 0
        invariant
            sorted_desc(sorted@),
            sorted@.to_multiset().add(rest@.to_multiset()) =~= orig.to_multiset(),
        decreases rest@.len(),
    {
        broadcast use group_to_multiset_ensures;

        let ghost rest0 = rest@;
        let x = rest.remove(0);
        proof {
            assert(rest@ =~= rest0.remove(0));
            assert(rest0[0] == x);
            assert(rest0.to_multiset() =~= rest@.to_multiset().insert(x));
        }
        let ghost old_sorted = sorted@;
        let mut k: usize = 0;
        while k < sorted.len() && sorted[k].score >= x.score
            invariant
                old_sorted == sorted@,
                0 <= k <= sorted@.len(),
                forall|i: int| 0 <= i < k ==> (#[trigger] sorted@[i]).score >= x.score,
            decreases sorted@.len() - k,
        {
            k = k + 1;
        }
        sorted.insert(k, x);
        proof {
            assert(sorted@ =~= old_sorted.insert(k as int, x));
            lemma_insert_to_multiset(old_sorted, k as int, x);
            assert forall|i: int, j: int| 0 <= i < j < sorted@.len() implies (
            #[trigger] sorted@[i]).score >= (#[trigger] sorted@[j]).score by {
                if i < k && j > k {
                    assert(sorted@[j] == old_sorted[j - 1]);
                } else if i == k {
                    assert(sorted@[j] == old_sorted[j - 1]);
                    assert(x.score >= old_sorted[j - 1].score) by {
                        if j - 1 == k {
                            assert(!(old_sorted[k as int].score >= x.score));
                        } else {
                            assert(!(old_sorted[k as int].score >= x.score));
                            assert(old_sorted[k as int].score >= old_sorted[j - 1].score);
                        }
                    }
                }
            }
            assert(sorted@.to_multiset().add(rest@.to_multiset()) =~= orig.to_multiset());
        }
    }
    proof {
        broadcast use group_to_multiset_ensures;

        assert(rest@.to_multiset() =~= vstd::multiset::Multiset::<SearchResult>::empty());
        assert(sorted@.to_multiset() =~= orig.to_multiset());
        assert(sorted@.len() == sorted@.to_multiset().len());
        assert(orig.len() == orig.to_multiset().len());
    }
    sorted
}

/// Rank a candidate list for a query: score every candidate, sort the
/// matches best-first, and keep at most `limit` of them. The result is the
/// `limit`-prefix of some best-first ordering of exactly the matching
/// candidates' results.
pub fn rank_candidates(scorer: &mut NameScorer, cands: Vec<Candidate>, limit: usize) -> (r: Vec<
    SearchResult,
>)
    ensures
        final(scorer).query_view() == old(scorer).query_view(),
        sorted_desc(r@),
        r@.len() == vstd::math::min(
            limit as int,
            scored_seq(cands@, old(scorer).query_view()).len() as int,
        ),
        exists|all: Seq<SearchResult>|
            {
                &&& all.to_multiset() == scored_seq(cands@, old(scorer).query_view()).to_multiset()
                &&& sorted_desc(all)
                &&& r@ == all.take(
                    vstd::math::min(limit as int, all.len() as int),
                )
            },
        forall|i: int| 0 <= i < r@.len() ==> fuzzy_score_of(
            old(scorer).query_view(),
            (#[trigger] r@[i]).name@,
        ) == Some(r@[i].score),
        forall|i: int| 0 <= i < r@.len() ==> exists|j: int|
            0 <= j < cands@.len() && #[trigger] r@[i] == result_for(cands@[j], r@[i].score),
{
    broadcast use group_to_multiset_ensures;

    let ghost q = scorer.query_view();
    let ghost cands_view = cands@;
    let scored = score_candidates(scorer, cands);
    let mut sorted = sort_results_desc(scored);
    let ghost all = sorted@;
    let keep: usize = if sorted.len() <= limit {
        sorted.len()
    } else {
        limit
    };
    sorted.truncate(keep);
    proof {
        assert(sorted@ =~= all.take(vstd::math::min(limit as int, all.len() as int)));
        lemma_scored_seq_elements(cands_view, q);
        lemma_scored_seq_from(cands_view, q);
        assert forall|i: int| 0 <= i < sorted@.len() implies fuzzy_score_of(
            q,
            (#[trigger] sorted@[i]).name@,
        ) == Some(sorted@[i].score) by {
            assert(all.contains(all[i]));
            assert(all.to_multiset().contains(all[i]));
            assert(scored_seq(cands_view, q).to_multiset().contains(all[i]));
            assert(scored_seq(cands_view, q).contains(all[i]));
        }
        assert forall|i: int| 0 <= i < sorted@.len() implies exists|j: int|
            0 <= j < cands_view.len() && #[trigger] sorted@[i] == result_for(
                cands_view[j],
                sorted@[i].score,
            ) by {
            assert(all.contains(all[i]));
            assert(all.to_multiset().contains(all[i]));
            assert(scored_seq(cands_view, q).to_multiset().contains(all[i]));
            assert(scored_seq(cands_view, q).contains(all[i]));
        }
    }
    sorted
}

/// Fuzzy search for files and directories under a root, synchronously:
/// validate, walk the tree (capped), score every kept candidate's name,
/// and return at most `limit` results, best first. The `limit` is clamped
/// server-side; an empty query is rejected before the disk is consulted.
pub fn fuzzy_search(query: &str, root: &str, limit: usize) -> (r: Result<
    SearchResponse,
    SearchError,
>)
    ensures
        (r == Err::<SearchResponse, SearchError>(SearchError::EmptyQuery)) <==> query@.len() == 0,
        r matches Ok(resp) ==> {
            &&& sorted_desc(resp.results@)
            &&& resp.results@.len() <= spec_clamp_limit(limit, NAME_LIMIT_MAX)
            &&& forall|i: int| 0 <= i < resp.results@.len() ==> fuzzy_score_of(
                query@,
                (#[trigger] resp.results@[i]).name@,
            ) == Some(resp.results@[i].score)
            &&& forall|i: int| 0 <= i < resp.results@.len() ==> {
                let res = #[trigger] resp.results@[i];
                &&& res.name@.len() > 0
                &&& res.name@[0] != '.'
                &&& !spec_should_skip_dir(res.name@)
                &&& res.relative_path@.len() > 0
            }
        },
{
    if query.unicode_len() == 0 {
        return Err(SearchError::EmptyQuery);
    }
    if !path_exists(root) {
        return Err(SearchError::NotFound);
    }
    if !path_is_dir(root) {
        return Err(SearchError::NotADirectory);
    }
    let limit = clamp_limit(limit, NAME_LIMIT_MAX);
    let mut scorer = NameScorer::new(query);
    let cands = walk_candidates(root, MAX_WALK_ENTRIES);
    let ghost raw = cands@;
    let kept = filter_candidates(cands);
    let ghost kept_view = kept@;
    let results = rank_candidates(&mut scorer, kept, limit);
    proof {
        lemma_kept_from(raw);
        assert forall|i: int| 0 <= i < results@.len() implies {
            let res = #[trigger] results@[i];
            &&& res.name@.len() > 0
            &&& res.name@[0] != '.'
            &&& !spec_should_skip_dir(res.name@)
            &&& res.relative_path@.len() > 0
        } by {
            let res = results@[i];
            let j = choose|j: int|
                0 <= j < kept_view.len() && res == result_for(kept_view[j], res.score);
            let c = kept_view[j];
            assert(kept_candidates(raw).contains(c));
            let t = choose|t: (String, String, String, bool)|
                raw.contains(t) && spec_keep_candidate(t) && c == candidate_of(t);
            let ti = choose|ti: int| 0 <= ti < raw.len() && raw[ti] == t;
            assert(!spec_should_skip_dir(raw[ti].0@));
        }
    }
    Ok(SearchResponse { results })
}

/// Every result of a batch carries the score its name earns for the query.
pub open spec fn results_scored(s: Seq<SearchResult>, query: Seq<char>) -> bool {
    forall|i: int| 0 <= i < s.len() ==> fuzzy_score_of(query, (#[trigger] s[i]).name@) == Some(
        s[i].score,
    )
}

/// The collector of a streaming name search. Candidates accumulate into
/// batches; at each batch boundary the working set of best results is
/// re-ranked, capped at twice the result limit, and a snapshot of the top
/// results is emitted. The final flush is suppressed when cancellation was
/// observed, so a cancelled operation never emits a `done` event.
pub struct NameCollector {
    scorer: NameScorer,
    search_id: u64,
    limit: usize,
    pending: Vec<Candidate>,
    working: Vec<SearchResult>,
    total_scanned: usize,
}

impl NameCollector {
    pub closed spec fn search_id_spec(&self) -> u64 {
        self.search_id
    }

    pub closed spec fn limit_spec(&self) -> usize {
        self.limit
    }

    pub closed spec fn query_view(&self) -> Seq<char> {
        self.scorer.query_view()
    }

    pub closed spec fn pending_len(&self) -> nat {
        self.pending@.len()
    }

    pub closed spec fn working_len(&self) -> nat {
        self.working@.len()
    }

    pub closed spec fn pending_view(&self) -> Seq<Candidate> {
        self.pending@
    }

    pub closed spec fn total_scanned_spec(&self) -> usize {
        self.total_scanned
    }

    /// The collector's invariant: the result limit is clamped, the working
    /// set stays sorted best-first, bounded by twice the limit, with every
    /// entry carrying its name's score, and a batch never lingers full.
    pub closed spec fn wf(&self) -> bool {
        &&& 1 <= self.limit <= NAME_LIMIT_MAX
        &&& self.pending@.len() < NAME_BATCH_SIZE
        &&& sorted_desc(self.working@)
        &&& self.working@.len() <= 2 * self.limit
        &&& results_scored(self.working@, self.scorer.query_view())
    }

    /// How many candidates this collector has taken.
    pub fn total_scanned(&self) -> (r: usize)
        ensures
            r == self.total_scanned_spec(),
    {
        self.total_scanned
    }

    pub fn new(search_id: u64, query: &str, limit: usize) -> (r: NameCollector)
        requires
            1 <= limit <= NAME_LIMIT_MAX,
        ensures
            r.wf(),
            r.search_id_spec() == search_id,
            r.limit_spec() == limit,
            r.query_view() == query@,
            r.pending_len() == 0,
            r.total_scanned_spec() == 0,
    {
        NameCollector {
            scorer: NameScorer::new(query),
            search_id,
            limit,
            pending: Vec::new(),
            working: Vec::new(),
            total_scanned: 0,
        }
    }

    /// Score the gathered batch and fold it into the working set, keeping
    /// the working set sorted and capped at twice the limit.
    fn merge_pending(&mut self)
        requires
            1 <= old(self).limit_spec() <= NAME_LIMIT_MAX,
            sorted_desc(old(self).working_view()),
            old(self).working_len() <= 2 * old(self).limit_spec(),
            results_scored(old(self).working_view(), old(self).query_view()),
        ensures
            final(self).wf(),
            final(self).search_id_spec() == old(self).search_id_spec(),
            final(self).limit_spec() == old(self).limit_spec(),
            final(self).query_view() == old(self).query_view(),
            final(self).total_scanned_spec() == old(self).total_scanned_spec(),
            final(self).pending_len() == 0,
            exists|all: Seq<SearchResult>|
                {
                    &&& all.to_multiset() == (old(self).working_view() + scored_seq(
                        old(self).pending_view(),
                        old(self).query_view(),
                    )).to_multiset()
                    &&& sorted_desc(all)
                    &&& final(self).working_view() == all.take(
                        vstd::math::min(2 * old(self).limit_spec() as int, all.len() as int),
                    )
                },
    {
        broadcast use group_to_multiset_ensures;

        let ghost q = self.scorer.query_view();
        let mut pend: Vec<Candidate> = Vec::new();
        core::mem::swap(&mut pend, &mut self.pending);
        let ghost pend_view = pend@;
        let scored = score_candidates(&mut self.scorer, pend);
        proof {
            lemma_scored_seq_elements(pend_view, q);
            assert forall|i: int| 0 <= i < scored@.len() implies fuzzy_score_of(
                q,
                (#[trigger] scored@[i]).name@,
            ) == Some(scored@[i].score) by {
                assert(scored@.contains(scored@[i]));
            }
        }
        let mut combined: Vec<SearchResult> = Vec::new();
        core::mem::swap(&mut combined, &mut self.working);
        let ghost work_view = combined@;
        let ghost scored_view = scored@;
        let mut more = scored;
        while more.len() > 0
            invariant
                results_scored(combined@, q),
                results_scored(more@, q),
                combined@ + more@ == work_view + scored_view,
            decreases more@.len(),
        {
            let ghost more0 = more@;
            let ghost comb0 = combined@;
            let x = more.remove(0);
            proof {
                assert(more0[0] == x);
                assert(more@ =~= more0.remove(0));
                assert forall|i: int| 0 <= i < more@.len() implies fuzzy_score_of(
                    q,
                    (#[trigger] more@[i]).name@,
                ) == Some(more@[i].score) by {
                    assert(more@[i] == more0[i + 1]);
                }
            }
            combined.push(x);
            proof {
                assert forall|i: int| 0 <= i < combined@.len() implies fuzzy_score_of(
                    q,
                    (#[trigger] combined@[i]).name@,
                ) == Some(combined@[i].score) by {
                    if i < comb0.len() {
                        assert(combined@[i] == comb0[i]);
                    }
                }
                assert(combined@ + more@ =~= work_view + scored_view);
            }
        }
        let ghost comb_view = combined@;
        let mut sorted = sort_results_desc(combined);
        proof {
            assert forall|i: int| 0 <= i < sorted@.len() implies fuzzy_score_of(
                q,
                (#[trigger] sorted@[i]).name@,
            ) == Some(sorted@[i].score) by {
                assert(sorted@.contains(sorted@[i]));
                assert(sorted@.to_multiset().contains(sorted@[i]));
                assert(comb_view.to_multiset().contains(sorted@[i]));
                assert(comb_view.contains(sorted@[i]));
            }
        }
        let ghost all = sorted@;
        let cap: usize = 2 * self.limit;
        if sorted.len() > cap {
            let ghost before = sorted@;
            sorted.truncate(cap);
            proof {
                assert(sorted@ =~= before.take(cap as int));
            }
        } else {
            proof {
                assert(sorted@ =~= all.take(all.len() as int));
            }
        }
        self.working = sorted;
        proof {
            assert(combined@ + Seq::<SearchResult>::empty() == work_view + scored_view);
            assert(comb_view =~= work_view + scored_view);
            assert(all.to_multiset() == (work_view + scored_seq(pend_view, q)).to_multiset());
            assert(self.working@ == all.take(
                vstd::math::min(2 * self.limit as int, all.len() as int),
            ));
        }
    }

    /// A snapshot of the current best results: the top of the working set,
    /// at most `limit` entries, best first.
    fn snapshot_top(&self) -> (r: Vec<SearchResult>)
        requires
            self.wf(),
        ensures
            sorted_desc(r@),
            r@.len() == vstd::math::min(self.limit_spec() as int, self.working_len() as int),
            r@ == self.working_view().take(
                vstd::math::min(self.limit_spec() as int, self.working_len() as int),
            ),
            results_scored(r@, self.query_view()),
    {
        let keep: usize = if self.working.len() <= self.limit {
            self.working.len()
        } else {
            self.limit
        };
        let mut out: Vec<SearchResult> = Vec::new();
        let mut i: usize = 0;
        while i < keep
            invariant
                keep <= self.working@.len(),
                self.wf(),
                0 <= i <= keep,
                out@ =~= self.working@.take(i as int),
            decreases keep - i,
        {
            let item = clone_result(&self.working[i]);
            proof {
                assert(out@.push(item) =~= self.working@.take(i + 1));
            }
            out.push(item);
            i = i + 1;
        }
        proof {
            assert forall|a: int, b: int| 0 <= a < b < out@.len() implies (
            #[trigger] out@[a]).score >= (#[trigger] out@[b]).score by {
                assert(out@[a] == self.working@[a]);
                assert(out@[b] == self.working@[b]);
            }
            assert forall|i2: int| 0 <= i2 < out@.len() implies fuzzy_score_of(
                self.query_view(),
                (#[trigger] out@[i2]).name@,
            ) == Some(out@[i2].score) by {
                assert(out@[i2] == self.working@[i2]);
            }
        }
        out
    }

    /// The collector's exposed view of its working set.
    pub closed spec fn working_view(&self) -> Seq<SearchResult> {
        self.working@
    }

    /// Take one discovered candidate. At each batch boundary the batch is
    /// scored and merged, and a snapshot of the current best results is
    /// emitted — never marked `done`, and only when there is something to
    /// show.
    pub fn push(&mut self, c: Candidate) -> (r: Option<SearchResultsEvent>)
        requires
            old(self).wf(),
            old(self).total_scanned_spec() < usize::MAX,
        ensures
            final(self).wf(),
            final(self).search_id_spec() == old(self).search_id_spec(),
            final(self).limit_spec() == old(self).limit_spec(),
            final(self).query_view() == old(self).query_view(),
            final(self).total_scanned_spec() == old(self).total_scanned_spec() + 1,
            old(self).pending_len() + 1 < NAME_BATCH_SIZE ==> (r is None && final(self).pending_len() == old(self).pending_len() + 1),
            old(self).pending_len() + 1 == NAME_BATCH_SIZE ==> final(self).pending_len() == 0 && (
            r is Some <==> final(self).working_len() > 0),
            old(self).pending_len() + 1 == NAME_BATCH_SIZE ==> exists|all: Seq<SearchResult>|
                {
                    &&& all.to_multiset() == (old(self).working_view() + scored_seq(
                        old(self).pending_view().push(c),
                        old(self).query_view(),
                    )).to_multiset()
                    &&& sorted_desc(all)
                    &&& final(self).working_view() == all.take(
                        vstd::math::min(2 * old(self).limit_spec() as int, all.len() as int),
                    )
                },
            r matches Some(ev) ==> {
                &&& !ev.done
                &&& ev.search_id == old(self).search_id_spec()
                &&& ev.total_scanned == old(self).total_scanned_spec() + 1
                &&& sorted_desc(ev.results@)
                &&& 0 < ev.results@.len() <= old(self).limit_spec()
                &&& ev.results@ == final(self).working_view().take(
                    vstd::math::min(
                        old(self).limit_spec() as int,
                        final(self).working_len() as int,
                    ),
                )
                &&& results_scored(ev.results@, old(self).query_view())
            },
    {
        self.total_scanned = self.total_scanned + 1;
        self.pending.push(c);
        if self.pending.len() >= NAME_BATCH_SIZE {
            self.merge_pending();
            let top = self.snapshot_top();
            if top.len() == 0 {
                None
            } else {
                Some(
                    SearchResultsEvent {
                        search_id: self.search_id,
                        results: top,
                        done: false,
                        total_scanned: self.total_scanned,
                    },
                )
            }
        } else {
            None
        }
    }

    /// End the operation. A cancelled search emits nothing at all; a
    /// completed one merges what is left and emits exactly one terminal
    /// snapshot, marked `done`.
    pub fn finish(&mut self, cancelled: bool) -> (r: Option<SearchResultsEvent>)
        requires
            old(self).wf(),
        ensures
            final(self).wf(),
            r is Some <==> !cancelled,
            !cancelled ==> exists|all: Seq<SearchResult>|
                {
                    &&& all.to_multiset() == (old(self).working_view() + scored_seq(
                        old(self).pending_view(),
                        old(self).query_view(),
                    )).to_multiset()
                    &&& sorted_desc(all)
                    &&& final(self).working_view() == all.take(
                        vstd::math::min(2 * old(self).limit_spec() as int, all.len() as int),
                    )
                },
            r matches Some(ev) ==> {
                &&& ev.done
                &&& ev.search_id == old(self).search_id_spec()
                &&& ev.total_scanned == old(self).total_scanned_spec()
                &&& sorted_desc(ev.results@)
                &&& ev.results@.len() <= old(self).limit_spec()
                &&& ev.results@ == final(self).working_view().take(
                    vstd::math::min(
                        old(self).limit_spec() as int,
                        final(self).working_len() as int,
                    ),
                )
                &&& results_scored(ev.results@, old(self).query_view())
            },
    {
        if cancelled {
            return None;
        }
        self.merge_pending();
        let top = self.snapshot_top();
        Some(
            SearchResultsEvent {
                search_id: self.search_id,
                results: top,
                done: true,
                total_scanned: self.total_scanned,
            },
        )
    }
}

/// Start a streaming name search: validate, clamp the limit, register the
/// operation, and hand back the fresh identifier with the collector that
/// will drive it. An empty query is rejected before anything else; no
/// operation is registered on any validation error.
pub fn start_streaming_search(reg: &mut Registry, query: &str, root: &str, limit: usize) -> (r:
    Result<(u64, NameCollector), SearchError>)
    requires
        old(reg).well_formed(),
        old(reg).next_id() < u64::MAX,
    ensures
        final(reg).well_formed(),
        (r == Err::<(u64, NameCollector), SearchError>(SearchError::EmptyQuery)) <==> query@.len()
            == 0,
        r is Err ==> final(reg).ops() == old(reg).ops() && final(reg).next_id() == old(
            reg,
        ).next_id(),
        r matches Ok((id, col)) ==> {
            &&& id == old(reg).next_id()
            &&& final(reg).next_id() == old(reg).next_id() + 1
            &&& final(reg).ops() == old(reg).ops().insert(
                id,
                crate::registry::OperationState {
                    kind: OperationKind::NameSearch,
                    cancelled: false,
                },
            )
            &&& col.wf()
            &&& col.search_id_spec() == id
            &&& col.query_view() == query@
            &&& col.limit_spec() == spec_clamp_limit(limit, NAME_LIMIT_MAX)
            &&& col.total_scanned_spec() == 0
        },
{
    if query.unicode_len() == 0 {
        return Err(SearchError::EmptyQuery);
    }
    if !path_exists(root) {
        return Err(SearchError::NotFound);
    }
    if !path_is_dir(root) {
        return Err(SearchError::NotADirectory);
    }
    let limit = clamp_limit(limit, NAME_LIMIT_MAX);
    let id = reg.start(OperationKind::NameSearch);
    let col = NameCollector::new(id, query, limit);
    Ok((id, col))
}

} // verus!
