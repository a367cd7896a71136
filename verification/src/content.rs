//! Full-text content search: compiling a literal or raw pattern into a
//! line matcher, extracting the non-overlapping matches of a line, walking
//! the tree with ignore-file semantics, and the delta-batching collector.
use vstd::prelude::*;
use vstd::string::StrSliceExecFns;
use vstd::string::StringExecFns;
use vstd::utf8::encode_utf8;

use crate::config::{clamp_limit, spec_clamp_limit, CONTENT_BATCH_SIZE, CONTENT_RESULTS_MAX,
    MAX_MATCHES_PER_FILE, MAX_WALK_ENTRIES};
use crate::fsprobe::{path_exists, path_is_dir};
use crate::registry::{OperationKind, Registry};
use crate::textops::{extension_of, extension_spec, lower_of, lowercase, relative_spec,
    relative_to, str_eq, string_from_chars, trim_newline, trim_newline_spec};

verus! {

#[verifier::external_type_specification]
#[verifier::external_body]
pub struct ExRegexMatcher(grep_regex::RegexMatcher);

#[verifier::external_type_specification]
#[verifier::external_body]
pub struct ExGrepRegexError(grep_regex::Error);

/// What the compiled matcher finds in a haystack from a byte position on:
/// with a fixed configuration this depends only on the pattern text, its
/// case mode and the haystack. `Some((s, e))` is the span of the leftmost
/// match starting at or after the position.
pub uninterp spec fn regex_find_at(
    pattern: Seq<char>,
    case_insensitive: bool,
    haystack: Seq<u8>,
    at: int,
) -> Option<(int, int)>;

/// Whether a character carries meaning in a regular expression and is
/// escaped when a query is matched literally.
pub open spec fn is_regex_meta(c: char) -> bool {
    ||| c == '\\'
    ||| c == '.'
    ||| c == '+'
    ||| c == '*'
    ||| c == '?'
    ||| c == '('
    ||| c == ')'
    ||| c == '|'
    ||| c == '['
    ||| c == ']'
    ||| c == '{'
    ||| c == '}'
    ||| c == '^'
    ||| c == '$'
    ||| c == '#'
    ||| c == '&'
    ||| c == '-'
    ||| c == '~'
}

/// A query with every meta character escaped: the pattern that matches the
/// query text literally.
pub open spec fn escaped_spec(q: Seq<char>) -> Seq<char>
    decreases q.len(),
{
    if q.len() == 0 {
        Seq::empty()
    } else {
        escaped_spec(q.drop_last()) + (if is_regex_meta(q.last()) {
            seq!['\\', q.last()]
        } else {
            seq![q.last()]
        })
    }
}

/// Patterns no longer than this stay far below the regex engine's
/// compiled-size limit, so an escaped literal of this length always
/// compiles.
pub const MAX_LITERAL_PATTERN_LEN: usize = 65536;

/// Queries no longer than this escape to a pattern within
/// `MAX_LITERAL_PATTERN_LEN`.
pub const MAX_LITERAL_QUERY_LEN: usize = 32768;

/// Escaping at most doubles a query's length.
proof fn lemma_escaped_len(q: Seq<char>)
    ensures
        escaped_spec(q).len() <= 2 * q.len(),
    decreases q.len(),
{
    if q.len() > 0 {
        lemma_escaped_len(q.drop_last());
    }
}

/// Escaping never introduces a newline.
proof fn lemma_escaped_no_newline(q: Seq<char>)
    requires
        !q.contains('\n'),
    ensures
        !escaped_spec(q).contains('\n'),
    decreases q.len(),
{
    if q.len() > 0 {
        assert(!q.drop_last().contains('\n')) by {
            if q.drop_last().contains('\n') {
                let i = choose|i: int| 0 <= i < q.drop_last().len() && q.drop_last()[i] == '\n';
                assert(q[i] == '\n');
            }
        }
        lemma_escaped_no_newline(q.drop_last());
        assert(q.last() != '\n') by {
            assert(q[q.len() - 1] == q.last());
        }
        if escaped_spec(q).contains('\n') {
            let i = choose|i: int| 0 <= i < escaped_spec(q).len() && escaped_spec(q)[i] == '\n';
            let prev = escaped_spec(q.drop_last());
            if i < prev.len() {
                assert(prev.contains('\n'));
            }
        }
    }
}

/// Escape a query so it matches literally as a regular expression.
pub fn escape_literal(q: &str) -> (r: String)
    ensures
        r@ == escaped_spec(q@),
{
    let n = q.unicode_len();
    let mut out: Vec<char> = Vec::new();
    let mut i: usize = 0;
    while i < n
        invariant
            n == q@.len(),
            0 <= i <= n,
            out@ == escaped_spec(q@.take(i as int)),
        decreases n - i,
    {
        let c = q.get_char(i);
        let meta = c == '\\' || c == '.' || c == '+' || c == '*' || c == '?' || c == '(' || c
            == ')' || c == '|' || c == '[' || c == ']' || c == '{' || c == '}' || c == '^' || c
            == '$' || c == '#' || c == '&' || c == '-' || c == '~';
        proof {
            assert(meta == is_regex_meta(c));
            assert(q@.take(i as int + 1).drop_last() =~= q@.take(i as int));
            assert(q@.take(i as int + 1).last() == c);
        }
        if meta {
            out.push('\\');
            out.push(c);
            proof {
                assert(out@ =~= escaped_spec(q@.take(i as int + 1)));
            }
        } else {
            out.push(c);
            proof {
                assert(out@ =~= escaped_spec(q@.take(i as int + 1)));
            }
        }
        i = i + 1;
    }
    proof {
        assert(q@.take(n as int) =~= q@);
    }
    string_from_chars(out)
}

/// A compiled content matcher: the pattern text is always the one the
/// regex engine was handed, and the case mode records whether it was
/// compiled case-insensitively as a line matcher.
pub struct ContentMatcher {
    pattern: String,
    case_insensitive: bool,
    regex: grep_regex::RegexMatcher,
}

impl ContentMatcher {
    /// The pattern the regex field was compiled from.
    pub closed spec fn pattern_view(&self) -> Seq<char> {
        self.pattern@
    }

    /// Whether matching folds case.
    pub closed spec fn ci(&self) -> bool {
        self.case_insensitive
    }
}

/// A matcher built from the given query in literal, case-sensitive mode.
pub open spec fn literal_matcher(m: ContentMatcher, q: Seq<char>) -> bool {
    !m.ci() && m.pattern_view() == escaped_spec(q)
}

/// Relies on `grep_regex::RegexMatcher::new`: compiles the pattern with the
/// default, case-sensitive configuration; it errors exactly on patterns the
/// regex engine rejects — invalid syntax, or a compiled size past the
/// engine's limit, which only patterns of many megabytes reach. A pattern
/// in escaped-literal shape and within `MAX_LITERAL_PATTERN_LEN` is always
/// accepted.
#[verifier::external_body]
fn compile_case_sensitive(pattern: &str) -> (r: Result<ContentMatcher, grep_regex::Error>)
    ensures
        r matches Ok(m) ==> m.pattern_view() == pattern@ && !m.ci(),
        ((exists|q: Seq<char>| pattern@ == #[trigger] escaped_spec(q)) && pattern@.len()
            <= MAX_LITERAL_PATTERN_LEN) ==> r is Ok,
{
    match grep_regex::RegexMatcher::new(pattern) {
        Ok(regex) => Ok(
            ContentMatcher { pattern: pattern.to_string(), case_insensitive: false, regex },
        ),
        Err(e) => Err(e),
    }
}

/// Relies on `grep_regex::RegexMatcher::new_line_matcher` on the pattern
/// prefixed with `(?i)`: compiles it case-insensitively with line-oriented
/// optimizations; it errors on patterns the engine rejects — invalid
/// syntax, a literal newline, or a compiled size past the engine's limit,
/// which only patterns of many megabytes reach. An escaped-literal pattern
/// without a newline and within `MAX_LITERAL_PATTERN_LEN` is always
/// accepted.
#[verifier::external_body]
fn compile_case_insensitive(pattern: &str) -> (r: Result<ContentMatcher, grep_regex::Error>)
    ensures
        r matches Ok(m) ==> m.pattern_view() == pattern@ && m.ci(),
        ((exists|q: Seq<char>| pattern@ == #[trigger] escaped_spec(q)) && !pattern@.contains('\n')
            && pattern@.len() <= MAX_LITERAL_PATTERN_LEN) ==> r is Ok,
{
    match grep_regex::RegexMatcher::new_line_matcher(&format!("(?i){}", pattern)) {
        Ok(regex) => Ok(
            ContentMatcher { pattern: pattern.to_string(), case_insensitive: true, regex },
        ),
        Err(e) => Err(e),
    }
}

/// Relies on the `Display` of `grep_regex::Error` for the message handed to
/// callers of a failed compilation.
#[verifier::external_body]
fn regex_error_message(e: &grep_regex::Error) -> String {
    e.to_string()
}

/// Whether the literal occurs in the haystack at this byte position.
pub open spec fn occurs_at(lit: Seq<u8>, hay: Seq<u8>, i: int) -> bool {
    0 <= i && i + lit.len() <= hay.len() && hay.subrange(i, i + lit.len()) == lit
}

/// The span of the leftmost occurrence of the literal at or after `at`.
pub open spec fn leftmost_find(lit: Seq<u8>, hay: Seq<u8>, at: int) -> Option<(int, int)>
    decreases hay.len() - at + 1,
{
    if at < 0 || at + lit.len() > hay.len() {
        None
    } else if hay.subrange(at, at + lit.len()) == lit {
        Some((at, at + lit.len()))
    } else {
        leftmost_find(lit, hay, at + 1)
    }
}

/// What `leftmost_find` returns is the first occurrence, exactly.
pub proof fn lemma_leftmost_find_props(lit: Seq<u8>, hay: Seq<u8>, at: int)
    requires
        0 <= at,
    ensures
        match leftmost_find(lit, hay, at) {
            Some(span) => {
                &&& at <= span.0
                &&& span.1 == span.0 + lit.len()
                &&& occurs_at(lit, hay, span.0)
                &&& forall|i: int| at <= i < span.0 ==> !occurs_at(lit, hay, i)
            },
            None => forall|i: int| at <= i ==> !occurs_at(lit, hay, i),
        },
    decreases hay.len() - at + 1,
{
    if at + lit.len() > hay.len() {
        assert forall|i: int| at <= i implies !occurs_at(lit, hay, i) by {}
    } else if hay.subrange(at, at + lit.len()) == lit {
    } else {
        lemma_leftmost_find_props(lit, hay, at + 1);
    }
}

/// The view of an executable match span.
pub open spec fn span_view(r: Option<(usize, usize)>) -> Option<(int, int)> {
    match r {
        Some((s, e)) => Some((s as int, e as int)),
        None => None,
    }
}

/// Relies on `grep_matcher::Matcher::find_at` for `grep_regex::RegexMatcher`
/// (whose find never errors): the leftmost match at or after `at`, a
/// function of the compiled pattern, its case mode and the haystack; a
/// reported span lies between `at` and the end of the haystack; and a
/// matcher compiled case-sensitively from an escaped literal finds exactly
/// the leftmost occurrence of the literal's bytes.
#[verifier::external_body]
fn find_at(m: &ContentMatcher, haystack: &[u8], at: usize) -> (r: Option<(usize, usize)>)
    requires
        at <= haystack@.len(),
    ensures
        span_view(r) == regex_find_at(m.pattern_view(), m.ci(), haystack@, at as int),
        r matches Some((s, e)) ==> at <= s <= e <= haystack@.len(),
        forall|q: Seq<char>| #[trigger] literal_matcher(*m, q) ==> span_view(r) == leftmost_find(
            encode_utf8(q),
            haystack@,
            at as int,
        ),
{
    match grep_matcher::Matcher::find_at(&m.regex, haystack, at) {
        Ok(Some(found)) => Some((found.start(), found.end())),
        _ => None,
    }
}

/// A single match within a file's line.
#[derive(Debug, Clone)]
pub struct ContentMatch {
    pub line_number: u64,
    pub column: u64,
    pub line_content: String,
    pub match_start: usize,
    pub match_end: usize,
}

/// All matches found in one file.
#[derive(Debug, Clone)]
pub struct ContentSearchResult {
    pub path: String,
    pub relative_path: String,
    pub matches: Vec<ContentMatch>,
}

/// One streamed batch of content-search results: a delta, never repeating
/// a file across batches.
#[derive(Debug, Clone)]
pub struct ContentSearchEvent {
    pub search_id: u64,
    pub results: Vec<ContentSearchResult>,
    pub done: bool,
    pub files_searched: usize,
    pub total_matches: usize,
}

/// The one-based column of a match, saturated at the type's ceiling.
pub open spec fn column_for(start: usize) -> u64 {
    if start as int + 1 <= u64::MAX as int {
        (start + 1) as u64
    } else {
        u64::MAX
    }
}

/// The end of the previous match: where the next search starts.
pub open spec fn prev_end(out: Seq<ContentMatch>, k: int) -> int {
    if k == 0 {
        0
    } else {
        out[k - 1].match_end as int
    }
}

/// The span of a match as the matcher reported it.
pub open spec fn match_span(cm: ContentMatch) -> (int, int) {
    (cm.match_start as int, cm.match_end as int)
}

/// The first non-empty match at or after `at`. Zero-width matches are
/// never reported: the scan steps past each one, a byte at a time, until a
/// real span or the end of the haystack.
pub open spec fn nonempty_find_at(
    pattern: Seq<char>,
    ci: bool,
    hay: Seq<u8>,
    at: int,
) -> Option<(int, int)>
    decreases hay.len() - at + 1,
{
    if at < 0 || at > hay.len() {
        None
    } else {
        match regex_find_at(pattern, ci, hay, at) {
            None => None,
            Some(span) => if span.0 < span.1 {
                Some(span)
            } else if at >= hay.len() {
                None
            } else {
                nonempty_find_at(pattern, ci, hay, at + 1)
            },
        }
    }
}

/// Each match is exactly the first non-empty match the matcher finds after
/// the previous one: the non-overlapping left-to-right scan of the line.
pub open spec fn chain_links(
    pattern: Seq<char>,
    ci: bool,
    hay: Seq<u8>,
    out: Seq<ContentMatch>,
) -> bool {
    forall|k: int| 0 <= k < out.len() ==> nonempty_find_at(pattern, ci, hay, prev_end(out, k))
        == Some(#[trigger] match_span(out[k]))
}

/// The scan ended because the line holds no further non-empty match.
pub open spec fn chain_exhausted(
    pattern: Seq<char>,
    ci: bool,
    hay: Seq<u8>,
    out: Seq<ContentMatch>,
) -> bool {
    if out.len() == 0 {
        nonempty_find_at(pattern, ci, hay, 0) is None
    } else {
        out.last().match_end >= hay.len() || nonempty_find_at(
            pattern,
            ci,
            hay,
            out.last().match_end as int,
        ) is None
    }
}

/// `chain_links`, for a literal query: each span is the leftmost occurrence
/// of the literal's bytes after the previous match.
pub open spec fn literal_links(lit: Seq<u8>, hay: Seq<u8>, out: Seq<ContentMatch>) -> bool {
    forall|k: int| 0 <= k < out.len() ==> leftmost_find(lit, hay, prev_end(out, k)) == Some(
        #[trigger] match_span(out[k]),
    )
}

pub open spec fn literal_exhausted(lit: Seq<u8>, hay: Seq<u8>, out: Seq<ContentMatch>) -> bool {
    if out.len() == 0 {
        leftmost_find(lit, hay, 0) is None
    } else {
        out.last().match_end >= hay.len() || leftmost_find(
            lit,
            hay,
            out.last().match_end as int,
        ) is None
    }
}

/// The bytes a line is scanned over: its text trimmed of the terminator,
/// exactly what `line_content` reports.
pub open spec fn line_bytes(line: Seq<char>) -> Seq<u8> {
    encode_utf8(trim_newline_spec(line))
}

/// The facts every reported match of a line satisfies: a strict, in-bounds
/// span within the trimmed text, its saturated one-based column, and the
/// line's text trimmed of its terminator only.
pub open spec fn line_match_wf(cm: ContentMatch, line: Seq<char>, line_number: u64) -> bool {
    &&& cm.line_number == line_number
    &&& cm.line_content@ == trim_newline_spec(line)
    &&& cm.column == column_for(cm.match_start)
    &&& cm.match_start < cm.match_end <= line_bytes(line).len()
}

/// Matches never overlap and run left to right: each starts at or after
/// the end of the previous one.
pub open spec fn matches_ordered(out: Seq<ContentMatch>) -> bool {
    forall|k: int| 0 <= k < out.len() ==> prev_end(out, k) <= (#[trigger] out[k]).match_start as int
}

/// A non-empty text encodes to at least one byte.
proof fn lemma_encode_utf8_nonempty(q: Seq<char>)
    requires
        q.len() > 0,
    ensures
        encode_utf8(q).len() > 0,
{
    assert(encode_utf8(q) == vstd::utf8::encode_scalar(q[0] as u32) + encode_utf8(
        q.drop_first(),
    ));
    assert(vstd::utf8::encode_scalar(q[0] as u32).len() >= 1);
}

/// Scan one line left to right, collecting at most `budget` non-empty,
/// non-overlapping matches over the newline-trimmed text: each is exactly
/// the first non-empty match after the end of the previous one —
/// zero-width matches are stepped past, never reported — and when fewer
/// than `budget` come back the line holds no further non-empty match. For
/// a non-empty literal, case-sensitive query the spans are exactly the
/// leftmost non-overlapping occurrences of the query's bytes.
#[verifier::rlimit(60)]
pub fn find_line_matches(m: &ContentMatcher, line: &str, line_number: u64, budget: usize) -> (r:
    Vec<ContentMatch>)
    ensures
        r@.len() <= budget,
        forall|k: int| 0 <= k < r@.len() ==> line_match_wf(#[trigger] r@[k], line@, line_number),
        matches_ordered(r@),
        chain_links(m.pattern_view(), m.ci(), line_bytes(line@), r@),
        r@.len() < budget ==> chain_exhausted(m.pattern_view(), m.ci(), line_bytes(line@), r@),
        forall|q: Seq<char>| #[trigger] literal_matcher(*m, q) && q.len() > 0 ==> literal_links(
            encode_utf8(q),
            line_bytes(line@),
            r@,
        ) && (r@.len() < budget ==> literal_exhausted(encode_utf8(q), line_bytes(line@), r@)),
{
    let trimmed = trim_newline(line);
    let bytes: &[u8] = trimmed.as_str().as_bytes();
    let n = bytes.len();
    let ghost hay = line_bytes(line@);
    proof {
        assert(bytes@ == hay);
    }
    let ghost p = m.pattern_view();
    let ghost ci = m.ci();
    let mut out: Vec<ContentMatch> = Vec::new();
    let mut offset: usize = 0;
    loop
        invariant_except_break
            offset <= n,
            offset as int >= prev_end(out@, out@.len() as int),
            nonempty_find_at(p, ci, hay, prev_end(out@, out@.len() as int)) == nonempty_find_at(
                p,
                ci,
                hay,
                offset as int,
            ),
            forall|q: Seq<char>| #[trigger] literal_matcher(*m, q) && q.len() > 0 ==> offset as int
                == prev_end(out@, out@.len() as int),
        invariant
            n == hay.len(),
            bytes@ == hay,
            hay == line_bytes(line@),
            trimmed@ == trim_newline_spec(line@),
            p == m.pattern_view(),
            ci == m.ci(),
            out@.len() <= budget,
            forall|k: int| 0 <= k < out@.len() ==> line_match_wf(
                #[trigger] out@[k],
                line@,
                line_number,
            ),
            matches_ordered(out@),
            chain_links(p, ci, hay, out@),
            forall|q: Seq<char>| #[trigger] literal_matcher(*m, q) && q.len() > 0
                ==> literal_links(encode_utf8(q), hay, out@),
        ensures
            out@.len() == budget || chain_exhausted(p, ci, hay, out@),
            forall|q: Seq<char>| #[trigger] literal_matcher(*m, q) && q.len() > 0 ==> (out@.len()
                == budget || literal_exhausted(encode_utf8(q), hay, out@)),
        decreases budget - out@.len(), n - offset,
    {
        if out.len() >= budget {
            break ;
        }
        let found = find_at(m, bytes, offset);
        match found {
            None => {
                break ;
            },
            Some((s, e)) => {
                if s >= e {
                    // A zero-width match: step past it, never report it.
                    proof {
                        assert forall|q: Seq<char>| #[trigger] literal_matcher(*m, q) && q.len()
                            > 0 implies false by {
                            lemma_leftmost_find_props(encode_utf8(q), hay, offset as int);
                            lemma_encode_utf8_nonempty(q);
                        }
                    }
                    if offset >= n {
                        break ;
                    }
                    offset = offset + 1;
                } else {
                    let ghost out0 = out@;
                    let column: u64 = if s as u64 == u64::MAX {
                        u64::MAX
                    } else {
                        s as u64 + 1
                    };
                    let cm = ContentMatch {
                        line_number,
                        column,
                        line_content: trimmed.clone(),
                        match_start: s,
                        match_end: e,
                    };
                    proof {
                        assert(column == column_for(s));
                        assert(nonempty_find_at(p, ci, hay, offset as int) == Some(
                            (s as int, e as int),
                        ));
                    }
                    out.push(cm);
                    proof {
                        assert(out@ =~= out0.push(cm));
                        assert forall|k: int| 0 <= k < out@.len() implies nonempty_find_at(
                            p,
                            ci,
                            hay,
                            prev_end(out@, k),
                        ) == Some(#[trigger] match_span(out@[k])) by {
                            if k < out0.len() {
                                assert(out@[k] == out0[k]);
                                assert(prev_end(out@, k) == prev_end(out0, k));
                            } else {
                                assert(prev_end(out@, k) == prev_end(out0, out0.len() as int));
                            }
                        }
                        assert forall|k: int| 0 <= k < out@.len() implies prev_end(out@, k) <= (
                        #[trigger] out@[k]).match_start as int by {
                            if k < out0.len() {
                                assert(out@[k] == out0[k]);
                                assert(prev_end(out@, k) == prev_end(out0, k));
                            } else {
                                assert(prev_end(out@, k) == prev_end(out0, out0.len() as int));
                            }
                        }
                        assert forall|q: Seq<char>| #[trigger] literal_matcher(*m, q) && q.len()
                            > 0 implies (literal_links(encode_utf8(q), hay, out@) && e as int
                            == prev_end(out@, out@.len() as int)) by {
                            assert(offset as int == prev_end(out0, out0.len() as int));
                            assert forall|k: int| 0 <= k < out@.len() implies leftmost_find(
                                encode_utf8(q),
                                hay,
                                prev_end(out@, k),
                            ) == Some(#[trigger] match_span(out@[k])) by {
                                if k < out0.len() {
                                    assert(out@[k] == out0[k]);
                                    assert(prev_end(out@, k) == prev_end(out0, k));
                                    assert(literal_links(encode_utf8(q), hay, out0));
                                } else {
                                    assert(prev_end(out@, k) == offset as int);
                                }
                            }
                        }
                    }
                    if e >= n {
                        break ;
                    }
                    offset = e;
                }
            },
        }
    }
    out
}

/// Extensions treated as binary and never content-searched.
pub open spec fn is_binary_ext(e: Seq<char>) -> bool {
    ||| e == "exe"@
    ||| e == "dll"@
    ||| e == "so"@
    ||| e == "dylib"@
    ||| e == "bin"@
    ||| e == "o"@
    ||| e == "a"@
    ||| e == "lib"@
    ||| e == "obj"@
    ||| e == "class"@
    ||| e == "jar"@
    ||| e == "war"@
    ||| e == "ear"@
    ||| e == "zip"@
    ||| e == "tar"@
    ||| e == "gz"@
    ||| e == "bz2"@
    ||| e == "xz"@
    ||| e == "7z"@
    ||| e == "rar"@
    ||| e == "iso"@
    ||| e == "dmg"@
    ||| e == "img"@
    ||| e == "pdf"@
    ||| e == "doc"@
    ||| e == "docx"@
    ||| e == "xls"@
    ||| e == "xlsx"@
    ||| e == "ppt"@
    ||| e == "pptx"@
    ||| e == "odt"@
    ||| e == "ods"@
    ||| e == "odp"@
    ||| e == "png"@
    ||| e == "jpg"@
    ||| e == "jpeg"@
    ||| e == "gif"@
    ||| e == "bmp"@
    ||| e == "ico"@
    ||| e == "svg"@
    ||| e == "webp"@
    ||| e == "mp3"@
    ||| e == "mp4"@
    ||| e == "avi"@
    ||| e == "mkv"@
    ||| e == "mov"@
    ||| e == "wmv"@
    ||| e == "flv"@
    ||| e == "wav"@
    ||| e == "flac"@
    ||| e == "ogg"@
    ||| e == "woff"@
    ||| e == "woff2"@
    ||| e == "ttf"@
    ||| e == "otf"@
    ||| e == "eot"@
    ||| e == "pyc"@
    ||| e == "pyo"@
    ||| e == "wasm"@
    ||| e == "node"@
}

/// Whether a path looks binary, judged by its lowercased extension.
pub open spec fn spec_is_binary_file(path: Seq<char>) -> bool {
    match extension_spec(path) {
        Some(e) => is_binary_ext(lower_of(e)),
        None => false,
    }
}

/// Simple heuristic to detect binary files by extension.
pub fn is_binary_file(path: &str) -> (r: bool)
    ensures
        r == spec_is_binary_file(path@),
{
    match extension_of(path) {
        Some(e) => {
            let l = lowercase(e.as_str());
            let s = l.as_str();
            str_eq(s, "exe") || str_eq(s, "dll") || str_eq(s, "so") || str_eq(s, "dylib")
                || str_eq(s, "bin") || str_eq(s, "o") || str_eq(s, "a") || str_eq(s, "lib")
                || str_eq(s, "obj") || str_eq(s, "class") || str_eq(s, "jar") || str_eq(s, "war")
                || str_eq(s, "ear") || str_eq(s, "zip") || str_eq(s, "tar") || str_eq(s, "gz")
                || str_eq(s, "bz2") || str_eq(s, "xz") || str_eq(s, "7z") || str_eq(s, "rar")
                || str_eq(s, "iso") || str_eq(s, "dmg") || str_eq(s, "img") || str_eq(s, "pdf")
                || str_eq(s, "doc") || str_eq(s, "docx") || str_eq(s, "xls") || str_eq(s, "xlsx")
                || str_eq(s, "ppt") || str_eq(s, "pptx") || str_eq(s, "odt") || str_eq(s, "ods")
                || str_eq(s, "odp") || str_eq(s, "png") || str_eq(s, "jpg") || str_eq(s, "jpeg")
                || str_eq(s, "gif") || str_eq(s, "bmp") || str_eq(s, "ico") || str_eq(s, "svg")
                || str_eq(s, "webp") || str_eq(s, "mp3") || str_eq(s, "mp4") || str_eq(s, "avi")
                || str_eq(s, "mkv") || str_eq(s, "mov") || str_eq(s, "wmv") || str_eq(s, "flv")
                || str_eq(s, "wav") || str_eq(s, "flac") || str_eq(s, "ogg") || str_eq(s, "woff")
                || str_eq(s, "woff2") || str_eq(s, "ttf") || str_eq(s, "otf") || str_eq(s, "eot")
                || str_eq(s, "pyc") || str_eq(s, "pyo") || str_eq(s, "wasm") || str_eq(s, "node")
        },
        None => false,
    }
}

/// Whether the line sink keeps collecting.
pub fn keep_scanning(collected: usize, cap: usize) -> (r: bool)
    ensures
        r == (collected < cap),
{
    collected < cap
}

/// Relies on `ignore::WalkBuilder`: a sequential walk of the tree under
/// `root`, skipping hidden entries and honoring ignore rules (git ignore,
/// global and exclude files), yielding at most `max` entries as
/// (path, is-directory) pairs. Erroring entries are skipped. Beyond the
/// length bound nothing is promised: what comes back depends on the disk,
/// and even the hidden-entry pruning can be overridden by a whitelist rule
/// read from an ignore file, so no fact about the yielded names holds of
/// every outcome.
#[verifier::external_body]
fn walk_files(root: &str, max: usize) -> (r: Vec<(String, bool)>)
    ensures
        r@.len() <= max,
{
    let walker = ignore::WalkBuilder::new(root).hidden(true).git_ignore(true).git_global(
        true,
    ).git_exclude(true).build();
    let mut out: Vec<(String, bool)> = Vec::new();
    for entry in walker.take(max) {
        let Ok(e) = entry else { continue };
        let is_dir = e.file_type().map_or(false, |t| t.is_dir());
        out.push((e.path().to_string_lossy().to_string(), is_dir));
    }
    out
}

/// Relies on `grep_searcher::Searcher::search_path` with a UTF8 sink: hands
/// back the matching lines of the file, in file order, as (line number,
/// line text with terminator) pairs, at most `cap` of them; the closure
/// only gathers what the searcher reports. What comes back depends on the
/// disk; a file that cannot be read yields nothing.
#[verifier::external_body]
fn search_file_lines(m: &ContentMatcher, path: &str, cap: usize) -> (r: Vec<(u64, String)>)
    ensures
        r@.len() <= cap,
{
    let mut out: Vec<(u64, String)> = Vec::new();
    let mut searcher = grep_searcher::Searcher::new();
    let _ = searcher.search_path(&m.regex, std::path::Path::new(path), grep_searcher::sinks::UTF8(|n, l| {
        if keep_scanning(out.len(), cap) { out.push((n, l.to_string())); }
        Ok(keep_scanning(out.len(), cap))
    }));
    out
}

/// The ceiling one file's scan honors: the per-file limit or what is left
/// of the operation's budget, whichever is smaller.
pub open spec fn spec_file_budget(file_cap: usize, global_remaining: usize) -> int {
    vstd::math::min(file_cap as int, global_remaining as int)
}

/// One scanned line's contribution to a file's matches: exactly the line's
/// non-overlapping match chain, cut to the budget that was left when the
/// line was reached, and exhaustive when the budget did not cut it.
pub open spec fn group_for_line(
    m: ContentMatcher,
    entry: (u64, String),
    g: Seq<ContentMatch>,
    budget: int,
) -> bool {
    &&& g.len() <= budget
    &&& (forall|k: int| 0 <= k < g.len() ==> line_match_wf(#[trigger] g[k], entry.1@, entry.0))
    &&& matches_ordered(g)
    &&& chain_links(m.pattern_view(), m.ci(), line_bytes(entry.1@), g)
    &&& (g.len() < budget ==> chain_exhausted(m.pattern_view(), m.ci(), line_bytes(entry.1@), g))
}

/// Gather the matches of one file's lines, scanning each line in order:
/// the result is the concatenation of one match chain per scanned line —
/// a prefix of the lines — and the scan leaves a line unvisited only with
/// the budget already spent.
pub fn collect_file_matches(
    m: &ContentMatcher,
    lines: Vec<(u64, String)>,
    file_cap: usize,
    global_remaining: usize,
) -> (r: Vec<ContentMatch>)
    ensures
        r@.len() <= file_cap,
        r@.len() <= global_remaining,
        forall|k: int| 0 <= k < r@.len() ==> (#[trigger] r@[k]).match_start < r@[k].match_end && r@[
            k
        ].column == column_for(r@[k].match_start),
        exists|groups: Seq<Seq<ContentMatch>>|
            {
                &&& groups.len() <= lines@.len()
                &&& r@ == groups.flatten()
                &&& (forall|j: int| 0 <= j < groups.len() ==> group_for_line(
                    *m,
                    lines@[j],
                    #[trigger] groups[j],
                    spec_file_budget(file_cap, global_remaining) - groups.take(j).flatten().len(),
                ))
                &&& (groups.len() < lines@.len() ==> r@.len() == spec_file_budget(
                    file_cap,
                    global_remaining,
                ))
            },
{
    let cap: usize = if file_cap <= global_remaining {
        file_cap
    } else {
        global_remaining
    };
    proof {
        assert(cap as int == spec_file_budget(file_cap, global_remaining));
    }
    let mut out: Vec<ContentMatch> = Vec::new();
    let ghost mut groups: Seq<Seq<ContentMatch>> = Seq::empty();
    let n = lines.len();
    let mut j: usize = 0;
    proof {
        assert(groups.flatten() =~= Seq::<ContentMatch>::empty());
    }
    loop
        invariant
            n == lines@.len(),
            0 <= j <= n,
            cap as int == spec_file_budget(file_cap, global_remaining),
            out@.len() <= cap,
            groups.len() == j,
            out@ == groups.flatten(),
            forall|k: int| 0 <= k < out@.len() ==> (#[trigger] out@[k]).match_start
                < out@[k].match_end && out@[k].column == column_for(out@[k].match_start),
            forall|i: int| 0 <= i < groups.len() ==> group_for_line(
                *m,
                lines@[i],
                #[trigger] groups[i],
                cap - groups.take(i).flatten().len(),
            ),
        ensures
            groups.len() == n || out@.len() == cap,
        decreases n - j,
    {
        if j >= n {
            break ;
        }
        if out.len() >= cap {
            break ;
        }
        let entry = &lines[j];
        let num: u64 = entry.0;
        let budget = cap - out.len();
        let mut found = find_line_matches(m, entry.1.as_str(), num, budget);
        let ghost found_view = found@;
        let ghost groups0 = groups;
        let ghost out0 = out@;
        proof {
            groups = groups.push(found_view);
            Seq::lemma_flatten_push(groups0, found_view);
            assert(groups.flatten() =~= out0 + found_view);
            assert(groups.take(j as int) =~= groups0);
            assert(group_for_line(*m, lines@[j as int], found_view, cap - out0.len())) by {
                assert forall|k: int| 0 <= k < found_view.len() implies line_match_wf(
                    #[trigger] found_view[k],
                    lines@[j as int].1@,
                    lines@[j as int].0,
                ) by {
                    assert(line_match_wf(found_view[k], entry.1@, num));
                }
            }
            assert forall|i: int| 0 <= i < groups.len() implies group_for_line(
                *m,
                lines@[i],
                #[trigger] groups[i],
                cap - groups.take(i).flatten().len(),
            ) by {
                if i < groups0.len() {
                    assert(groups[i] == groups0[i]);
                    assert(groups.take(i) =~= groups0.take(i));
                } else {
                    assert(groups[i] == found_view);
                    assert(groups.take(i) =~= groups0);
                }
            }
        }
        out.append(&mut found);
        proof {
            assert(out@ == groups.flatten());
            assert forall|k: int| 0 <= k < out@.len() implies (#[trigger] out@[k]).match_start
                < out@[k].match_end && out@[k].column == column_for(out@[k].match_start) by {
                if k < out0.len() {
                    assert(out@[k] == out0[k]);
                } else {
                    assert(out@[k] == found_view[k - out0.len()]);
                    assert(line_match_wf(found_view[k - out0.len()], entry.1@, num));
                }
            }
        }
        j = j + 1;
    }
    proof {
        if groups.len() < lines@.len() {
            assert(out@.len() == cap);
        }
    }
    out
}

/// The validation errors of a content search.
#[derive(Debug, Clone)]
pub enum ContentError {
    NotFound,
    NotADirectory,
    EmptyQuery,
    InvalidPattern(String),
}

impl ContentMatcher {
    /// Compile a content matcher. A literal query is escaped so the
    /// pattern matches it verbatim; a case-insensitive matcher folds case
    /// without changing what lines report. An escaped literal of workable
    /// length always compiles, except case-insensitively on a query
    /// holding a newline.
    pub fn new(query: &str, case_sensitive: bool, regex_mode: bool) -> (r: Result<
        ContentMatcher,
        String,
    >)
        ensures
            r matches Ok(m) ==> {
                &&& m.pattern_view() == (if regex_mode {
                    query@
                } else {
                    escaped_spec(query@)
                })
                &&& m.ci() == !case_sensitive
            },
            (!regex_mode && case_sensitive && query@.len() <= MAX_LITERAL_QUERY_LEN) ==> r is Ok,
            (!regex_mode && !query@.contains('\n') && query@.len() <= MAX_LITERAL_QUERY_LEN)
                ==> r is Ok,
    {
        let pattern: String = if regex_mode {
            String::from_str(query)
        } else {
            escape_literal(query)
        };
        proof {
            if !regex_mode {
                assert(pattern@ == escaped_spec(query@));
                lemma_escaped_len(query@);
                if !query@.contains('\n') {
                    lemma_escaped_no_newline(query@);
                    assert(!pattern@.contains('\n'));
                }
            }
        }
        if case_sensitive {
            match compile_case_sensitive(pattern.as_str()) {
                Ok(m) => Ok(m),
                Err(e) => Err(regex_error_message(&e)),
            }
        } else {
            match compile_case_insensitive(pattern.as_str()) {
                Ok(m) => Ok(m),
                Err(e) => Err(regex_error_message(&e)),
            }
        }
    }
}

/// The collector of a content search: whole per-file results accumulate
/// and are flushed as delta batches of a fixed size; no file is repeated
/// across batches. The final flush carries the remainder and `done`, and
/// is suppressed entirely when cancellation was observed. The cumulative
/// match count never passes the clamped result ceiling.
pub struct ContentCollector {
    search_id: u64,
    max_results: usize,
    pending: Vec<ContentSearchResult>,
    files_searched: usize,
    total_matches: usize,
}

impl ContentCollector {
    pub closed spec fn search_id_spec(&self) -> u64 {
        self.search_id
    }

    pub closed spec fn max_results_spec(&self) -> usize {
        self.max_results
    }

    pub closed spec fn pending_view(&self) -> Seq<ContentSearchResult> {
        self.pending@
    }

    pub closed spec fn files_searched_spec(&self) -> usize {
        self.files_searched
    }

    pub closed spec fn total_matches_spec(&self) -> usize {
        self.total_matches
    }

    pub closed spec fn wf(&self) -> bool {
        &&& 1 <= self.max_results <= CONTENT_RESULTS_MAX
        &&& self.total_matches <= self.max_results
        &&& self.pending@.len() < CONTENT_BATCH_SIZE
        &&& forall|j: int| 0 <= j < self.pending@.len() ==> 1 <= (
        #[trigger] self.pending@[j]).matches@.len() <= MAX_MATCHES_PER_FILE
    }

    pub fn new(search_id: u64, max_results: usize) -> (r: ContentCollector)
        requires
            1 <= max_results <= CONTENT_RESULTS_MAX,
        ensures
            r.wf(),
            r.search_id_spec() == search_id,
            r.max_results_spec() == max_results,
            r.pending_view() == Seq::<ContentSearchResult>::empty(),
            r.files_searched_spec() == 0,
            r.total_matches_spec() == 0,
    {
        ContentCollector {
            search_id,
            max_results,
            pending: Vec::new(),
            files_searched: 0,
            total_matches: 0,
        }
    }

    /// How many more matches the operation may still count.
    pub fn remaining(&self) -> (r: usize)
        requires
            self.wf(),
        ensures
            r == self.max_results_spec() - self.total_matches_spec(),
    {
        self.max_results - self.total_matches
    }

    /// How many files this collector has seen searched.
    pub fn files_searched(&self) -> (r: usize)
        ensures
            r == self.files_searched_spec(),
    {
        self.files_searched
    }

    /// Record that one more file was searched.
    pub fn note_file_searched(&mut self)
        requires
            old(self).wf(),
            old(self).files_searched_spec() < usize::MAX,
        ensures
            final(self).wf(),
            final(self).search_id_spec() == old(self).search_id_spec(),
            final(self).max_results_spec() == old(self).max_results_spec(),
            final(self).pending_view() == old(self).pending_view(),
            final(self).files_searched_spec() == old(self).files_searched_spec() + 1,
            final(self).total_matches_spec() == old(self).total_matches_spec(),
    {
        self.files_searched = self.files_searched + 1;
    }

    /// Take one file's completed result — a real one, within the per-file
    /// ceiling. The batch flushes as soon as it holds a fixed number of
    /// files; a flushed event is a delta carrying exactly the accumulated
    /// files, never marked `done`.
    pub fn push_file(&mut self, result: ContentSearchResult) -> (r: Option<ContentSearchEvent>)
        requires
            old(self).wf(),
            1 <= result.matches@.len() <= MAX_MATCHES_PER_FILE,
            old(self).total_matches_spec() + result.matches@.len() <= old(
                self,
            ).max_results_spec(),
        ensures
            final(self).wf(),
            final(self).search_id_spec() == old(self).search_id_spec(),
            final(self).max_results_spec() == old(self).max_results_spec(),
            final(self).files_searched_spec() == old(self).files_searched_spec(),
            final(self).total_matches_spec() == old(self).total_matches_spec()
                + result.matches@.len(),
            old(self).pending_view().len() + 1 < CONTENT_BATCH_SIZE ==> (r is None
                && final(self).pending_view() == old(self).pending_view().push(result)),
            old(self).pending_view().len() + 1 == CONTENT_BATCH_SIZE ==> (r is Some
                && final(self).pending_view() == Seq::<ContentSearchResult>::empty()),
            r matches Some(ev) ==> {
                &&& !ev.done
                &&& ev.search_id == old(self).search_id_spec()
                &&& ev.results@ == old(self).pending_view().push(result)
                &&& forall|j: int| 0 <= j < ev.results@.len() ==> 1 <= (
                #[trigger] ev.results@[j]).matches@.len() <= MAX_MATCHES_PER_FILE
                &&& ev.files_searched == old(self).files_searched_spec()
                &&& ev.total_matches == old(self).total_matches_spec() + result.matches@.len()
            },
    {
        self.total_matches = self.total_matches + result.matches.len();
        self.pending.push(result);
        if self.pending.len() >= CONTENT_BATCH_SIZE {
            let mut flushed: Vec<ContentSearchResult> = Vec::new();
            core::mem::swap(&mut flushed, &mut self.pending);
            Some(
                ContentSearchEvent {
                    search_id: self.search_id,
                    results: flushed,
                    done: false,
                    files_searched: self.files_searched,
                    total_matches: self.total_matches,
                },
            )
        } else {
            None
        }
    }

    /// End the operation. A cancelled search emits nothing at all; a
    /// completed one emits exactly one terminal event, marked `done`,
    /// carrying the not-yet-flushed remainder and the final counters.
    pub fn finish(&mut self, cancelled: bool) -> (r: Option<ContentSearchEvent>)
        requires
            old(self).wf(),
        ensures
            final(self).wf(),
            r is Some <==> !cancelled,
            r matches Some(ev) ==> {
                &&& ev.done
                &&& ev.search_id == old(self).search_id_spec()
                &&& ev.results@ == old(self).pending_view()
                &&& forall|j: int| 0 <= j < ev.results@.len() ==> 1 <= (
                #[trigger] ev.results@[j]).matches@.len() <= MAX_MATCHES_PER_FILE
                &&& ev.files_searched == old(self).files_searched_spec()
                &&& ev.total_matches == old(self).total_matches_spec()
                &&& ev.total_matches <= old(self).max_results_spec()
            },
    {
        if cancelled {
            return None;
        }
        let mut flushed: Vec<ContentSearchResult> = Vec::new();
        core::mem::swap(&mut flushed, &mut self.pending);
        Some(
            ContentSearchEvent {
                search_id: self.search_id,
                results: flushed,
                done: true,
                files_searched: self.files_searched,
                total_matches: self.total_matches,
            },
        )
    }
}

/// Start a content search: validate the root and the query, compile the
/// matcher — an invalid pattern is a synchronous error, before any
/// identifier is allocated — clamp the result ceiling, and register the
/// operation. A literal query of workable length never fails compilation
/// case-sensitively, nor case-insensitively unless it holds a newline.
pub fn start_content_search(
    reg: &mut Registry,
    query: &str,
    root: &str,
    case_sensitive: bool,
    regex_mode: bool,
    max_results: usize,
) -> (r: Result<(u64, ContentMatcher, ContentCollector), ContentError>)
    requires
        old(reg).well_formed(),
        old(reg).next_id() < u64::MAX,
    ensures
        final(reg).well_formed(),
        (r matches Err(e) && e == ContentError::EmptyQuery) <==> query@.len() == 0,
        r is Err ==> final(reg).ops() == old(reg).ops() && final(reg).next_id() == old(
            reg,
        ).next_id(),
        (query@.len() > 0 && query@.len() <= MAX_LITERAL_QUERY_LEN && !regex_mode && (
        case_sensitive || !query@.contains('\n'))) ==> !(r matches Err(e) && e is InvalidPattern),
        r matches Ok((id, m, col)) ==> {
            &&& id == old(reg).next_id()
            &&& final(reg).next_id() == old(reg).next_id() + 1
            &&& final(reg).ops() == old(reg).ops().insert(
                id,
                crate::registry::OperationState {
                    kind: OperationKind::ContentSearch,
                    cancelled: false,
                },
            )
            &&& m.pattern_view() == (if regex_mode {
                query@
            } else {
                escaped_spec(query@)
            })
            &&& m.ci() == !case_sensitive
            &&& col.wf()
            &&& col.search_id_spec() == id
            &&& col.max_results_spec() == spec_clamp_limit(max_results, CONTENT_RESULTS_MAX)
            &&& col.files_searched_spec() == 0
            &&& col.total_matches_spec() == 0
        },
{
    if query.unicode_len() == 0 {
        return Err(ContentError::EmptyQuery);
    }
    if !path_exists(root) {
        return Err(ContentError::NotFound);
    }
    if !path_is_dir(root) {
        return Err(ContentError::NotADirectory);
    }
    let m = match ContentMatcher::new(query, case_sensitive, regex_mode) {
        Ok(m) => m,
        Err(msg) => {
            return Err(ContentError::InvalidPattern(msg));
        },
    };
    let max = clamp_limit(max_results, CONTENT_RESULTS_MAX);
    let id = reg.start(OperationKind::ContentSearch);
    let col = ContentCollector::new(id, max);
    Ok((id, m, col))
}

/// What holds of every per-file result a content search emits: between one
/// match and the per-file ceiling, a path the binary heuristic accepted,
/// and the path made relative against the root.
pub open spec fn emitted_result_ok(res: ContentSearchResult, root: Seq<char>) -> bool {
    &&& 1 <= res.matches@.len() <= MAX_MATCHES_PER_FILE
    &&& !spec_is_binary_file(res.path@)
    &&& res.relative_path@ == relative_spec(res.path@, root)
}

/// Run a content search to completion, synchronously: walk the tree with
/// ignore rules, search every non-binary file, and gather the emitted
/// events. Exactly the last event carries `done`, and the cumulative match
/// count never passes the ceiling.
pub fn run_content_search(m: &ContentMatcher, root: &str, search_id: u64, max_results: usize) -> (r:
    Vec<ContentSearchEvent>)
    requires
        1 <= max_results <= CONTENT_RESULTS_MAX,
    ensures
        r@.len() >= 1,
        r@.last().done,
        forall|i: int| 0 <= i < r@.len() - 1 ==> !(#[trigger] r@[i]).done,
        forall|i: int| 0 <= i < r@.len() ==> (#[trigger] r@[i]).search_id == search_id
            && r@[i].total_matches <= max_results,
        forall|i: int, j: int| 0 <= i < r@.len() && 0 <= j < r@[i].results@.len()
            ==> emitted_result_ok(#[trigger] r@[i].results@[j], root@),
{
    let mut col = ContentCollector::new(search_id, max_results);
    let mut events: Vec<ContentSearchEvent> = Vec::new();
    let files = walk_files(root, MAX_WALK_ENTRIES);
    let mut rest = files;
    while rest.len() > 0
        invariant
            col.wf(),
            col.search_id_spec() == search_id,
            col.max_results_spec() == max_results,
            col.files_searched_spec() + rest@.len() <= MAX_WALK_ENTRIES,
            forall|i: int| 0 <= i < events@.len() ==> !(#[trigger] events@[i]).done
                && events@[i].search_id == search_id && events@[i].total_matches <= max_results,
            forall|i: int, j: int| 0 <= i < events@.len() && 0 <= j < events@[i].results@.len()
                ==> emitted_result_ok(#[trigger] events@[i].results@[j], root@),
            forall|j: int| 0 <= j < col.pending_view().len() ==> emitted_result_ok(
                #[trigger] col.pending_view()[j],
                root@,
            ),
        decreases rest@.len(),
    {
        let (path, is_dir) = rest.remove(0);
        if col.remaining() == 0 {
            break ;
        }
        if is_dir {
            continue ;
        }
        if is_binary_file(path.as_str()) {
            continue ;
        }
        col.note_file_searched();
        let lines = search_file_lines(m, path.as_str(), MAX_MATCHES_PER_FILE);
        let matches = collect_file_matches(m, lines, MAX_MATCHES_PER_FILE, col.remaining());
        if matches.len() > 0 {
            let rel = relative_to(path.as_str(), root);
            let result = ContentSearchResult { path, relative_path: rel, matches };
            let ghost pending0 = col.pending_view();
            proof {
                assert(emitted_result_ok(result, root@));
            }
            match col.push_file(result) {
                Some(ev) => {
                    proof {
                        assert forall|j: int| 0 <= j < ev.results@.len() implies emitted_result_ok(
                            #[trigger] ev.results@[j],
                            root@,
                        ) by {
                            assert(ev.results@ == pending0.push(result));
                        }
                    }
                    events.push(ev);
                },
                None => {},
            }
        }
    }
    let ghost pending1 = col.pending_view();
    match col.finish(false) {
        Some(ev) => {
            proof {
                assert forall|j: int| 0 <= j < ev.results@.len() implies emitted_result_ok(
                    #[trigger] ev.results@[j],
                    root@,
                ) by {
                    assert(ev.results@ == pending1);
                }
            }
            events.push(ev);
        },
        None => {},
    }
    events
}

} // verus!
