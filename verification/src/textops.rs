//! Text helpers shared by the search, listing and thumbnail code: character
//! comparison, decimal formatting, newline trimming, and the case folding
//! that name ordering and extension checks rely on.
use vstd::prelude::*;
use vstd::string::StrSliceExecFns;
use vstd::string::StringExecFns;

verus! {

/// What `str::to_lowercase` returns: Unicode lowercasing is a function of
/// the characters alone.
pub uninterp spec fn lower_of(s: Seq<char>) -> Seq<char>;

/// Relies on `str::to_lowercase`: the lowercase mapping of the input,
/// depending on its characters alone.
#[verifier::external_body]
pub(crate) fn lowercase(s: &str) -> (r: String)
    ensures
        r@ == lower_of(s@),
{
    s.to_lowercase()
}

/// Relies on `String::from_utf8`: ASCII bytes are one-byte UTF-8, so the
/// returned string holds exactly those bytes as characters.
#[verifier::external_body]
pub(crate) fn string_from_ascii(bytes: Vec<u8>) -> (r: String)
    requires
        forall|i: int| 0 <= i < bytes@.len() ==> bytes@[i] < 128,
    ensures
        r@ == bytes@.map(|_i: int, b: u8| b as char),
{
    String::from_utf8(bytes).unwrap()
}

/// Character-for-character string equality.
pub fn str_eq(a: &str, b: &str) -> (r: bool)
    ensures
        r == (a@ == b@),
{
    let la = a.unicode_len();
    let lb = b.unicode_len();
    if la != lb {
        return false;
    }
    let mut i: usize = 0;
    while i < la
        invariant
            la == a@.len(),
            la == b@.len(),
            0 <= i <= la,
            forall|j: int| 0 <= j < i ==> a@[j] == b@[j],
        decreases la - i,
    {
        if a.get_char(i) != b.get_char(i) {
            return false;
        }
        i = i + 1;
    }
    proof {
        assert(a@ =~= b@);
    }
    true
}

/// Lexicographic order on character sequences, by code point.
pub open spec fn chars_le(a: Seq<char>, b: Seq<char>) -> bool
    decreases a.len(),
{
    if a.len() == 0 {
        true
    } else if b.len() == 0 {
        false
    } else if a[0] == b[0] {
        chars_le(a.drop_first(), b.drop_first())
    } else {
        (a[0] as u32) < (b[0] as u32)
    }
}

/// Two sequences that agree on a prefix compare as their tails do.
pub proof fn lemma_chars_le_skip(a: Seq<char>, b: Seq<char>, i: int)
    requires
        0 <= i <= a.len(),
        i <= b.len(),
        forall|j: int| 0 <= j < i ==> a[j] == b[j],
    ensures
        chars_le(a, b) == chars_le(a.skip(i), b.skip(i)),
    decreases i,
{
    if i > 0 {
        assert(a.len() > 0 && b.len() > 0);
        assert(a[0] == b[0]);
        lemma_chars_le_skip(a.drop_first(), b.drop_first(), i - 1);
        assert(a.drop_first().skip(i - 1) =~= a.skip(i));
        assert(b.drop_first().skip(i - 1) =~= b.skip(i));
    } else {
        assert(a.skip(0) =~= a);
        assert(b.skip(0) =~= b);
    }
}

/// The order is total.
pub proof fn lemma_chars_le_total(a: Seq<char>, b: Seq<char>)
    ensures
        chars_le(a, b) || chars_le(b, a),
    decreases a.len(),
{
    if a.len() > 0 && b.len() > 0 {
        if a[0] == b[0] {
            lemma_chars_le_total(a.drop_first(), b.drop_first());
        } else {
            vstd::utf8::char_u32_cast(a[0], a[0] as u32);
            vstd::utf8::char_u32_cast(b[0], b[0] as u32);
        }
    }
}

/// The order is transitive.
pub proof fn lemma_chars_le_trans(a: Seq<char>, b: Seq<char>, c: Seq<char>)
    requires
        chars_le(a, b),
        chars_le(b, c),
    ensures
        chars_le(a, c),
    decreases a.len(),
{
    if a.len() > 0 && b.len() > 0 && c.len() > 0 {
        if a[0] == b[0] && b[0] == c[0] {
            lemma_chars_le_trans(a.drop_first(), b.drop_first(), c.drop_first());
        }
    }
}

/// Lexicographic comparison of two strings, by code point.
pub fn str_le(a: &str, b: &str) -> (r: bool)
    ensures
        r == chars_le(a@, b@),
{
    let la = a.unicode_len();
    let lb = b.unicode_len();
    let mut i: usize = 0;
    loop
        invariant
            la == a@.len(),
            lb == b@.len(),
            0 <= i <= la,
            i <= lb,
            forall|j: int| 0 <= j < i ==> a@[j] == b@[j],
        decreases la - i,
    {
        if i >= la {
            proof {
                lemma_chars_le_skip(a@, b@, i as int);
            }
            return true;
        }
        if i >= lb {
            proof {
                lemma_chars_le_skip(a@, b@, i as int);
            }
            return false;
        }
        let ca = a.get_char(i);
        let cb = b.get_char(i);
        if ca != cb {
            proof {
                lemma_chars_le_skip(a@, b@, i as int);
            }
            return (ca as u32) < (cb as u32);
        }
        i = i + 1;
    }
}

/// A line with its terminator removed: one trailing `'\n'`, and a `'\r'`
/// just before it, are dropped; nothing else is touched.
pub open spec fn trim_newline_spec(s: Seq<char>) -> Seq<char> {
    if s.len() > 0 && s.last() == '\n' {
        let t = s.drop_last();
        if t.len() > 0 && t.last() == '\r' {
            t.drop_last()
        } else {
            t
        }
    } else {
        s
    }
}

/// Remove a trailing line terminator (`"\n"` or `"\r\n"`), leaving the rest
/// of the text untouched.
pub fn trim_newline(s: &str) -> (r: String)
    ensures
        r@ == trim_newline_spec(s@),
{
    let n = s.unicode_len();
    if n > 0 && s.get_char(n - 1) == '\n' {
        let keep: usize = if n > 1 && s.get_char(n - 2) == '\r' {
            n - 2
        } else {
            n - 1
        };
        let cut = s.substring_char(0, keep);
        proof {
            assert(s@.subrange(0, keep as int) =~= trim_newline_spec(s@));
        }
        String::from_str(cut)
    } else {
        String::from_str(s)
    }
}

/// The position of the last occurrence of a character, if any.
pub fn last_index_of(s: &str, c: char) -> (r: Option<usize>)
    ensures
        match r {
            Some(i) => i < s@.len() && s@[i as int] == c && forall|j: int|
                i < j < s@.len() ==> s@[j] != c,
            None => forall|j: int| 0 <= j < s@.len() ==> s@[j] != c,
        },
{
    let n = s.unicode_len();
    let mut i: usize = n;
    while i > 0
        invariant
            n == s@.len(),
            0 <= i <= n,
            forall|j: int| i <= j < n ==> s@[j] != c,
        decreases i,
    {
        if s.get_char(i - 1) == c {
            return Some(i - 1);
        }
        i = i - 1;
    }
    None
}

/// The decimal digit character for a value in `[0, 10)`.
pub open spec fn dec_digit(d: int) -> char {
    ((48 + d) as u8) as char
}

/// The decimal representation of a non-negative integer, most significant
/// digit first.
pub open spec fn dec_str(n: int) -> Seq<char>
    decreases n,
{
    if n < 10 {
        seq![dec_digit(n)]
    } else {
        dec_str(n / 10).push(dec_digit(n % 10))
    }
}

/// The decimal representation as ASCII digit bytes.
pub open spec fn dec_bytes(n: int) -> Seq<u8>
    decreases n,
{
    if n < 10 {
        seq![(48 + n) as u8]
    } else {
        dec_bytes(n / 10).push((48 + n % 10) as u8)
    }
}

/// The digit bytes are ASCII and read back as the digit characters.
pub proof fn lemma_dec_bytes_chars(n: int)
    requires
        n >= 0,
    ensures
        forall|i: int| 0 <= i < dec_bytes(n).len() ==> 48 <= #[trigger] dec_bytes(n)[i] < 58,
        dec_bytes(n).map(|_i: int, b: u8| b as char) =~= dec_str(n),
    decreases n,
{
    if n >= 10 {
        lemma_dec_bytes_chars(n / 10);
        assert(dec_bytes(n / 10).push((48 + n % 10) as u8).map(|_i: int, b: u8| b as char)
            =~= dec_bytes(n / 10).map(|_i: int, b: u8| b as char).push(dec_digit(n % 10)));
    }
}

/// Append the decimal digits of a number, most significant first.
fn push_dec_digits(n: u64, out: &mut Vec<u8>)
    ensures
        final(out)@ == old(out)@ + dec_bytes(n as int),
    decreases n,
{
    if n >= 10 {
        push_dec_digits(n / 10, out);
    }
    let d: u8 = (n % 10) as u8 + 48;
    out.push(d);
    proof {
        if n >= 10 {
            assert(final(out)@ =~= old(out)@ + dec_bytes(n as int));
        } else {
            assert(dec_bytes(n as int) =~= seq![d]);
            assert(final(out)@ =~= old(out)@ + dec_bytes(n as int));
        }
    }
}

/// Format a number in decimal.
pub fn u64_to_string(n: u64) -> (r: String)
    ensures
        r@ == dec_str(n as int),
{
    let mut buf: Vec<u8> = Vec::new();
    push_dec_digits(n, &mut buf);
    proof {
        lemma_dec_bytes_chars(n as int);
        assert(buf@ =~= dec_bytes(n as int));
        assert(buf@.map(|_i: int, b: u8| b as char) =~= dec_str(n as int));
    }
    string_from_ascii(buf)
}

/// Relies on `String` collected from its characters: the string reads back
/// exactly those characters.
#[verifier::external_body]
pub(crate) fn string_from_chars(chars: Vec<char>) -> (r: String)
    ensures
        r@ == chars@,
{
    chars.into_iter().collect()
}

/// The position of the last occurrence of a character, if any.
pub open spec fn last_index_spec(s: Seq<char>, c: char) -> Option<int>
    decreases s.len(),
{
    if s.len() == 0 {
        None
    } else if s.last() == c {
        Some(s.len() - 1)
    } else {
        last_index_spec(s.drop_last(), c)
    }
}

/// `last_index_spec` finds exactly the last occurrence.
pub proof fn lemma_last_index_spec(s: Seq<char>, c: char)
    ensures
        match last_index_spec(s, c) {
            Some(i) => 0 <= i < s.len() && s[i] == c && forall|j: int|
                i < j < s.len() ==> s[j] != c,
            None => forall|j: int| 0 <= j < s.len() ==> s[j] != c,
        },
    decreases s.len(),
{
    if s.len() > 0 && s.last() != c {
        let d = s.drop_last();
        lemma_last_index_spec(d, c);
        assert(forall|j: int| 0 <= j < d.len() ==> d[j] == s[j]);
        match last_index_spec(d, c) {
            Some(i) => {
                assert forall|j: int| i < j < s.len() implies s[j] != c by {
                    if j < s.len() - 1 {
                        assert(d[j] != c);
                    }
                }
            },
            None => {
                assert forall|j: int| 0 <= j < s.len() implies s[j] != c by {
                    if j < s.len() - 1 {
                        assert(d[j] != c);
                    }
                }
            },
        }
    }
}

/// The final component of a path: what follows the last `'/'`.
pub open spec fn file_name_of(path: Seq<char>) -> Seq<char> {
    match last_index_spec(path, '/') {
        Some(i) => path.skip(i + 1),
        None => path,
    }
}

/// The extension of a path's final component: what follows its last `'.'`,
/// absent when the component has no dot past its first character.
pub open spec fn extension_spec(path: Seq<char>) -> Option<Seq<char>> {
    let name = file_name_of(path);
    match last_index_spec(name, '.') {
        Some(i) => if i > 0 {
            Some(name.skip(i + 1))
        } else {
            None
        },
        None => None,
    }
}

/// Extract a path's extension.
pub fn extension_of(path: &str) -> (r: Option<String>)
    ensures
        match r {
            Some(e) => extension_spec(path@) == Some(e@),
            None => extension_spec(path@) is None,
        },
{
    let n = path.unicode_len();
    let name: &str = match last_index_of(path, '/') {
        Some(i) => {
            proof {
                lemma_last_index_spec(path@, '/');
            }
            path.substring_char(i + 1, n)
        },
        None => {
            proof {
                lemma_last_index_spec(path@, '/');
            }
            path
        },
    };
    proof {
        assert(name@ =~= file_name_of(path@));
    }
    let m = name.unicode_len();
    match last_index_of(name, '.') {
        Some(i) => {
            proof {
                lemma_last_index_spec(name@, '.');
            }
            if i > 0 {
                let e = name.substring_char(i + 1, m);
                proof {
                    assert(e@ =~= name@.skip(i + 1));
                }
                Some(String::from_str(e))
            } else {
                None
            }
        },
        None => {
            proof {
                lemma_last_index_spec(name@, '.');
            }
            None
        },
    }
}

/// Whether `s` begins with `prefix`.
pub fn str_starts_with(s: &str, prefix: &str) -> (r: bool)
    ensures
        r == (s@.len() >= prefix@.len() && s@.take(prefix@.len() as int) == prefix@),
{
    let n = s.unicode_len();
    let m = prefix.unicode_len();
    if n < m {
        return false;
    }
    let mut i: usize = 0;
    while i < m
        invariant
            n == s@.len(),
            m == prefix@.len(),
            m <= n,
            0 <= i <= m,
            forall|j: int| 0 <= j < i ==> s@[j] == prefix@[j],
        decreases m - i,
    {
        if s.get_char(i) != prefix.get_char(i) {
            return false;
        }
        i = i + 1;
    }
    proof {
        assert(s@.take(m as int) =~= prefix@);
    }
    true
}

/// A path made relative to a root: the root prefix is removed, with one
/// separator after it; a path not under the root stays as it is.
pub open spec fn relative_spec(path: Seq<char>, root: Seq<char>) -> Seq<char> {
    if path.len() >= root.len() && path.take(root.len() as int) == root {
        let rest = path.skip(root.len() as int);
        if rest.len() > 0 && rest[0] == '/' {
            rest.skip(1)
        } else {
            rest
        }
    } else {
        path
    }
}

/// Strip the root prefix from a path.
pub fn relative_to(path: &str, root: &str) -> (r: String)
    ensures
        r@ == relative_spec(path@, root@),
{
    let n = path.unicode_len();
    let m = root.unicode_len();
    if str_starts_with(path, root) {
        let rest = path.substring_char(m, n);
        proof {
            assert(rest@ =~= path@.skip(m as int));
        }
        if rest.unicode_len() > 0 && rest.get_char(0) == '/' {
            let cut = rest.substring_char(1, rest.unicode_len());
            proof {
                assert(cut@ =~= rest@.skip(1));
            }
            String::from_str(cut)
        } else {
            String::from_str(rest)
        }
    } else {
        String::from_str(path)
    }
}

} // verus!
