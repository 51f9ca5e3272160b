//! Naming of stored outputs: relative paths under the outputs root, their
//! browser URLs, and the grouping of a path into operation type and date.

use crate::store::kept;
use crate::snippet::string_views;
use vstd::prelude::*;

verus! {

/// One stored output as listed to callers.
#[derive(Debug, Clone)]
pub struct OutputItem {
    /// Relative path under the outputs root, with '/' separators.
    pub path: String,
    /// Category used for grouping; for director outputs "director/<type>".
    pub op_type: String,
    /// YYYY-MM-DD taken from the path when it holds one.
    pub date: String,
    /// File name with its extension.
    pub filename: String,
}

pub open spec fn is_digit(c: char) -> bool {
    '0' <= c && c <= '9'
}

/// YYYY-MM-DD, ASCII digits.
pub open spec fn is_date_spec(s: Seq<char>) -> bool {
    &&& s.len() == 10
    &&& forall|k: int| 0 <= k < 10 && k != 4 && k != 7 ==> is_digit(#[trigger] s[k])
    &&& s[4] == '-'
    &&& s[7] == '-'
}

/// Whether a path component is a date of the form YYYY-MM-DD.
pub fn is_date_component(s: &str) -> (r: bool)
    ensures
        r == is_date_spec(s@),
{
    if s.unicode_len() != 10 {
        return false;
    }
    let mut k: usize = 0;
    while k < 10
        invariant
            s@.len() == 10,
            k <= 10,
            forall|m: int| 0 <= m < k ==> (if m == 4 || m == 7 { s@[m] == '-' } else { is_digit(#[trigger] s@[m]) }),
        decreases 10 - k,
    {
        let c = s.get_char(k);
        let ok = if k == 4 || k == 7 { c == '-' } else { '0' <= c && c <= '9' };
        if !ok {
            return false;
        }
        k += 1;
    }
    assert(s@[4] == '-' && s@[7] == '-');
    true
}

/// The value of the decimal digits `s[0..n]`.
pub open spec fn digits_value(s: Seq<char>, n: int) -> int
    decreases n,
{
    if n <= 0 {
        0
    } else {
        digits_value(s, n - 1) * 10 + (s[n - 1] as int - '0' as int)
    }
}

/// The output index that leads a file name: its first five characters when
/// they are all ASCII digits.
pub fn parse_output_index(file_name: &str) -> (r: Option<usize>)
    ensures
        r matches Some(v) ==> file_name@.len() >= 5 && (forall|k: int| 0 <= k < 5 ==> is_digit(#[trigger] file_name@[k]))
            && v == digits_value(file_name@, 5),
        r is None ==> file_name@.len() < 5 || exists|k: int| 0 <= k < 5 && !is_digit(#[trigger] file_name@[k]),
{
    if file_name.unicode_len() < 5 {
        return None;
    }
    let mut v: usize = 0;
    let mut k: usize = 0;
    while k < 5
        invariant
            file_name@.len() >= 5,
            k <= 5,
            forall|m: int| 0 <= m < k ==> is_digit(#[trigger] file_name@[m]),
            v == digits_value(file_name@, k as int),
            v < 100000,
        decreases 5 - k,
    {
        let c = file_name.get_char(k);
        if !('0' <= c && c <= '9') {
            assert(!is_digit(file_name@[k as int]));
            return None;
        }
        let d = (c as u32 - '0' as u32) as usize;
        assert(v * 10 + d < 1000000) by (nonlinear_arith)
            requires v < 100000, d < 10;
        v = v * 10 + d;
        k += 1;
        assert(digits_value(file_name@, k as int) == digits_value(file_name@, k - 1) * 10 + (file_name@[k - 1] as int - '0' as int));
        assert(v < 100000) by {
            lemma_digits_bound(file_name@, k as int);
        }
    }
    Some(v)
}

proof fn lemma_digits_bound(s: Seq<char>, n: int)
    requires
        0 <= n <= s.len(),
        n <= 5,
        forall|m: int| 0 <= m < n ==> is_digit(#[trigger] s[m]),
    ensures
        0 <= digits_value(s, n),
        digits_value(s, n) < if n == 0 { 1int } else if n == 1 { 10int } else if n == 2 { 100int } else if n == 3 { 1000int } else if n == 4 { 10000int } else { 100000int },
    decreases n,
{
    if n > 0 {
        lemma_digits_bound(s, n - 1);
        assert(is_digit(s[n - 1]));
    }
}

/// '\\' separators become '/'.
pub open spec fn slashes_normalized(s: Seq<char>) -> Seq<char> {
    s.map_values(|c: char| if c == '\\' { '/' } else { c })
}

/// A relative path with '/' as the only separator.
pub fn normalize_rel_path(rel: &str) -> (r: String)
    ensures
        r@ == slashes_normalized(rel@),
{
    let n = rel.unicode_len();
    let mut out = String::new();
    let mut i: usize = 0;
    let mut last: usize = 0;
    proof {
        reveal_strlit("/");
    }
    while i < n
        invariant
            n == rel@.len(),
            last <= i <= n,
            out@ + rel@.subrange(last as int, i as int) == slashes_normalized(rel@).subrange(0, i as int),
            forall|k: int| last <= k < i ==> rel@[k] != '\\',
            "/"@ == seq!['/'],
        decreases n - i,
    {
        if rel.get_char(i) == '\\' {
            let ghost before = out@;
            out.append(rel.substring_char(last, i));
            out.append("/");
            assert(slashes_normalized(rel@).subrange(0, i + 1) =~= slashes_normalized(rel@).subrange(0, i as int).push('/'));
            assert(out@ + rel@.subrange(i + 1, i + 1) =~= slashes_normalized(rel@).subrange(0, i + 1));
            i += 1;
            last = i;
        } else {
            assert(slashes_normalized(rel@).subrange(0, i + 1) =~= slashes_normalized(rel@).subrange(0, i as int).push(rel@[i as int]));
            assert(out@ + rel@.subrange(last as int, i + 1) =~= (out@ + rel@.subrange(last as int, i as int)).push(rel@[i as int]));
            i += 1;
        }
    }
    out.append(rel.substring_char(last, n));
    assert(slashes_normalized(rel@).subrange(0, n as int) =~= slashes_normalized(rel@));
    out
}

/// The browser URL of a stored output, relative to the service's base URL.
pub fn output_url(rel_path: &str) -> (r: String)
    ensures
        r@ == "/outputs/"@ + slashes_normalized(rel_path@),
{
    let norm = normalize_rel_path(rel_path);
    String::from_str("/outputs/").concat(norm.as_str())
}

/// The non-empty '/'-separated parts of `s` from position `i`, the current
/// part having begun at `start`.
pub open spec fn parts_from(s: Seq<char>, i: int, start: int) -> Seq<Seq<char>>
    decreases s.len() - i,
{
    if i >= s.len() {
        kept(s.subrange(start, s.len() as int))
    } else if s[i] == '/' {
        kept(s.subrange(start, i)) + parts_from(s, i + 1, i + 1)
    } else {
        parts_from(s, i + 1, start)
    }
}

pub open spec fn path_parts(s: Seq<char>) -> Seq<Seq<char>> {
    parts_from(s, 0, 0)
}

fn split_parts(s: &str) -> (r: Vec<String>)
    ensures
        string_views(r@) == path_parts(s@),
{
    let n = s.unicode_len();
    let mut out: Vec<String> = Vec::new();
    let mut i: usize = 0;
    let mut start: usize = 0;
    assert(string_views(out@) =~= Seq::<Seq<char>>::empty());
    while i < n
        invariant
            n == s@.len(),
            start <= i <= n,
            string_views(out@) + parts_from(s@, i as int, start as int) == path_parts(s@),
        decreases n - i,
    {
        if s.get_char(i) == '/' {
            let ghost o = string_views(out@);
            if start < i {
                out.push(String::from_str(s.substring_char(start, i)));
            }
            assert(string_views(out@) =~= o + kept(s@.subrange(start as int, i as int)));
            assert(o + (kept(s@.subrange(start as int, i as int)) + parts_from(s@, i + 1, i + 1))
                =~= string_views(out@) + parts_from(s@, i + 1, i + 1));
            i += 1;
            start = i;
        } else {
            i += 1;
        }
    }
    let ghost o = string_views(out@);
    if start < n {
        out.push(String::from_str(s.substring_char(start, n)));
    }
    assert(string_views(out@) =~= o + kept(s@.subrange(start as int, n as int)));
    out
}

/// The part at `k`, or empty.
pub open spec fn part_or_empty(parts: Seq<Seq<char>>, k: int) -> Seq<char> {
    if 0 <= k < parts.len() {
        parts[k]
    } else {
        Seq::empty()
    }
}

pub open spec fn part_is_date(parts: Seq<Seq<char>>, k: int) -> bool {
    0 <= k < parts.len() && is_date_spec(parts[k])
}

/// The (op_type, date) grouping of a path's parts: `<op>/<date>/<file>` in
/// general; director outputs group as "director" or "director/<type>" by the
/// first date among the second, third and fourth parts.
pub open spec fn grouping(parts: Seq<Seq<char>>) -> (Seq<char>, Seq<char>) {
    if parts.len() > 0 && parts[0] == "director"@ && part_is_date(parts, 1) {
        ("director"@, parts[1])
    } else if parts.len() > 0 && parts[0] == "director"@ && part_is_date(parts, 2) {
        ("director/"@ + parts[1], parts[2])
    } else if parts.len() > 0 && parts[0] == "director"@ && part_is_date(parts, 3) {
        ("director/"@ + parts[1], parts[3])
    } else {
        (part_or_empty(parts, 0), part_or_empty(parts, 1))
    }
}

fn part_copy(parts: &Vec<String>, k: usize) -> (r: String)
    ensures
        r@ == part_or_empty(string_views(parts@), k as int),
{
    if k < parts.len() {
        parts[k].clone()
    } else {
        String::new()
    }
}

fn part_date(parts: &Vec<String>, k: usize) -> (r: bool)
    ensures
        r == part_is_date(string_views(parts@), k as int),
{
    k < parts.len() && is_date_component(parts[k].as_str())
}

/// The listing entry of a stored output from its relative path.
pub fn output_item_from_rel(rel: &str) -> (r: OutputItem)
    ensures
        r.path@ == slashes_normalized(rel@),
        r.filename@ == if path_parts(slashes_normalized(rel@)).len() > 0 {
            path_parts(slashes_normalized(rel@)).last()
        } else {
            Seq::empty()
        },
        (r.op_type@, r.date@) == grouping(path_parts(slashes_normalized(rel@))),
{
    let rel_norm = normalize_rel_path(rel);
    let parts = split_parts(rel_norm.as_str());
    let ghost pv = string_views(parts@);
    let filename = if parts.len() > 0 {
        parts[parts.len() - 1].clone()
    } else {
        String::new()
    };
    let is_director = parts.len() > 0 && crate::presets::str_eq(parts[0].as_str(), "director");
    let op_type: String;
    let date: String;
    if is_director && part_date(&parts, 1) {
        op_type = String::from_str("director");
        date = part_copy(&parts, 1);
    } else if is_director && part_date(&parts, 2) {
        op_type = String::from_str("director/").concat(part_copy(&parts, 1).as_str());
        date = part_copy(&parts, 2);
    } else if is_director && part_date(&parts, 3) {
        op_type = String::from_str("director/").concat(part_copy(&parts, 1).as_str());
        date = part_copy(&parts, 3);
    } else {
        op_type = part_copy(&parts, 0);
        date = part_copy(&parts, 1);
    }
    OutputItem { path: rel_norm, op_type, date, filename }
}

/// Unicode control characters (general category Cc).
pub open spec fn is_control(c: char) -> bool {
    (c as u32) <= 0x1F || (0x7F <= (c as u32) && (c as u32) <= 0x9F)
}

/// Characters that Windows forbids in file names.
pub open spec fn is_forbidden(c: char) -> bool {
    c == '<' || c == '>' || c == ':' || c == '"' || c == '|' || c == '?' || c == '*' || c == '\\'
        || c == '/'
}

/// Control characters dropped, forbidden ones replaced by '_'.
pub open spec fn cleaned(s: Seq<char>) -> Seq<char>
    decreases s.len(),
{
    if s.len() == 0 {
        s
    } else if is_control(s.last()) {
        cleaned(s.drop_last())
    } else {
        cleaned(s.drop_last()).push(if is_forbidden(s.last()) { '_' } else { s.last() })
    }
}

/// Trailing spaces and dots removed.
pub open spec fn strip_tail(s: Seq<char>) -> Seq<char>
    decreases s.len(),
{
    if s.len() > 0 && (s.last() == ' ' || s.last() == '.') {
        strip_tail(s.drop_last())
    } else {
        s
    }
}

/// `c` is the ASCII letter or character `u` in either case.
pub open spec fn same_ignoring_case(c: char, u: char) -> bool {
    c == u || ('A' <= u && u <= 'Z' && (c as u32) == (u as u32) + 32)
}

/// `s` begins with `w`, ASCII letters compared without case.
pub open spec fn starts_ignoring_case(s: Seq<char>, w: Seq<char>) -> bool {
    w.len() <= s.len() && forall|k: int| 0 <= k < w.len() ==> same_ignoring_case(#[trigger] s[k], w[k])
}

pub open spec fn is_word(s: Seq<char>, w: Seq<char>) -> bool {
    s.len() == w.len() && starts_ignoring_case(s, w)
}

/// What `str::parse::<u8>` accepts: an optional '+', then ASCII digits
/// whose value is at most 255.
pub open spec fn parses_as_u8(t: Seq<char>) -> bool {
    let d = unsigned_digits(t);
    &&& d.len() >= 1
    &&& all_digits(d)
    &&& digits_value(d, d.len() as int) <= 255
}

/// `t` without a leading '+'.
pub open spec fn unsigned_digits(t: Seq<char>) -> Seq<char> {
    if t.len() > 0 && t[0] == '+' {
        t.skip(1)
    } else {
        t
    }
}

pub open spec fn all_digits(d: Seq<char>) -> bool {
    forall|k: int| 0 <= k < d.len() ==> is_digit(#[trigger] d[k])
}

/// A reserved device name of Windows, in any ASCII case.
pub open spec fn is_reserved(s: Seq<char>) -> bool {
    is_word(s, "CON"@) || is_word(s, "PRN"@) || is_word(s, "AUX"@) || is_word(s, "NUL"@)
        || (starts_ignoring_case(s, "COM"@) && parses_as_u8(s.skip(3)))
        || (starts_ignoring_case(s, "LPT"@) && parses_as_u8(s.skip(3)))
}

/// A path component made safe to use as a file or directory name.
pub open spec fn sanitized(s: Seq<char>) -> Seq<char> {
    let c = strip_tail(cleaned(s));
    if c.len() == 0 {
        "_"@
    } else {
        let r = if is_reserved(c) { "_"@ + c } else { c };
        if r == "."@ || r == ".."@ {
            "_"@
        } else {
            r
        }
    }
}

fn starts_with_word(s: &str, w: &str) -> (r: bool)
    ensures
        r == starts_ignoring_case(s@, w@),
{
    let n = w.unicode_len();
    if n > s.unicode_len() {
        return false;
    }
    let mut k: usize = 0;
    while k < n
        invariant
            n == w@.len(),
            n <= s@.len(),
            k <= n,
            forall|m: int| 0 <= m < k ==> same_ignoring_case(#[trigger] s@[m], w@[m]),
        decreases n - k,
    {
        let c = s.get_char(k);
        let u = w.get_char(k);
        let same = c == u || ('A' <= u && u <= 'Z' && (c as u32) == (u as u32) + 32);
        if !same {
            return false;
        }
        k += 1;
    }
    true
}

proof fn lemma_digits_grow(s: Seq<char>, k: int, n: int)
    requires
        0 <= k <= n <= s.len(),
        forall|m: int| 0 <= m < n ==> is_digit(#[trigger] s[m]),
    ensures
        digits_value(s, k) <= digits_value(s, n),
    decreases n - k,
{
    if k < n {
        lemma_digits_grow(s, k, n - 1);
        assert(is_digit(s[n - 1]));
        assert(digits_value(s, n - 1) >= 0) by {
            lemma_digits_nonneg(s, n - 1);
        }
    }
}

proof fn lemma_digits_nonneg(s: Seq<char>, n: int)
    requires
        0 <= n <= s.len(),
        forall|m: int| 0 <= m < n ==> is_digit(#[trigger] s[m]),
    ensures
        digits_value(s, n) >= 0,
    decreases n,
{
    if n > 0 {
        lemma_digits_nonneg(s, n - 1);
        assert(is_digit(s[n - 1]));
    }
}

/// See [`parses_as_u8`].
fn parses_u8(t: &str) -> (r: bool)
    ensures
        r == parses_as_u8(t@),
{
    let n = t.unicode_len();
    let mut start: usize = 0;
    if n > 0 && t.get_char(0) == '+' {
        start = 1;
    }
    let ghost d = unsigned_digits(t@);
    assert(d =~= t@.subrange(start as int, n as int));
    if start >= n {
        return false;
    }
    let mut v: u32 = 0;
    let mut k: usize = start;
    while k < n
        invariant
            n == t@.len(),
            start <= k <= n,
            d == t@.subrange(start as int, n as int),
            d == unsigned_digits(t@),
            forall|m: int| 0 <= m < k - start ==> is_digit(#[trigger] d[m]),
            v == digits_value(d, k - start),
            v <= 255,
        decreases n - k,
    {
        let c = t.get_char(k);
        assert(d[k - start] == c);
        if !('0' <= c && c <= '9') {
            assert(!is_digit(d[k - start]));
            assert(0 <= k - start < d.len());
            assert(!all_digits(d));
            return false;
        }
        v = v * 10 + (c as u32 - '0' as u32);
        k += 1;
        assert(digits_value(d, k - start) == digits_value(d, k - start - 1) * 10 + (d[k - start - 1] as int
            - '0' as int));
        assert(v == digits_value(d, k - start));
        if v > 255 {
            proof {
                assert forall|m: int| 0 <= m < k - start implies is_digit(#[trigger] d[m]) by {
                    if m == k - start - 1 {
                        assert(d[m] == c);
                    }
                }
                if all_digits(d) {
                    lemma_digits_grow(d, k - start, d.len() as int);
                }
            }
            return false;
        }
    }
    true
}

fn is_word_exec(s: &str, w: &str) -> (r: bool)
    ensures
        r == is_word(s@, w@),
{
    s.unicode_len() == w.unicode_len() && starts_with_word(s, w)
}

fn reserved(s: &str) -> (r: bool)
    ensures
        r == is_reserved(s@),
{
    proof {
        reveal_strlit("COM");
        reveal_strlit("LPT");
    }
    if is_word_exec(s, "CON") || is_word_exec(s, "PRN") || is_word_exec(s, "AUX") || is_word_exec(s, "NUL") {
        return true;
    }
    let n = s.unicode_len();
    if n >= 3 {
        let rest = s.substring_char(3, n);
        assert(rest@ =~= s@.skip(3));
        (starts_with_word(s, "COM") && parses_u8(rest)) || (starts_with_word(s, "LPT") && parses_u8(rest))
    } else {
        assert(!starts_ignoring_case(s@, "COM"@) && !starts_ignoring_case(s@, "LPT"@));
        false
    }
}

/// A path component made safe to use as a file or directory name; see
/// [`sanitized`].
pub fn sanitize_component(s: String) -> (r: String)
    ensures
        r@ == sanitized(s@),
{
    let t = s.as_str();
    let n = t.unicode_len();
    let mut out = String::new();
    let mut i: usize = 0;
    let mut last: usize = 0;
    let mut keep: usize = 0;
    proof {
        reveal_strlit("_");
    }
    while i < n
        invariant
            n == t@.len(),
            i <= n,
            out@ == cleaned(t@.subrange(0, i as int)),
            "_"@ == seq!['_'],
        decreases n - i,
    {
        let c = t.get_char(i);
        let ghost pre = t@.subrange(0, i as int);
        assert(t@.subrange(0, i + 1).drop_last() =~= pre);
        assert(t@.subrange(0, i + 1).last() == c);
        let u = c as u32;
        if u <= 0x1F || (0x7F <= u && u <= 0x9F) {
        } else if c == '<' || c == '>' || c == ':' || c == '"' || c == '|' || c == '?' || c == '*'
            || c == '\\' || c == '/' {
            out.append("_");
        } else {
            out.append(t.substring_char(i, i + 1));
            assert(t@.subrange(i as int, i + 1) =~= seq![c]);
        }
        i += 1;
    }
    assert(t@.subrange(0, n as int) =~= t@);
    let o = out.as_str();
    let m = o.unicode_len();
    let mut j = m;
    assert(o@.subrange(0, m as int) =~= o@);
    while j > 0 && (o.get_char(j - 1) == ' ' || o.get_char(j - 1) == '.')
        invariant
            m == o@.len(),
            j <= m,
            strip_tail(o@) == strip_tail(o@.subrange(0, j as int)),
        decreases j,
    {
        assert(o@.subrange(0, j as int).drop_last() =~= o@.subrange(0, j - 1));
        j -= 1;
    }
    assert(o@.subrange(0, m as int) =~= o@);
    let c = o.substring_char(0, j);
    assert(strip_tail(c@) == c@);
    if j == 0 {
        proof {
            reveal_strlit("_");
        }
        return String::from_str("_");
    }
    let r = if reserved(c) {
        String::from_str("_").concat(c)
    } else {
        String::from_str(c)
    };
    proof {
        reveal_strlit(".");
        reveal_strlit("..");
    }
    if crate::presets::str_eq(r.as_str(), ".") || crate::presets::str_eq(r.as_str(), "..") {
        String::from_str("_")
    } else {
        r
    }
}

/// The non-empty parts of `s` split at '/' and '\\', from position `i`,
/// the current part having begun at `start`.
pub open spec fn segments_from(s: Seq<char>, i: int, start: int) -> Seq<Seq<char>>
    decreases s.len() - i,
{
    if i >= s.len() {
        kept(s.subrange(start, s.len() as int))
    } else if s[i] == '/' || s[i] == '\\' {
        kept(s.subrange(start, i)) + segments_from(s, i + 1, i + 1)
    } else {
        segments_from(s, i + 1, start)
    }
}

/// The parts joined by '/'.
pub open spec fn joined(parts: Seq<Seq<char>>) -> Seq<char>
    decreases parts.len(),
{
    if parts.len() == 0 {
        Seq::empty()
    } else if parts.len() == 1 {
        parts[0]
    } else {
        joined(parts.drop_last()) + seq!['/'] + parts.last()
    }
}

/// A relative path with each component sanitised and '/' separators.
pub open spec fn sanitized_path(rel: Seq<char>) -> Seq<char> {
    joined(segments_from(rel, 0, 0).map_values(|p: Seq<char>| sanitized(p)))
}

fn split_segments(s: &str) -> (r: Vec<String>)
    ensures
        string_views(r@) == segments_from(s@, 0, 0),
{
    let n = s.unicode_len();
    let mut out: Vec<String> = Vec::new();
    let mut i: usize = 0;
    let mut start: usize = 0;
    assert(string_views(out@) =~= Seq::<Seq<char>>::empty());
    while i < n
        invariant
            n == s@.len(),
            start <= i <= n,
            string_views(out@) + segments_from(s@, i as int, start as int) == segments_from(s@, 0, 0),
        decreases n - i,
    {
        let c = s.get_char(i);
        if c == '/' || c == '\\' {
            let ghost o = string_views(out@);
            if start < i {
                out.push(String::from_str(s.substring_char(start, i)));
            }
            assert(string_views(out@) =~= o + kept(s@.subrange(start as int, i as int)));
            assert(o + (kept(s@.subrange(start as int, i as int)) + segments_from(s@, i + 1, i + 1))
                =~= string_views(out@) + segments_from(s@, i + 1, i + 1));
            i += 1;
            start = i;
        } else {
            i += 1;
        }
    }
    let ghost o = string_views(out@);
    if start < n {
        out.push(String::from_str(s.substring_char(start, n)));
    }
    assert(string_views(out@) =~= o + kept(s@.subrange(start as int, n as int)));
    out
}

/// A relative path with every component sanitised, empty components
/// dropped, and '/' separators.
pub fn sanitize_rel_path(rel: &str) -> (r: String)
    ensures
        r@ == sanitized_path(rel@),
{
    let parts = split_segments(rel);
    let ghost pv = string_views(parts@);
    let ghost sv = pv.map_values(|p: Seq<char>| sanitized(p));
    let mut out = String::new();
    let mut i: usize = 0;
    proof {
        reveal_strlit("/");
    }
    assert(sv.subrange(0, 0) =~= Seq::<Seq<char>>::empty());
    while i < parts.len()
        invariant
            i <= parts@.len(),
            pv == string_views(parts@),
            sv == pv.map_values(|p: Seq<char>| sanitized(p)),
            out@ == joined(sv.subrange(0, i as int)),
            "/"@ == seq!['/'],
        decreases parts@.len() - i,
    {
        let piece = sanitize_component(parts[i].clone());
        assert(piece@ == sv[i as int]);
        if i > 0 {
            out.append("/");
        }
        out.append(piece.as_str());
        assert(sv.subrange(0, i + 1).drop_last() =~= sv.subrange(0, i as int));
        if i == 0 {
            assert(out@ =~= sv.subrange(0, 1)[0]);
        }
        i += 1;
    }
    assert(sv.subrange(0, i as int) =~= sv);
    out
}

} // verus!
