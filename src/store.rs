//! Handles on the persistent stores. Opening the database, creating tables
//! and reading or writing rows is done by the caller; these types name where
//! the data lives and carry the stored values.

use crate::outside::{lower_of, lowercase};
use crate::presets::str_eq;
use crate::snippet::string_views;
use crate::text::{trim, trim_range};
use vstd::prelude::*;

verus! {

/// A SQLite database file.
#[derive(Debug, Clone)]
pub struct Database {
    db_path: String,
}

impl Database {
    /// The database stored at `db_path`. The caller creates the parent
    /// directory first.
    pub fn sqlite(db_path: String) -> (r: Database)
        ensures
            r.path()@ == db_path@,
    {
        Database { db_path }
    }

    pub closed spec fn path(&self) -> String {
        self.db_path
    }

    /// Where the database lives.
    pub fn db_path(&self) -> (r: &str)
        ensures
            r@ == self.path()@,
    {
        self.db_path.as_str()
    }
}

/// A stored snippet: its body, tags and description.
#[derive(Debug, Clone)]
pub struct PromptSnippet {
    pub body: String,
    pub tags: Vec<String>,
    pub description: Option<String>,
}

/// What listing the snippets reports of one of them.
#[derive(Debug, Clone)]
pub struct PromptSnippetSummary {
    pub name: String,
    pub tags: Vec<String>,
    pub description: Option<String>,
}

/// The table of named snippets in a database.
#[derive(Debug, Clone)]
pub struct PromptSnippetStore {
    db: Database,
}

impl PromptSnippetStore {
    /// The snippet table of `db`. The caller creates the table first.
    pub fn new(db: Database) -> (r: PromptSnippetStore)
        ensures
            r.database() == db,
    {
        PromptSnippetStore { db }
    }

    pub closed spec fn database(&self) -> Database {
        self.db
    }

    /// The database that holds the table.
    pub fn db(&self) -> (r: &Database)
        ensures
            *r == self.database(),
    {
        &self.db
    }
}

/// The record of the last generation request, in a database file.
#[derive(Debug, Clone)]
pub struct LastGenerationStore {
    db_path: String,
}

impl LastGenerationStore {
    /// The store in the database at `db_path`. The caller creates its
    /// table first.
    pub fn new(db_path: String) -> (r: LastGenerationStore)
        ensures
            r.path()@ == db_path@,
    {
        LastGenerationStore { db_path }
    }

    pub closed spec fn path(&self) -> String {
        self.db_path
    }

    /// Where the database lives.
    pub fn db_path(&self) -> (r: &str)
        ensures
            r@ == self.path()@,
    {
        self.db_path.as_str()
    }
}

/// The generation presets, in a database file.
#[derive(Debug, Clone)]
pub struct PresetStore {
    db_path: String,
}

impl PresetStore {
    /// The store in the database at `db_path`. The caller creates its
    /// table first.
    pub fn new(db_path: String) -> (r: PresetStore)
        ensures
            r.path()@ == db_path@,
    {
        PresetStore { db_path }
    }

    pub closed spec fn path(&self) -> String {
        self.db_path
    }

    /// Where the database lives.
    pub fn db_path(&self) -> (r: &str)
        ensures
            r@ == self.path()@,
    {
        self.db_path.as_str()
    }
}

/// `t` as a one-element list, or nothing when it is empty.
pub open spec fn kept(t: Seq<char>) -> Seq<Seq<char>> {
    if t.len() == 0 {
        Seq::empty()
    } else {
        seq![t]
    }
}

/// The trimmed, non-empty comma-separated fields of `s` from position `i`,
/// the current field having begun at `start`.
pub open spec fn tags_from(s: Seq<char>, i: int, start: int) -> Seq<Seq<char>>
    decreases s.len() - i,
{
    if i >= s.len() {
        kept(trim(s.subrange(start, s.len() as int)))
    } else if s[i] == ',' {
        kept(trim(s.subrange(start, i))) + tags_from(s, i + 1, i + 1)
    } else {
        tags_from(s, i + 1, start)
    }
}

fn push_trimmed(out: &mut Vec<String>, s: &str, from: usize, to: usize)
    requires
        from <= to <= s@.len(),
    ensures
        string_views(final(out)@) == string_views(old(out)@) + kept(trim(s@.subrange(from as int, to as int))),
{
    let (x, y) = trim_range(s, from, to);
    if x < y {
        let ghost o = out@;
        let t = String::from_str(s.substring_char(x, y));
        out.push(t);
        assert(string_views(out@) =~= string_views(o) + seq![t@]);
    } else {
        assert(string_views(old(out)@) + Seq::<Seq<char>>::empty() =~= string_views(old(out)@));
    }
}

/// The tags of a comma-separated list: each field trimmed, empty ones
/// dropped; none when the list is absent.
pub fn parse_tags(tags: Option<String>) -> (r: Vec<String>)
    ensures
        string_views(r@) == match tags {
            Some(s) => tags_from(s@, 0, 0),
            None => Seq::empty(),
        },
{
    let mut out: Vec<String> = Vec::new();
    match tags {
        None => {
            assert(string_views(out@) =~= Seq::<Seq<char>>::empty());
            out
        },
        Some(text) => {
            let s = text.as_str();
            let ghost t = s@;
            let n = s.unicode_len();
            let mut i: usize = 0;
            let mut start: usize = 0;
            assert(string_views(out@) =~= Seq::<Seq<char>>::empty());
            while i < n
                invariant
                    t == s@,
                    n == t.len(),
                    start <= i <= n,
                    string_views(out@) + tags_from(t, i as int, start as int) == tags_from(t, 0, 0),
                decreases n - i,
            {
                if s.get_char(i) == ',' {
                    let ghost o = string_views(out@);
                    push_trimmed(&mut out, s, start, i);
                    assert(o + (kept(trim(t.subrange(start as int, i as int))) + tags_from(t, i + 1, i + 1))
                        =~= string_views(out@) + tags_from(t, i + 1, i + 1));
                    i += 1;
                    start = i;
                } else {
                    i += 1;
                }
            }
            push_trimmed(&mut out, s, start, n);
            out
        },
    }
}

/// Code-point lexicographic order, the order of `str`'s comparison.
pub open spec fn lex_lt(a: Seq<char>, b: Seq<char>) -> bool
    decreases a.len(),
{
    if a.len() == 0 {
        b.len() > 0
    } else if b.len() == 0 {
        false
    } else if a[0] != b[0] {
        a[0] < b[0]
    } else {
        lex_lt(a.skip(1), b.skip(1))
    }
}

proof fn lemma_lex_total(a: Seq<char>, b: Seq<char>)
    ensures
        a == b || lex_lt(a, b) || lex_lt(b, a),
        !(lex_lt(a, b) && lex_lt(b, a)),
        !lex_lt(a, a),
    decreases a.len(),
{
    if a.len() > 0 && b.len() > 0 {
        lemma_lex_total(a.skip(1), b.skip(1));
        if a[0] == b[0] && a.skip(1) == b.skip(1) {
            assert forall|k: int| 0 <= k < a.len() implies a[k] == b[k] by {
                if k > 0 {
                    assert(a[k] == a.skip(1)[k - 1]);
                    assert(b[k] == b.skip(1)[k - 1]);
                }
            }
            assert(a =~= b);
        }
        lemma_lex_total(a.skip(1), a.skip(1));
    } else if a.len() > 0 {
        lemma_lex_total(a.skip(1), a.skip(1));
    } else if b.len() == 0 {
        assert(a =~= b);
    }
}

proof fn lemma_lex_trans(a: Seq<char>, b: Seq<char>, c: Seq<char>)
    requires
        lex_lt(a, b),
        lex_lt(b, c),
    ensures
        lex_lt(a, c),
    decreases a.len(),
{
    if a.len() > 0 && b.len() > 0 && c.len() > 0 && a[0] == b[0] && b[0] == c[0] {
        lemma_lex_trans(a.skip(1), b.skip(1), c.skip(1));
    }
}

/// Strictly increasing: sorted without repeats.
pub open spec fn strictly_sorted(s: Seq<Seq<char>>) -> bool {
    forall|i: int, j: int| 0 <= i < j < s.len() ==> lex_lt(s[i], s[j])
}

/// Whether `a` comes before `b`.
pub fn lex_less(a: &str, b: &str) -> (r: bool)
    ensures
        r == lex_lt(a@, b@),
{
    let n = a.unicode_len();
    let m = b.unicode_len();
    let mut i: usize = 0;
    assert(a@.skip(0) =~= a@);
    assert(b@.skip(0) =~= b@);
    while i < n && i < m
        invariant
            n == a@.len(),
            m == b@.len(),
            i <= n,
            i <= m,
            lex_lt(a@, b@) == lex_lt(a@.skip(i as int), b@.skip(i as int)),
        decreases n - i,
    {
        let x = a.get_char(i);
        let y = b.get_char(i);
        assert(a@.skip(i as int)[0] == x && b@.skip(i as int)[0] == y);
        if x != y {
            return x < y;
        }
        assert(a@.skip(i as int).skip(1) =~= a@.skip(i + 1));
        assert(b@.skip(i as int).skip(1) =~= b@.skip(i + 1));
        i += 1;
    }
    i == n && i < m
}

/// Whether some tag, trimmed, is not empty and lower-cases to `x`.
pub open spec fn tag_source(tags: Seq<Seq<char>>, x: Seq<char>) -> bool {
    exists|k: int| 0 <= k < tags.len() && trim(#[trigger] tags[k]).len() > 0 && x == lower_of(trim(tags[k]))
}

/// Tags trimmed, empty ones dropped, lower-cased, de-duplicated and sorted.
pub fn normalize_tags(tags: &Vec<String>) -> (r: Vec<String>)
    ensures
        strictly_sorted(string_views(r@)),
        forall|x: Seq<char>| string_views(r@).contains(x) <==> tag_source(string_views(tags@), x),
{
    let ghost tv = string_views(tags@);
    let mut out: Vec<String> = Vec::new();
    let mut k: usize = 0;
    while k < tags.len()
        invariant
            k <= tags@.len(),
            tv == string_views(tags@),
            strictly_sorted(string_views(out@)),
            forall|x: Seq<char>| string_views(out@).contains(x) <==> tag_source(tv.subrange(0, k as int), x),
        decreases tags@.len() - k,
    {
        let t = tags[k].as_str();
        let n = t.unicode_len();
        let (x0, y0) = trim_range(t, 0, n);
        assert(t@.subrange(0, n as int) =~= t@);
        let ghost ov = string_views(out@);
        if x0 < y0 {
            let low = lowercase(t.substring_char(x0, y0));
            let ghost lv = low@;
            let mut i: usize = 0;
            while i < out.len() && lex_less(out[i].as_str(), low.as_str())
                invariant
                    i <= out@.len(),
                    ov == string_views(out@),
                    lv == low@,
                    forall|j: int| 0 <= j < i ==> lex_lt(ov[j], lv),
                decreases out@.len() - i,
            {
                i += 1;
            }
            if i < out.len() && str_eq(out[i].as_str(), low.as_str()) {
                assert(string_views(out@)[i as int] == lv);
            } else {
                proof {
                    if i < ov.len() {
                        lemma_lex_total(ov[i as int], lv);
                        assert forall|j: int| i <= j < ov.len() implies lex_lt(lv, ov[j]) by {
                            if j > i {
                                lemma_lex_trans(lv, ov[i as int], ov[j]);
                            }
                        }
                    }
                }
                out.insert(i, low);
                proof {
                    let nv = string_views(out@);
                    assert(nv =~= ov.insert(i as int, lv));
                    assert forall|a: int, b: int| 0 <= a < b < nv.len() implies lex_lt(nv[a], nv[b]) by {
                        if a < i && b == i {
                        } else if a < i && b > i {
                            lemma_lex_trans(nv[a], lv, nv[b]);
                        } else if a == i {
                        } else if b < i {
                            assert(nv[a] == ov[a] && nv[b] == ov[b]);
                        } else {
                            assert(nv[a] == ov[a - 1] && nv[b] == ov[b - 1]);
                        }
                    }
                    assert(nv[i as int] == lv);
                    assert forall|x: Seq<char>| ov.contains(x) implies nv.contains(x) by {
                        let m = choose|m: int| 0 <= m < ov.len() && ov[m] == x;
                        if m < i {
                            assert(nv[m] == x);
                        } else {
                            assert(nv[m + 1] == x);
                        }
                    }
                }
            }
            proof {
                let nv = string_views(out@);
                assert(nv.contains(lv));
                assert forall|x: Seq<char>| nv.contains(x) <==> tag_source(tv.subrange(0, k + 1), x) by {
                    let pre = tv.subrange(0, k as int);
                    let post = tv.subrange(0, k + 1);
                    assert(post[k as int] == tv[k as int]);
                    assert(tv[k as int] == t@);
                    assert(t@.subrange(x0 as int, y0 as int) == trim(t@));
                    if tag_source(pre, x) {
                        let m = choose|m: int| 0 <= m < pre.len() && trim(#[trigger] pre[m]).len() > 0 && x == lower_of(trim(pre[m]));
                        assert(post[m] == pre[m]);
                    }
                    if tag_source(post, x) {
                        let m = choose|m: int| 0 <= m < post.len() && trim(#[trigger] post[m]).len() > 0 && x == lower_of(trim(post[m]));
                        if m < k {
                            assert(pre[m] == post[m]);
                        }
                    }
                    if nv.contains(x) && x != lv {
                        let m = choose|m: int| 0 <= m < nv.len() && nv[m] == x;
                        assert(ov.contains(x));
                    }
                }
            }
        } else {
            proof {
                assert forall|x: Seq<char>| ov.contains(x) <==> tag_source(tv.subrange(0, k + 1), x) by {
                    let pre = tv.subrange(0, k as int);
                    let post = tv.subrange(0, k + 1);
                    assert(tv[k as int] == t@);
                    assert(trim(t@).len() == 0);
                    if tag_source(pre, x) {
                        let m = choose|m: int| 0 <= m < pre.len() && trim(#[trigger] pre[m]).len() > 0 && x == lower_of(trim(pre[m]));
                        assert(post[m] == pre[m]);
                    }
                    if tag_source(post, x) {
                        let m = choose|m: int| 0 <= m < post.len() && trim(#[trigger] post[m]).len() > 0 && x == lower_of(trim(post[m]));
                        assert(m < k);
                        assert(pre[m] == post[m]);
                    }
                }
            }
        }
        k += 1;
    }
    assert(tv.subrange(0, k as int) =~= tv);
    out
}

/// `n` occurs in `h`.
pub open spec fn occurs_in(h: Seq<char>, n: Seq<char>) -> bool {
    exists|i: int| 0 <= i && i + n.len() <= h.len() && #[trigger] h.subrange(i, i + n.len()) == n
}

/// Whether `needle` occurs in `hay`.
pub fn contains_text(hay: &str, needle: &str) -> (r: bool)
    ensures
        r == occurs_in(hay@, needle@),
{
    let h = hay.unicode_len();
    let n = needle.unicode_len();
    if n > h {
        proof {
            assert forall|i: int| 0 <= i && i + n <= h implies #[trigger] hay@.subrange(i, i + n) != needle@ by {}
        }
        return false;
    }
    let mut i: usize = 0;
    while i <= h - n
        invariant
            h == hay@.len(),
            n == needle@.len(),
            n <= h,
            i <= h - n + 1,
            forall|k: int| 0 <= k < i ==> #[trigger] hay@.subrange(k, k + n) != needle@,
        decreases h - n + 1 - i,
    {
        if str_eq(hay.substring_char(i, i + n), needle) {
            return true;
        }
        if i == h - n {
            return false;
        }
        i += 1;
    }
    false
}

/// Whether a snippet is listed for a search: with a query, a snippet is left
/// out when neither its name nor any tag holds the query and its
/// description does (all lower-cased); with wanted tags, it is left out
/// unless one of its tags, lower-cased, is among them.
pub open spec fn listed(
    name: Seq<char>,
    tags: Seq<Seq<char>>,
    description: Option<Seq<char>>,
    query: Option<Seq<char>>,
    wanted: Seq<Seq<char>>,
) -> bool {
    let by_query = match query {
        Some(q) => {
            let needle = lower_of(q);
            !occurs_in(lower_of(name), needle) && !(exists|k: int|
                0 <= k < tags.len() && occurs_in(lower_of(#[trigger] tags[k]), needle)) && match description {
                Some(d) => occurs_in(lower_of(d), needle),
                None => false,
            }
        },
        None => false,
    };
    let by_tags = wanted.len() > 0 && !(exists|k: int|
        0 <= k < tags.len() && wanted.contains(lower_of(#[trigger] tags[k])));
    !by_query && !by_tags
}

fn any_tag_holds(tags: &Vec<String>, needle: &str) -> (r: bool)
    ensures
        r == exists|k: int| 0 <= k < tags@.len() && occurs_in(lower_of(#[trigger] string_views(tags@)[k]), needle@),
{
    let ghost tv = string_views(tags@);
    let mut k: usize = 0;
    while k < tags.len()
        invariant
            k <= tags@.len(),
            tv == string_views(tags@),
            forall|m: int| 0 <= m < k ==> !occurs_in(lower_of(#[trigger] tv[m]), needle@),
        decreases tags@.len() - k,
    {
        let low = lowercase(tags[k].as_str());
        if contains_text(low.as_str(), needle) {
            assert(occurs_in(lower_of(tv[k as int]), needle@));
            return true;
        }
        k += 1;
    }
    false
}

fn any_tag_wanted(tags: &Vec<String>, wanted: &Vec<String>) -> (r: bool)
    ensures
        r == exists|k: int| 0 <= k < tags@.len() && string_views(wanted@).contains(lower_of(#[trigger] string_views(tags@)[k])),
{
    let ghost tv = string_views(tags@);
    let ghost wv = string_views(wanted@);
    let mut k: usize = 0;
    while k < tags.len()
        invariant
            k <= tags@.len(),
            tv == string_views(tags@),
            wv == string_views(wanted@),
            forall|m: int| 0 <= m < k ==> !wv.contains(lower_of(#[trigger] tv[m])),
        decreases tags@.len() - k,
    {
        let low = lowercase(tags[k].as_str());
        let mut j: usize = 0;
        while j < wanted.len()
            invariant
                j <= wanted@.len(),
                k < tags@.len(),
                tv == string_views(tags@),
                wv == string_views(wanted@),
                low@ == lower_of(tv[k as int]),
                forall|m: int| 0 <= m < j ==> wv[m] != low@,
            decreases wanted@.len() - j,
        {
            if str_eq(wanted[j].as_str(), low.as_str()) {
                assert(wv[j as int] == low@);
                assert(wv.contains(lower_of(tv[k as int])));
                return true;
            }
            j += 1;
        }
        k += 1;
    }
    false
}

/// See [`listed`]; `wanted` holds the normalised tags searched for.
pub fn snippet_listed(
    name: &str,
    snippet: &PromptSnippet,
    query: Option<&str>,
    wanted: &Vec<String>,
) -> (r: bool)
    ensures
        r == listed(
            name@,
            string_views(snippet.tags@),
            match snippet.description {
                Some(d) => Some(d@),
                None => None,
            },
            match query {
                Some(q) => Some(q@),
                None => None,
            },
            string_views(wanted@),
        ),
{
    let by_query = match query {
        Some(q) => {
            let needle = lowercase(q);
            let n = needle.as_str();
            let in_desc = match &snippet.description {
                Some(d) => contains_text(lowercase(d.as_str()).as_str(), n),
                None => false,
            };
            !contains_text(lowercase(name).as_str(), n) && !any_tag_holds(&snippet.tags, n) && in_desc
        },
        None => false,
    };
    let by_tags = wanted.len() > 0 && !any_tag_wanted(&snippet.tags, wanted);
    !by_query && !by_tags
}

} // verus!
