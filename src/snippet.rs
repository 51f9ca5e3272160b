//! Recursive snippet expansion: every `<snippet:NAME>` token in a text is
//! replaced by the named snippet's body, itself expanded, with cycle
//! detection, a depth bound and a budget of resolutions shared by one call.

use crate::text::{format_str, format_text, is_space, is_space_char, trim, trim_range};
use vstd::prelude::*;

verus! {

/// How deep snippets may nest.
pub const MAX_DEPTH: usize = 8;

/// How many snippet tokens one expansion call resolves at most.
pub const MAX_TOTAL_EXPANSIONS: usize = 64;

/// A diagnostic produced while expanding; expansion itself never fails.
#[derive(Debug)]
pub enum ExpansionWarning {
    /// A token whose name is empty once trimmed.
    EmptyName,
    /// The budget of resolutions was used up; the named token was skipped.
    BudgetExhausted(String),
    /// The named snippet lies deeper than `MAX_DEPTH`.
    DepthExceeded(String),
    /// A cycle: the names being expanded, then the name that closes it.
    Cycle(Vec<String>),
    /// No snippet has this name.
    NotFound(String),
    /// The named snippet expanded to nothing.
    ExpandedEmpty(String),
}

/// The mathematical value of an [`ExpansionWarning`].
pub enum WarningView {
    EmptyName,
    BudgetExhausted(Seq<char>),
    DepthExceeded(Seq<char>),
    Cycle(Seq<Seq<char>>),
    NotFound(Seq<char>),
    ExpandedEmpty(Seq<char>),
}

pub open spec fn string_views(v: Seq<String>) -> Seq<Seq<char>> {
    v.map_values(|s: String| s@)
}

impl View for ExpansionWarning {
    type V = WarningView;

    open spec fn view(&self) -> WarningView {
        match self {
            ExpansionWarning::EmptyName => WarningView::EmptyName,
            ExpansionWarning::BudgetExhausted(n) => WarningView::BudgetExhausted(n@),
            ExpansionWarning::DepthExceeded(n) => WarningView::DepthExceeded(n@),
            ExpansionWarning::Cycle(c) => WarningView::Cycle(string_views(c@)),
            ExpansionWarning::NotFound(n) => WarningView::NotFound(n@),
            ExpansionWarning::ExpandedEmpty(n) => WarningView::ExpandedEmpty(n@),
        }
    }
}

/// The snippets that expansion may use, as (name, body) pairs; the first
/// pair with a name wins.
pub struct SnippetTable {
    pub entries: Vec<(String, String)>,
}

pub open spec fn pair_views(v: Seq<(String, String)>) -> Seq<(Seq<char>, Seq<char>)> {
    v.map_values(|p: (String, String)| (p.0@, p.1@))
}

impl View for SnippetTable {
    type V = Seq<(Seq<char>, Seq<char>)>;

    open spec fn view(&self) -> Seq<(Seq<char>, Seq<char>)> {
        pair_views(self.entries@)
    }
}

/// The value paired with the first occurrence of `name`.
pub open spec fn first_match(s: Seq<(Seq<char>, Seq<char>)>, name: Seq<char>) -> Option<Seq<char>>
    decreases s.len(),
{
    if s.len() == 0 {
        None
    } else if s[0].0 == name {
        Some(s[0].1)
    } else {
        first_match(s.skip(1), name)
    }
}

/// The state shared by one expansion call.
pub struct ExpandState {
    /// Names already expanded, with their expansion.
    pub cache: Seq<(Seq<char>, Seq<char>)>,
    /// Resolutions attempted so far.
    pub total: nat,
    pub warnings: Seq<WarningView>,
}

pub open spec fn fresh_state() -> ExpandState {
    ExpandState { cache: Seq::empty(), total: 0, warnings: Seq::empty() }
}

pub open spec fn warn(st: ExpandState, w: WarningView) -> ExpandState {
    ExpandState { warnings: st.warnings.push(w), ..st }
}

/// How many white-space characters start at `i`.
pub open spec fn space_run(t: Seq<char>, i: int) -> nat
    decreases t.len() - i,
{
    if 0 <= i < t.len() && is_space(t[i]) {
        1 + space_run(t, i + 1)
    } else {
        0
    }
}

/// How many characters other than '>' start at `i`.
pub open spec fn open_run(t: Seq<char>, i: int) -> nat
    decreases t.len() - i,
{
    if 0 <= i < t.len() && t[i] != '>' {
        1 + open_run(t, i + 1)
    } else {
        0
    }
}

pub open spec fn keyword() -> Seq<char> {
    seq!['s', 'n', 'i', 'p', 'p', 'e', 't', ':']
}

/// A token starting at `s`: '<', white space, "snippet:", at least one
/// character other than '>', then '>'. Gives where the name region starts
/// and where the closing '>' stands.
pub open spec fn token_at(t: Seq<char>, s: int) -> Option<(int, int)> {
    if 0 <= s < t.len() && t[s] == '<' {
        let j = s + 1 + space_run(t, s + 1);
        let a = j + 8;
        let g = a + open_run(t, a);
        if a <= t.len() && t.subrange(j, a) == keyword() && g < t.len() && g > a {
            Some((a, g))
        } else {
            None
        }
    } else {
        None
    }
}

/// Remaining depth, the first part of the measure of expansion.
pub open spec fn depth_left(d: nat) -> nat {
    if d <= MAX_DEPTH {
        (MAX_DEPTH - d) as nat
    } else {
        0
    }
}

pub open spec fn finish_text(raw: Seq<char>, fmt: bool) -> Seq<char> {
    if fmt {
        format_text(raw)
    } else {
        raw
    }
}

/// Expansion of `t` from position `p`: the text produced, before
/// normalisation, and the state after it.
pub open spec fn scan(
    lib: Seq<(Seq<char>, Seq<char>)>,
    t: Seq<char>,
    p: int,
    st: ExpandState,
    stack: Seq<Seq<char>>,
    d: nat,
    fmt: bool,
) -> (Seq<char>, ExpandState)
    decreases depth_left(d), 1nat, t.len() - p,
{
    if p < 0 || p >= t.len() {
        (Seq::empty(), st)
    } else {
        match token_at(t, p) {
            None => {
                let (rest, st1) = scan(lib, t, p + 1, st, stack, d, fmt);
                (seq![t[p]] + rest, st1)
            },
            Some((a, g)) => {
                let name = trim(t.subrange(a, g));
                let (sub, st1) = if name.len() == 0 {
                    (Seq::empty(), warn(st, WarningView::EmptyName))
                } else if st.total >= MAX_TOTAL_EXPANSIONS {
                    (Seq::empty(), warn(st, WarningView::BudgetExhausted(name)))
                } else {
                    resolve(lib, name, ExpandState { total: st.total + 1, ..st }, stack, d, fmt)
                };
                let (rest, st2) = scan(lib, t, g + 1, st1, stack, d, fmt);
                (sub + rest, st2)
            },
        }
    }
}

/// The expansion of one snippet name at depth `d`, with `stack` the names
/// being expanded.
pub open spec fn resolve(
    lib: Seq<(Seq<char>, Seq<char>)>,
    name: Seq<char>,
    st: ExpandState,
    stack: Seq<Seq<char>>,
    d: nat,
    fmt: bool,
) -> (Seq<char>, ExpandState)
    decreases depth_left(d), 0nat, 0int,
{
    if d >= MAX_DEPTH {
        (Seq::empty(), warn(st, WarningView::DepthExceeded(name)))
    } else if stack.contains(name) {
        (Seq::empty(), warn(st, WarningView::Cycle(stack.push(name))))
    } else {
        match first_match(st.cache, name) {
            Some(v) => (v, st),
            None => match first_match(lib, name) {
                None => (Seq::empty(), warn(st, WarningView::NotFound(name))),
                Some(body) => {
                    let (raw, st1) = scan(lib, body, 0, st, stack.push(name), d + 1, fmt);
                    let v = finish_text(raw, fmt);
                    let st2 = ExpandState { cache: st1.cache.push((name, v)), ..st1 };
                    (v, if v.len() == 0 { warn(st2, WarningView::ExpandedEmpty(name)) } else { st2 })
                },
            },
        }
    }
}

/// The full expansion of a text: its tokens replaced, then normalised.
pub open spec fn expand_spec(
    lib: Seq<(Seq<char>, Seq<char>)>,
    t: Seq<char>,
    st: ExpandState,
    stack: Seq<Seq<char>>,
    d: nat,
    fmt: bool,
) -> (Seq<char>, ExpandState) {
    let (raw, st1) = scan(lib, t, 0, st, stack, d, fmt);
    (finish_text(raw, fmt), st1)
}

/// The index of the first pair named `name`.
fn find_pair(v: &Vec<(String, String)>, name: &String) -> (r: Option<usize>)
    ensures
        match r {
            Some(i) => i < v@.len() && first_match(pair_views(v@), name@) == Some(v@[i as int].1@),
            None => first_match(pair_views(v@), name@) is None,
        },
{
    let ghost pv = pair_views(v@);
    let mut i: usize = 0;
    assert(pv.skip(0) =~= pv);
    while i < v.len()
        invariant
            i <= v@.len(),
            pv == pair_views(v@),
            first_match(pv, name@) == first_match(pv.skip(i as int), name@),
        decreases v@.len() - i,
    {
        assert(pv.skip(i as int)[0] == pv[i as int]);
        if v[i].0 == *name {
            return Some(i);
        }
        assert(pv.skip(i as int).skip(1) =~= pv.skip(i + 1));
        i += 1;
    }
    None
}

/// Whether `name` is among `stack`.
fn contains_name(stack: &Vec<String>, name: &String) -> (r: bool)
    ensures
        r == string_views(stack@).contains(name@),
{
    let ghost sv = string_views(stack@);
    let mut i: usize = 0;
    while i < stack.len()
        invariant
            i <= stack@.len(),
            sv == string_views(stack@),
            forall|k: int| 0 <= k < i ==> sv[k] != name@,
        decreases stack@.len() - i,
    {
        if stack[i] == *name {
            assert(sv[i as int] == name@);
            return true;
        }
        i += 1;
    }
    false
}

/// An independent copy of a list of strings.
fn copy_strings(v: &Vec<String>) -> (r: Vec<String>)
    ensures
        string_views(r@) == string_views(v@),
{
    let mut r: Vec<String> = Vec::new();
    let mut i: usize = 0;
    while i < v.len()
        invariant
            i <= v@.len(),
            string_views(r@) =~= string_views(v@.subrange(0, i as int)),
        decreases v@.len() - i,
    {
        let ghost r0 = r@;
        let c = v[i].clone();
        r.push(c);
        assert(r@ == r0.push(c));
        assert(string_views(r@) =~= string_views(r0).push(c@));
        assert(string_views(v@.subrange(0, i + 1)) =~= string_views(v@.subrange(0, i as int)).push(v@[i as int]@));
        i += 1;
    }
    assert(v@.subrange(0, v@.len() as int) =~= v@);
    r
}

/// The token starting at `s`, if any; see [`token_at`].
fn find_token(t: &str, n: usize, s: usize) -> (r: Option<(usize, usize)>)
    requires
        n == t@.len(),
        s < n,
    ensures
        match r {
            Some((a, g)) => token_at(t@, s as int) == Some((a as int, g as int)),
            None => token_at(t@, s as int) is None,
        },
{
    let ghost tv = t@;
    if t.get_char(s) != '<' {
        return None;
    }
    let mut i = s + 1;
    while i < n && is_space_char(t.get_char(i))
        invariant
            s + 1 <= i <= n,
            tv[s as int] == '<',
            n == tv.len(),
            tv == t@,
            space_run(tv, s + 1) == (i - (s + 1)) + space_run(tv, i as int),
        decreases n - i,
    {
        i += 1;
    }
    assert(space_run(tv, i as int) == 0);
    let j = i;
    if n - j < 8 {
        return None;
    }
    let kw = "snippet:";
    proof {
        reveal_strlit("snippet:");
    }
    assert(kw@ == keyword());
    let mut k: usize = 0;
    while k < 8
        invariant
            k <= 8,
            j + 8 <= n,
            n == tv.len(),
            tv == t@,
            kw@ == keyword(),
            tv.subrange(j as int, j + k) =~= keyword().subrange(0, k as int),
            j == s + 1 + space_run(tv, s + 1),
            s < n,
            tv[s as int] == '<',
        decreases 8 - k,
    {
        if t.get_char(j + k) != kw.get_char(k) {
            assert(tv.subrange(j as int, j + 8)[k as int] != keyword()[k as int]);
            assert(tv.subrange(j as int, j + 8) != keyword());
            assert(j == s + 1 + space_run(tv, s + 1));
            assert(tv[s as int] == '<');
            assert(token_at(tv, s as int) is None);
            return None;
        }
        k += 1;
        assert(tv.subrange(j as int, j + k) =~= keyword().subrange(0, k as int));
    }
    assert(keyword().subrange(0, 8) =~= keyword());
    let a = j + 8;
    let mut g = a;
    while g < n && t.get_char(g) != '>'
        invariant
            a <= g <= n,
            n == tv.len(),
            tv == t@,
            open_run(tv, a as int) == (g - a) + open_run(tv, g as int),
            a == s + 1 + space_run(tv, s + 1) + 8,
            tv.subrange(a - 8, a as int) == keyword(),
            s < n,
            tv[s as int] == '<',
        decreases n - g,
    {
        g += 1;
    }
    assert(open_run(tv, g as int) == 0);
    if g < n && g > a {
        Some((a, g))
    } else {
        None
    }
}

/// The working state of one expansion call; see [`ExpandState`].
struct ExpansionContext {
    cache: Vec<(String, String)>,
    total: usize,
    warnings: Vec<ExpansionWarning>,
}

pub open spec fn warning_views(v: Seq<ExpansionWarning>) -> Seq<WarningView> {
    v.map_values(|w: ExpansionWarning| w@)
}

impl View for ExpansionContext {
    type V = ExpandState;

    closed spec fn view(&self) -> ExpandState {
        ExpandState {
            cache: pair_views(self.cache@),
            total: self.total as nat,
            warnings: warning_views(self.warnings@),
        }
    }
}

impl ExpansionContext {
    fn warn(&mut self, w: ExpansionWarning)
        ensures
            final(self)@ == warn(old(self)@, w@),
    {
        self.warnings.push(w);
        assert(warning_views(self.warnings@) =~= warning_views(old(self).warnings@).push(w@));
    }
}

/// Expands the tokens of `text` and normalises the result.
fn expand_text(
    lib: &SnippetTable,
    text: &str,
    ctx: &mut ExpansionContext,
    stack: &mut Vec<String>,
    depth: usize,
    fmt: bool,
) -> (r: String)
    requires
        old(ctx)@.total <= MAX_TOTAL_EXPANSIONS,
        depth <= MAX_DEPTH,
    ensures
        (r@, final(ctx)@) == expand_spec(lib@, text@, old(ctx)@, string_views(old(stack)@), depth as nat, fmt),
        final(stack)@ == old(stack)@,
        final(ctx)@.total <= MAX_TOTAL_EXPANSIONS,
    decreases depth_left(depth as nat), 1nat,
{
    let ghost tv = text@;
    let ghost st0 = ctx@;
    let ghost stk = string_views(stack@);
    let ghost stack0 = stack@;
    let n = text.unicode_len();
    let mut out = String::new();
    let mut p: usize = 0;
    while p < n
        invariant
            p <= n,
            n == tv.len(),
            tv == text@,
            depth <= MAX_DEPTH,
            ctx@.total <= MAX_TOTAL_EXPANSIONS,
            stack@ == stack0,
            stk == string_views(stack0),
            out@ + scan(lib@, tv, p as int, ctx@, stk, depth as nat, fmt).0 == scan(lib@, tv, 0, st0, stk, depth as nat, fmt).0,
            scan(lib@, tv, p as int, ctx@, stk, depth as nat, fmt).1 == scan(lib@, tv, 0, st0, stk, depth as nat, fmt).1,
        decreases n - p,
    {
        let ghost before = out@;
        let ghost stp = ctx@;
        match find_token(text, n, p) {
            None => {
                out.append(text.substring_char(p, p + 1));
                assert(tv.subrange(p as int, p + 1) =~= seq![tv[p as int]]);
                assert(before + (seq![tv[p as int]] + scan(lib@, tv, p + 1, stp, stk, depth as nat, fmt).0)
                    =~= out@ + scan(lib@, tv, p + 1, stp, stk, depth as nat, fmt).0);
                p += 1;
            },
            Some((a, g)) => {
                let (x, y) = trim_range(text, a, g);
                let name = String::from_str(text.substring_char(x, y));
                let ghost nv = trim(tv.subrange(a as int, g as int));
                assert(name@ == nv);
                let sub: String;
                if name.as_str().unicode_len() == 0 {
                    ctx.warn(ExpansionWarning::EmptyName);
                    sub = String::new();
                } else if ctx.total >= MAX_TOTAL_EXPANSIONS {
                    ctx.warn(ExpansionWarning::BudgetExhausted(name));
                    sub = String::new();
                } else {
                    ctx.total = ctx.total + 1;
                    sub = resolve_name(lib, name, ctx, stack, depth, fmt);
                }
                out.append(sub.as_str());
                assert(before + (sub@ + scan(lib@, tv, g + 1, ctx@, stk, depth as nat, fmt).0)
                    =~= out@ + scan(lib@, tv, g + 1, ctx@, stk, depth as nat, fmt).0);
                p = g + 1;
            },
        }
    }
    assert(out@ + Seq::<char>::empty() =~= out@);
    format_str(fmt, out.as_str())
}

/// Resolves one snippet name; see [`resolve`].
fn resolve_name(
    lib: &SnippetTable,
    name: String,
    ctx: &mut ExpansionContext,
    stack: &mut Vec<String>,
    depth: usize,
    fmt: bool,
) -> (r: String)
    requires
        old(ctx)@.total <= MAX_TOTAL_EXPANSIONS,
        depth <= MAX_DEPTH,
    ensures
        (r@, final(ctx)@) == resolve(lib@, name@, old(ctx)@, string_views(old(stack)@), depth as nat, fmt),
        final(stack)@ == old(stack)@,
        final(ctx)@.total <= MAX_TOTAL_EXPANSIONS,
    decreases depth_left(depth as nat), 0nat,
{
    if depth >= MAX_DEPTH {
        ctx.warn(ExpansionWarning::DepthExceeded(name));
        return String::new();
    }
    if contains_name(stack, &name) {
        let mut chain = copy_strings(stack);
        chain.push(name);
        assert(string_views(chain@) =~= string_views(stack@).push(name@));
        ctx.warn(ExpansionWarning::Cycle(chain));
        return String::new();
    }
    match find_pair(&ctx.cache, &name) {
        Some(i) => {
            return ctx.cache[i].1.clone();
        },
        None => {},
    }
    match find_pair(&lib.entries, &name) {
        None => {
            ctx.warn(ExpansionWarning::NotFound(name));
            String::new()
        },
        Some(i) => {
            let body = &lib.entries[i].1;
            let ghost stack0 = stack@;
            stack.push(name.clone());
            assert(string_views(stack@) =~= string_views(stack0).push(name@));
            let v = expand_text(lib, body.as_str(), ctx, stack, depth + 1, fmt);
            stack.pop();
            assert(stack@ =~= stack0);
            let ghost c0 = ctx.cache@;
            ctx.cache.push((name.clone(), v.clone()));
            assert(pair_views(ctx.cache@) =~= pair_views(c0).push((name@, v@)));
            if v.as_str().unicode_len() == 0 {
                ctx.warn(ExpansionWarning::ExpandedEmpty(name));
            }
            v
        },
    }
}

/// The result of expanding a pair of prompt texts.
#[derive(Debug)]
pub struct SnippetExpansionResult {
    pub positive: String,
    pub negative: String,
    pub warnings: Vec<ExpansionWarning>,
}

/// The expansion of a positive and a negative text with one shared state:
/// the cache, the budget and the warnings run on from the first into the
/// second.
pub open spec fn expand_pair_spec(
    lib: Seq<(Seq<char>, Seq<char>)>,
    positive: Seq<char>,
    negative: Seq<char>,
    fmt: bool,
) -> (Seq<char>, Seq<char>, Seq<WarningView>) {
    let (p, st1) = expand_spec(lib, positive, fresh_state(), Seq::empty(), 0, fmt);
    let (n, st2) = expand_spec(lib, negative, st1, Seq::empty(), 0, fmt);
    (p, n, st2.warnings)
}

/// Expands the snippet tokens of a positive and a negative prompt text;
/// `format_input` turns on normalisation of every expanded text.
pub fn expand_prompts_pair(
    format_input: bool,
    snippets: &SnippetTable,
    positive: &str,
    negative: &str,
) -> (r: SnippetExpansionResult)
    ensures
        (r.positive@, r.negative@, warning_views(r.warnings@)) == expand_pair_spec(
            snippets@,
            positive@,
            negative@,
            format_input,
        ),
{
    let mut ctx = ExpansionContext { cache: Vec::new(), total: 0, warnings: Vec::new() };
    assert(ctx@ == fresh_state()) by {
        assert(pair_views(ctx.cache@) =~= Seq::<(Seq<char>, Seq<char>)>::empty());
        assert(warning_views(ctx.warnings@) =~= Seq::<WarningView>::empty());
    }
    let mut stack: Vec<String> = Vec::new();
    assert(string_views(stack@) =~= Seq::<Seq<char>>::empty());
    let pos = expand_text(snippets, positive, &mut ctx, &mut stack, 0, format_input);
    assert(string_views(stack@) =~= Seq::<Seq<char>>::empty());
    let neg = expand_text(snippets, negative, &mut ctx, &mut stack, 0, format_input);
    SnippetExpansionResult { positive: pos, negative: neg, warnings: ctx.warnings }
}

/// The names of a chain joined by " -> ".
pub open spec fn join_chain(c: Seq<Seq<char>>) -> Seq<char>
    decreases c.len(),
{
    if c.len() == 0 {
        Seq::empty()
    } else if c.len() == 1 {
        c[0]
    } else {
        join_chain(c.drop_last()) + " -> "@ + c.last()
    }
}

/// The human-readable text of a warning.
pub open spec fn warning_text(w: WarningView) -> Seq<char> {
    match w {
        WarningView::EmptyName => "empty snippet name ignored"@,
        WarningView::BudgetExhausted(n) => "expansion limit reached, skipped snippet: "@ + n,
        WarningView::DepthExceeded(n) => "recursion depth limit reached, skipped snippet: "@ + n,
        WarningView::Cycle(c) => "cyclic snippet reference: "@ + join_chain(c),
        WarningView::NotFound(n) => "snippet not found: "@ + n,
        WarningView::ExpandedEmpty(n) => "snippet expanded to nothing: "@ + n,
    }
}

fn join_names(c: &Vec<String>) -> (r: String)
    ensures
        r@ == join_chain(string_views(c@)),
{
    let ghost cv = string_views(c@);
    let mut out = String::new();
    if c.len() == 0 {
        return out;
    }
    out.append(c[0].as_str());
    assert(cv.subrange(0, 1) =~= seq![cv[0]]);
    let mut i: usize = 1;
    while i < c.len()
        invariant
            1 <= i <= c@.len(),
            cv == string_views(c@),
            out@ == join_chain(cv.subrange(0, i as int)),
        decreases c@.len() - i,
    {
        out.append(" -> ");
        out.append(c[i].as_str());
        assert(cv.subrange(0, i + 1).drop_last() =~= cv.subrange(0, i as int));
        assert(out@ =~= join_chain(cv.subrange(0, i as int)) + " -> "@ + cv[i as int]);
        i += 1;
    }
    assert(cv.subrange(0, c@.len() as int) =~= cv);
    out
}

impl ExpansionWarning {
    /// The human-readable text of the warning; see [`warning_text`].
    pub fn message(&self) -> (r: String)
        ensures
            r@ == warning_text(self@),
    {
        match self {
            ExpansionWarning::EmptyName => String::from_str("empty snippet name ignored"),
            ExpansionWarning::BudgetExhausted(n) => String::from_str(
                "expansion limit reached, skipped snippet: ",
            ).concat(n.as_str()),
            ExpansionWarning::DepthExceeded(n) => String::from_str(
                "recursion depth limit reached, skipped snippet: ",
            ).concat(n.as_str()),
            ExpansionWarning::Cycle(c) => String::from_str("cyclic snippet reference: ").concat(
                join_names(c).as_str(),
            ),
            ExpansionWarning::NotFound(n) => String::from_str("snippet not found: ").concat(
                n.as_str(),
            ),
            ExpansionWarning::ExpandedEmpty(n) => String::from_str(
                "snippet expanded to nothing: ",
            ).concat(n.as_str()),
        }
    }
}

impl SnippetExpansionResult {
    /// The text of every warning, in order.
    pub fn warning_messages(&self) -> (r: Vec<String>)
        ensures
            r@.len() == self.warnings@.len(),
            forall|k: int| 0 <= k < r@.len() ==> (#[trigger] r@[k])@ == warning_text(self.warnings@[k]@),
    {
        let mut r: Vec<String> = Vec::new();
        let mut i: usize = 0;
        while i < self.warnings.len()
            invariant
                i <= self.warnings@.len(),
                r@.len() == i,
                forall|k: int| 0 <= k < i ==> (#[trigger] r@[k])@ == warning_text(self.warnings@[k]@),
            decreases self.warnings@.len() - i,
        {
            r.push(self.warnings[i].message());
            i += 1;
        }
        r
    }
}

/// The prompt texts of a generation request: the main positive and negative
/// text and, for each character, its prompt and undesired-content text.
#[derive(Debug)]
pub struct PromptTexts {
    pub positive: String,
    pub negative: String,
    pub characters: Vec<(String, String)>,
}

/// Empty once trimmed.
pub open spec fn is_blank(s: Seq<char>) -> bool {
    trim(s).len() == 0
}

/// The expansion of one character's pair of texts; a pair whose texts are
/// both blank is left as it is.
pub open spec fn character_expansion(
    lib: Seq<(Seq<char>, Seq<char>)>,
    p: (Seq<char>, Seq<char>),
    fmt: bool,
) -> (Seq<char>, Seq<char>, Seq<WarningView>) {
    if is_blank(p.0) && is_blank(p.1) {
        (p.0, p.1, Seq::empty())
    } else {
        expand_pair_spec(lib, p.0, p.1, fmt)
    }
}

/// The warnings of the character pairs, in order.
pub open spec fn character_warnings(
    lib: Seq<(Seq<char>, Seq<char>)>,
    cs: Seq<(Seq<char>, Seq<char>)>,
    fmt: bool,
) -> Seq<WarningView>
    decreases cs.len(),
{
    if cs.len() == 0 {
        Seq::empty()
    } else {
        character_warnings(lib, cs.drop_last(), fmt) + character_expansion(lib, cs.last(), fmt).2
    }
}

fn blank(s: &str) -> (r: bool)
    ensures
        r == is_blank(s@),
{
    let n = s.unicode_len();
    let (x, y) = trim_range(s, 0, n);
    assert(s@.subrange(0, n as int) =~= s@);
    x == y
}

/// Expands the snippets of every text of a request, in place: the main pair
/// first, then each character pair that is not blank, each pair with a
/// fresh expansion state. Returns all warnings in that order.
pub fn apply_snippets_to_base(
    format_input: bool,
    snippets: &SnippetTable,
    base: &mut PromptTexts,
) -> (r: Vec<ExpansionWarning>)
    ensures
        ({
            let main = expand_pair_spec(snippets@, old(base).positive@, old(base).negative@, format_input);
            &&& final(base).positive@ == main.0
            &&& final(base).negative@ == main.1
            &&& final(base).characters@.len() == old(base).characters@.len()
            &&& forall|k: int| 0 <= k < old(base).characters@.len() ==> ({
                let e = character_expansion(snippets@, pair_views(old(base).characters@)[k], format_input);
                (#[trigger] final(base).characters@[k]).0@ == e.0 && final(base).characters@[k].1@ == e.1
            })
            &&& warning_views(r@) == main.2 + character_warnings(
                snippets@,
                pair_views(old(base).characters@),
                format_input,
            )
        }),
{
    let ghost cs = pair_views(base.characters@);
    let main = expand_prompts_pair(format_input, snippets, base.positive.as_str(), base.negative.as_str());
    let SnippetExpansionResult { positive, negative, warnings } = main;
    let mut all = warnings;
    let ghost w0 = warning_views(all@);
    base.positive = positive;
    base.negative = negative;
    let mut chars: Vec<(String, String)> = Vec::new();
    let mut i: usize = 0;
    assert(cs.subrange(0, 0) =~= Seq::<(Seq<char>, Seq<char>)>::empty());
    while i < base.characters.len()
        invariant
            i <= base.characters@.len(),
            cs == pair_views(base.characters@),
            chars@.len() == i,
            forall|k: int| 0 <= k < i ==> ({
                let e = character_expansion(snippets@, cs[k], format_input);
                (#[trigger] chars@[k]).0@ == e.0 && chars@[k].1@ == e.1
            }),
            warning_views(all@) == w0 + character_warnings(snippets@, cs.subrange(0, i as int), format_input),
        decreases base.characters@.len() - i,
    {
        let ghost wa = warning_views(all@);
        let ghost e = character_expansion(snippets@, cs[i as int], format_input);
        let prompt = base.characters[i].0.as_str();
        let uc = base.characters[i].1.as_str();
        if blank(prompt) && blank(uc) {
            chars.push((base.characters[i].0.clone(), base.characters[i].1.clone()));
            assert(warning_views(all@) =~= wa + e.2);
        } else {
            let ex = expand_prompts_pair(format_input, snippets, prompt, uc);
            let SnippetExpansionResult { positive, negative, warnings } = ex;
            let mut ws = warnings;
            let ghost wv = warning_views(ws@);
            let ghost a0 = all@;
            all.append(&mut ws);
            assert(warning_views(all@) =~= warning_views(a0) + wv);
            chars.push((positive, negative));
        }
        assert(cs.subrange(0, i + 1).drop_last() =~= cs.subrange(0, i as int));
        assert(warning_views(all@) =~= w0 + character_warnings(snippets@, cs.subrange(0, i + 1), format_input));
        i += 1;
    }
    assert(cs.subrange(0, i as int) =~= cs);
    base.characters = chars;
    all
}

} // verus!
