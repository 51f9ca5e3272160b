//! Text normalisation applied to prompt text: per line, runs of commas and
//! whitespace that hold a comma become ", ", runs of spaces become one space,
//! and the line is trimmed. Line breaks are kept.

use vstd::prelude::*;

verus! {

/// Unicode White_Space.
pub open spec fn is_space(c: char) -> bool {
    let u = c as u32;
    (9 <= u && u <= 13) || u == 32 || u == 0x85 || u == 0xA0 || u == 0x1680 || (0x2000 <= u && u
        <= 0x200A) || u == 0x2028 || u == 0x2029 || u == 0x202F || u == 0x205F || u == 0x3000
}

/// See [`is_space`].
pub fn is_space_char(c: char) -> (r: bool)
    ensures
        r == is_space(c),
{
    let u = c as u32;
    (9 <= u && u <= 13) || u == 32 || u == 0x85 || u == 0xA0 || u == 0x1680 || (0x2000 <= u && u
        <= 0x200A) || u == 0x2028 || u == 0x2029 || u == 0x202F || u == 0x205F || u == 0x3000
}

pub open spec fn trim_start(s: Seq<char>) -> Seq<char>
    decreases s.len(),
{
    if s.len() > 0 && is_space(s[0]) {
        trim_start(s.skip(1))
    } else {
        s
    }
}

pub open spec fn trim_end(s: Seq<char>) -> Seq<char>
    decreases s.len(),
{
    if s.len() > 0 && is_space(s.last()) {
        trim_end(s.drop_last())
    } else {
        s
    }
}

/// `s` without leading and trailing white space.
pub open spec fn trim(s: Seq<char>) -> Seq<char> {
    trim_end(trim_start(s))
}

/// The bounds of `s[from..to]` once trimmed.
pub fn trim_range(s: &str, from: usize, to: usize) -> (r: (usize, usize))
    requires
        from <= to <= s@.len(),
    ensures
        from <= r.0 <= r.1 <= to,
        s@.subrange(r.0 as int, r.1 as int) == trim(s@.subrange(from as int, to as int)),
{
    let ghost t = s@;
    let mut i = from;
    while i < to && is_space_char(s.get_char(i))
        invariant
            from <= i <= to <= t.len(),
            t == s@,
            trim_start(t.subrange(from as int, to as int)) == trim_start(t.subrange(i as int, to as int)),
        decreases to - i,
    {
        assert(t.subrange(i as int, to as int).skip(1) =~= t.subrange(i + 1, to as int));
        i += 1;
    }
    assert(trim_start(t.subrange(i as int, to as int)) == t.subrange(i as int, to as int));
    let mut j = to;
    while j > i && is_space_char(s.get_char(j - 1))
        invariant
            from <= i <= j <= to <= t.len(),
            t == s@,
            trim_end(t.subrange(i as int, to as int)) == trim_end(t.subrange(i as int, j as int)),
        decreases j - i,
    {
        assert(t.subrange(i as int, j as int).drop_last() =~= t.subrange(i as int, j - 1));
        j -= 1;
    }
    (i, j)
}

/// A comma or white space.
pub open spec fn is_separator(c: char) -> bool {
    c == ',' || is_space(c)
}

/// Comma collapsing from position `i`, where `s[rs..i]` is a pending run of
/// separators and `comma` tells whether it holds a comma.
pub open spec fn collapse_commas_from(s: Seq<char>, i: int, rs: int, comma: bool) -> Seq<char>
    decreases s.len() - i,
{
    if i < s.len() && is_separator(s[i]) {
        collapse_commas_from(s, i + 1, rs, comma || s[i] == ',')
    } else {
        let pending = if comma {
            seq![',', ' ']
        } else {
            s.subrange(rs, i)
        };
        if i >= s.len() {
            pending
        } else {
            pending + seq![s[i]] + collapse_commas_from(s, i + 1, i + 1, false)
        }
    }
}

/// Every maximal run of commas and white space that holds a comma becomes
/// ", ".
pub open spec fn collapse_commas(s: Seq<char>) -> Seq<char> {
    collapse_commas_from(s, 0, 0, false)
}

/// Space collapsing from position `i`; `in_run` tells whether `s[i - 1]` was
/// a space.
pub open spec fn collapse_spaces_from(s: Seq<char>, i: int, in_run: bool) -> Seq<char>
    decreases s.len() - i,
{
    if i >= s.len() {
        Seq::empty()
    } else if s[i] == ' ' {
        if in_run {
            collapse_spaces_from(s, i + 1, true)
        } else {
            seq![' '] + collapse_spaces_from(s, i + 1, true)
        }
    } else {
        seq![s[i]] + collapse_spaces_from(s, i + 1, false)
    }
}

/// Every run of spaces becomes one space.
pub open spec fn collapse_spaces(s: Seq<char>) -> Seq<char> {
    collapse_spaces_from(s, 0, false)
}

/// The normal form of one line.
pub open spec fn normalize_line_spec(s: Seq<char>) -> Seq<char> {
    trim(collapse_spaces(collapse_commas(s)))
}

/// Normalisation from position `i`, where the current line began at `ls`.
pub open spec fn format_from(t: Seq<char>, i: int, ls: int) -> Seq<char>
    decreases t.len() - i,
{
    if i >= t.len() {
        normalize_line_spec(t.subrange(ls, t.len() as int))
    } else if t[i] == '\n' {
        normalize_line_spec(t.subrange(ls, i)) + seq!['\n'] + format_from(t, i + 1, i + 1)
    } else {
        format_from(t, i + 1, ls)
    }
}

/// Each line normalised, line breaks kept.
pub open spec fn format_text(t: Seq<char>) -> Seq<char> {
    format_from(t, 0, 0)
}

fn push_char_of(out: &mut String, s: &str, i: usize)
    requires
        i < s@.len(),
        s@.len() <= usize::MAX,
    ensures
        final(out)@ == old(out)@.push(s@[i as int]),
{
    out.append(s.substring_char(i, i + 1));
    assert(s@.subrange(i as int, i + 1) =~= seq![s@[i as int]]);
    assert(old(out)@ + seq![s@[i as int]] =~= old(out)@.push(s@[i as int]));
}

/// See [`collapse_commas`].
pub fn collapse_comma_runs(s: &str) -> (r: String)
    ensures
        r@ == collapse_commas(s@),
{
    let ghost t = s@;
    let n = s.unicode_len();
    let mut out = String::new();
    let mut i: usize = 0;
    let mut rs: usize = 0;
    let mut comma = false;
    proof {
        reveal_strlit(", ");
    }
    while i < n
        invariant
            t == s@,
            n == t.len(),
            rs <= i <= n,
            out@ + collapse_commas_from(t, i as int, rs as int, comma) == collapse_commas(t),
        decreases n - i,
    {
        let c = s.get_char(i);
        if c == ',' || is_space_char(c) {
            comma = comma || c == ',';
            i += 1;
        } else {
            let ghost before = out@;
            proof {
                reveal_strlit(", ");
            }
            if comma {
                out.append(", ");
            } else {
                out.append(s.substring_char(rs, i));
            }
            push_char_of(&mut out, s, i);
            proof {
                let pending = if comma { seq![',', ' '] } else { t.subrange(rs as int, i as int) };
                assert(out@ == before + pending + seq![t[i as int]]);
                assert(before + (pending + seq![t[i as int]] + collapse_commas_from(t, i + 1, i + 1, false))
                    =~= out@ + collapse_commas_from(t, i + 1, i + 1, false));
            }
            i += 1;
            rs = i;
            comma = false;
        }
    }
    if comma {
        out.append(", ");
    } else {
        out.append(s.substring_char(rs, i));
    }
    out
}

/// See [`collapse_spaces`].
pub fn collapse_space_runs(s: &str) -> (r: String)
    ensures
        r@ == collapse_spaces(s@),
{
    let ghost t = s@;
    let n = s.unicode_len();
    let mut out = String::new();
    let mut i: usize = 0;
    let mut in_run = false;
    while i < n
        invariant
            t == s@,
            n == t.len(),
            i <= n,
            out@ + collapse_spaces_from(t, i as int, in_run) == collapse_spaces(t),
        decreases n - i,
    {
        let c = s.get_char(i);
        let ghost before = out@;
        if c == ' ' {
            if !in_run {
                push_char_of(&mut out, s, i);
                assert(before + (seq![' '] + collapse_spaces_from(t, i + 1, true)) =~= out@
                    + collapse_spaces_from(t, i + 1, true));
            }
            in_run = true;
        } else {
            push_char_of(&mut out, s, i);
            assert(before + (seq![c] + collapse_spaces_from(t, i + 1, false)) =~= out@
                + collapse_spaces_from(t, i + 1, false));
            in_run = false;
        }
        i += 1;
    }
    assert(out@ + Seq::<char>::empty() =~= out@);
    out
}

/// The normal form of one line; see [`normalize_line_spec`].
pub fn normalize_line(s: &str) -> (r: String)
    ensures
        r@ == normalize_line_spec(s@),
{
    let a = collapse_comma_runs(s);
    let b = collapse_space_runs(a.as_str());
    let bs = b.as_str();
    let n = bs.unicode_len();
    let (x, y) = trim_range(bs, 0, n);
    assert(bs@.subrange(0, n as int) =~= bs@);
    String::from_str(bs.substring_char(x, y))
}

/// Normalises prompt text line by line when `format_input` is set, and
/// returns it unchanged otherwise.
pub fn format_str(format_input: bool, text: &str) -> (r: String)
    ensures
        r@ == if format_input { format_text(text@) } else { text@ },
{
    if !format_input {
        return String::from_str(text);
    }
    let ghost t = text@;
    let n = text.unicode_len();
    let mut out = String::new();
    let mut i: usize = 0;
    let mut ls: usize = 0;
    proof {
        reveal_strlit("\n");
    }
    while i < n
        invariant
            t == text@,
            n == t.len(),
            ls <= i <= n,
            out@ + format_from(t, i as int, ls as int) == format_text(t),
        decreases n - i,
    {
        if text.get_char(i) == '\n' {
            let ghost before = out@;
            let line = normalize_line(text.substring_char(ls, i));
            out.append(line.as_str());
            proof {
                reveal_strlit("\n");
            }
            out.append("\n");
            assert(before + (normalize_line_spec(t.subrange(ls as int, i as int)) + seq!['\n']
                + format_from(t, i + 1, i + 1)) =~= out@ + format_from(t, i + 1, i + 1));
            i += 1;
            ls = i;
        } else {
            i += 1;
        }
    }
    let line = normalize_line(text.substring_char(ls, n));
    out.append(line.as_str());
    out
}

} // verus!
