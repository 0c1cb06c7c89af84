//! Reading a terminal stream: escape-sequence removal, the completion sentinel that
//! carries the command's exit status, and the clean-up of the collected output.
use vstd::prelude::*;
use crate::text::{
    blank, chars_of, copy_chars, contains, contains_seq, digit_value, digits_value, find_at_or_after,
    find_from, is_blank, is_digit, occurs_at, dec, join, join_with, lemma_find_from_some, lemma_views_push,
    lines_of, prefix_of, push_all, split_lines, starts_with, string_of, trim_char,
    trim_char_exec, views,
};

verus! {

broadcast use vstd::string::group_string_axioms;

/// Where the escape-sequence reader stands after the characters read so far.
pub enum AnsiState {
    /// Ordinary text.
    Text,
    /// Just after ESC.
    Esc,
    /// Inside a control sequence (`ESC [`), up to its final byte.
    Csi,
    /// Inside an operating-system command (`ESC ]`), up to BEL or `ESC \`.
    Osc,
    /// ESC seen inside an operating-system command.
    OscEsc,
    /// One more character of a character-set designation (`ESC (` and the like) to skip.
    SkipOne,
}

pub open spec fn text_step(c: char) -> (AnsiState, Option<char>) {
    if c as u32 == 0x1b {
        (AnsiState::Esc, None)
    } else if c as u32 == 7 {
        (AnsiState::Text, None)
    } else {
        (AnsiState::Text, Some(c))
    }
}

/// One character through the escape-sequence reader: the next state and the character
/// that is kept, if any.
pub open spec fn ansi_step(st: AnsiState, c: char) -> (AnsiState, Option<char>) {
    match st {
        AnsiState::Text => text_step(c),
        AnsiState::Esc => {
            if c == '[' {
                (AnsiState::Csi, None)
            } else if c == ']' {
                (AnsiState::Osc, None)
            } else if c == '(' || c == ')' || c == '*' || c == '+' || c == '#' || c == '%' {
                (AnsiState::SkipOne, None)
            } else {
                (AnsiState::Text, None)
            }
        },
        AnsiState::Csi => {
            if 0x40 <= c as u32 <= 0x7e {
                (AnsiState::Text, None)
            } else {
                (AnsiState::Csi, None)
            }
        },
        AnsiState::Osc => {
            if c as u32 == 7 {
                (AnsiState::Text, None)
            } else if c as u32 == 0x1b {
                (AnsiState::OscEsc, None)
            } else {
                (AnsiState::Osc, None)
            }
        },
        AnsiState::OscEsc => {
            if c == '\\' {
                (AnsiState::Text, None)
            } else {
                text_step(c)
            }
        },
        AnsiState::SkipOne => (AnsiState::Text, None),
    }
}

pub open spec fn ansi_run(s: Seq<char>) -> (AnsiState, Seq<char>)
    decreases s.len(),
{
    if s.len() == 0 {
        (AnsiState::Text, seq![])
    } else {
        let (st, out) = ansi_run(s.drop_last());
        let (st2, kept) = ansi_step(st, s.last());
        (
            st2,
            match kept {
                Some(c) => out.push(c),
                None => out,
            },
        )
    }
}

/// `s` without ANSI/ECMA-48 escape sequences (CSI, OSC, two-character sequences) and BEL.
pub open spec fn strip_ansi_spec(s: Seq<char>) -> Seq<char> {
    ansi_run(s).1
}

/// `s` without `\r` and `\n`.
pub open spec fn drop_breaks(s: Seq<char>) -> Seq<char>
    decreases s.len(),
{
    if s.len() == 0 {
        seq![]
    } else if s.last() == '\r' || s.last() == '\n' {
        drop_breaks(s.drop_last())
    } else {
        drop_breaks(s.drop_last()).push(s.last())
    }
}

/// The stream that the sentinel is looked for in: escapes and line breaks removed, so that
/// a sentinel that the terminal wrapped or coloured is still found.
pub open spec fn normalized(s: Seq<char>) -> Seq<char> {
    drop_breaks(strip_ansi_spec(s))
}

pub open spec fn sentinel_prefix() -> Seq<char> {
    "__1PCLI_"@
}

/// What the shell prints before the exit status: `__1PCLI_<token>_`.
pub open spec fn sentinel_needle(token: Seq<char>) -> Seq<char> {
    sentinel_prefix() + token + seq!['_']
}

/// The number of decimal digits at the front of `s`.
pub open spec fn lead_digits(s: Seq<char>) -> nat
    decreases s.len(),
{
    if s.len() > 0 && is_digit(s[0]) {
        1 + lead_digits(s.drop_first())
    } else {
        0
    }
}

pub open spec fn min3(n: nat) -> nat {
    if n < 3 {
        n
    } else {
        3
    }
}

/// The exit status that follows the first occurrence of `needle` at or after `from`
/// that has a digit behind it (at most three digits are read); an occurrence without
/// digits (the echoed `$?`) is skipped and the search goes on after it.
pub open spec fn scan_sentinel(s: Seq<char>, needle: Seq<char>, from: int) -> Option<int>
    decreases s.len() + 1 - from,
{
    if needle.len() == 0 || from < 0 {
        None
    } else {
        match find_from(s, needle, from) {
            None => None,
            Some(i) => {
                let start = i + needle.len();
                let n = min3(lead_digits(s.skip(start)));
                if n > 0 {
                    Some(digits_value(s.subrange(start, start + n)) as int)
                } else {
                    proof {
                        lemma_find_from_some(s, needle, from);
                    }
                    scan_sentinel(s, needle, start)
                }
            },
        }
    }
}

pub open spec fn find_sentinel_spec(normalized: Seq<char>, token: Seq<char>) -> Option<int> {
    scan_sentinel(normalized, sentinel_needle(token), 0)
}

pub open spec fn trim_cr_lines(ls: Seq<Seq<char>>) -> Seq<Seq<char>> {
    ls.map_values(|l: Seq<char>| trim_char(l, '\r'))
}

/// The index of the last line that contains `pat`, or -1.
pub open spec fn rpos_containing(ls: Seq<Seq<char>>, pat: Seq<char>) -> int
    decreases ls.len(),
{
    if ls.len() == 0 {
        -1
    } else if contains_seq(ls.last(), pat) {
        ls.len() - 1
    } else {
        rpos_containing(ls.drop_last(), pat)
    }
}

/// The index of the last line that starts with `pat`, or -1.
pub open spec fn rpos_prefixed(ls: Seq<Seq<char>>, pat: Seq<char>) -> int
    decreases ls.len(),
{
    if ls.len() == 0 {
        -1
    } else if prefix_of(pat, ls.last()) {
        ls.len() - 1
    } else {
        rpos_prefixed(ls.drop_last(), pat)
    }
}

/// The lines that do not contain `pat`, in order.
pub open spec fn without_containing(ls: Seq<Seq<char>>, pat: Seq<char>) -> Seq<Seq<char>>
    decreases ls.len(),
{
    if ls.len() == 0 {
        seq![]
    } else if contains_seq(ls.last(), pat) {
        without_containing(ls.drop_last(), pat)
    } else {
        without_containing(ls.drop_last(), pat).push(ls.last())
    }
}

pub open spec fn drop_blank_front(ls: Seq<Seq<char>>) -> Seq<Seq<char>>
    decreases ls.len(),
{
    if ls.len() > 0 && is_blank(ls[0]) {
        drop_blank_front(ls.drop_first())
    } else {
        ls
    }
}

pub open spec fn drop_blank_back(ls: Seq<Seq<char>>) -> Seq<Seq<char>>
    decreases ls.len(),
{
    if ls.len() > 0 && is_blank(ls.last()) {
        drop_blank_back(ls.drop_last())
    } else {
        ls
    }
}

/// The lines without the blank lines at both ends.
pub open spec fn trim_blank_edges_spec(ls: Seq<Seq<char>>) -> Seq<Seq<char>> {
    drop_blank_back(drop_blank_front(ls))
}

/// The default clean-up of a terminal transcript: escapes removed; everything up to the
/// echoed command line (the last line with the literal `<sentinel>_$`, else the last line
/// starting with ` clear &&`) dropped; everything from the last sentinel line on dropped;
/// remaining sentinel lines dropped; blank lines at both ends dropped; joined by `\n`.
pub open spec fn clean_output_spec(raw: Seq<char>, token: Seq<char>) -> Seq<char> {
    let ls = trim_cr_lines(lines_of(strip_ansi_spec(raw)));
    let full = sentinel_prefix() + token;
    let e = rpos_containing(ls, full + "_$"@);
    let c = rpos_prefixed(ls, " clear &&"@);
    let start = if e >= 0 {
        e + 1
    } else if c >= 0 {
        c + 1
    } else {
        0
    };
    let r = rpos_containing(ls.skip(start), full);
    let end = if r >= 0 {
        start + r
    } else {
        ls.len() as int
    };
    join(trim_blank_edges_spec(without_containing(ls.subrange(start, end), full)), "\n"@)
}

/// The text of the last `n` lines, and whether lines were dropped.
pub open spec fn tail_lines_spec(text: Seq<char>, n: nat) -> (Seq<char>, bool) {
    let ls = lines_of(text);
    if ls.len() <= n {
        (text, false)
    } else if n == 0 {
        (seq![], true)
    } else {
        (join(ls.skip(ls.len() - n), "\n"@), true)
    }
}

// ---------------------------------------------------------------------------

fn text_step_exec(c: char) -> (r: (AnsiState, Option<char>))
    ensures
        r == text_step(c),
{
    let u = c as u32;
    if u == 0x1b {
        (AnsiState::Esc, None)
    } else if u == 7 {
        (AnsiState::Text, None)
    } else {
        (AnsiState::Text, Some(c))
    }
}

fn ansi_step_exec(st: &AnsiState, c: char) -> (r: (AnsiState, Option<char>))
    ensures
        r == ansi_step(*st, c),
{
    let u = c as u32;
    match st {
        AnsiState::Text => text_step_exec(c),
        AnsiState::Esc => {
            if c == '[' {
                (AnsiState::Csi, None)
            } else if c == ']' {
                (AnsiState::Osc, None)
            } else if c == '(' || c == ')' || c == '*' || c == '+' || c == '#' || c == '%' {
                (AnsiState::SkipOne, None)
            } else {
                (AnsiState::Text, None)
            }
        },
        AnsiState::Csi => {
            if 0x40 <= u && u <= 0x7e {
                (AnsiState::Text, None)
            } else {
                (AnsiState::Csi, None)
            }
        },
        AnsiState::Osc => {
            if u == 7 {
                (AnsiState::Text, None)
            } else if u == 0x1b {
                (AnsiState::OscEsc, None)
            } else {
                (AnsiState::Osc, None)
            }
        },
        AnsiState::OscEsc => {
            if c == '\\' {
                (AnsiState::Text, None)
            } else {
                text_step_exec(c)
            }
        },
        AnsiState::SkipOne => (AnsiState::Text, None),
    }
}

pub fn strip_ansi_chars(s: &Vec<char>) -> (r: Vec<char>)
    ensures
        r@ == strip_ansi_spec(s@),
{
    let mut st = AnsiState::Text;
    let mut out: Vec<char> = Vec::new();
    let mut i: usize = 0;
    while i < s.len()
        invariant
            0 <= i <= s.len(),
            (st, out@) == ansi_run(s@.take(i as int)),
        decreases s.len() - i,
    {
        proof {
            assert(s@.take(i + 1).drop_last() =~= s@.take(i as int));
        }
        let (st2, kept) = ansi_step_exec(&st, s[i]);
        match kept {
            Some(c) => out.push(c),
            None => {},
        }
        st = st2;
        i += 1;
    }
    assert(s@.take(s.len() as int) =~= s@);
    out
}

/// Removes ANSI/ECMA-48 escape sequences (CSI, OSC, two-character sequences) and BEL.
pub fn strip_ansi(input: &str) -> (r: String)
    ensures
        r@ == strip_ansi_spec(input@),
{
    let s = chars_of(input);
    string_of(&strip_ansi_chars(&s))
}

pub fn drop_breaks_exec(s: &Vec<char>) -> (r: Vec<char>)
    ensures
        r@ == drop_breaks(s@),
{
    let mut out: Vec<char> = Vec::new();
    let mut i: usize = 0;
    while i < s.len()
        invariant
            0 <= i <= s.len(),
            out@ == drop_breaks(s@.take(i as int)),
        decreases s.len() - i,
    {
        proof {
            assert(s@.take(i + 1).drop_last() =~= s@.take(i as int));
        }
        if s[i] != '\r' && s[i] != '\n' {
            out.push(s[i]);
        }
        i += 1;
    }
    assert(s@.take(s.len() as int) =~= s@);
    out
}

pub fn normalize_chars(s: &Vec<char>) -> (r: Vec<char>)
    ensures
        r@ == normalized(s@),
{
    drop_breaks_exec(&strip_ansi_chars(s))
}

/// The stream that the sentinel is looked for in: escapes stripped, all `\r` and `\n` gone.
pub fn normalize_chunk(chunk: &str) -> (r: String)
    ensures
        r@ == normalized(chunk@),
{
    let s = chars_of(chunk);
    string_of(&normalize_chars(&s))
}

pub fn sentinel_needle_exec(token: &Vec<char>) -> (r: Vec<char>)
    ensures
        r@ == sentinel_needle(token@),
{
    let mut r = chars_of("__1PCLI_");
    push_all(&mut r, token);
    r.push('_');
    r
}

proof fn lemma_lead_digits_bound(s: Seq<char>, k: int)
    requires
        0 <= k <= s.len(),
        forall|m: int| 0 <= m < k ==> is_digit(#[trigger] s[m]),
    ensures
        lead_digits(s) >= k,
        k < s.len() && !is_digit(s[k]) ==> lead_digits(s) == k,
        k == s.len() ==> lead_digits(s) == k,
    decreases k,
{
    if k > 0 {
        let t = s.drop_first();
        assert forall|m: int| 0 <= m < k - 1 implies is_digit(#[trigger] t[m]) by {
            assert(t[m] == s[m + 1]);
        }
        lemma_lead_digits_bound(t, k - 1);
    }
}

proof fn lemma_digits_value_push(s: Seq<char>, c: char)
    ensures
        digits_value(s.push(c)) == digits_value(s) * 10 + digit_value(c),
{
    assert(s.push(c).drop_last() =~= s);
}

/// The exit status carried by the sentinel in the normalized stream, if a complete one is
/// there: the digits (at most three) after `__1PCLI_<token>_`. The echoed command line holds
/// the literal `$?` there, which does not count.
pub fn find_sentinel(normalized: &str, token: &str) -> (r: Option<i32>)
    ensures
        match r {
            Some(code) => find_sentinel_spec(normalized@, token@) == Some(code as int),
            None => find_sentinel_spec(normalized@, token@) is None,
        },
{
    let s = chars_of(normalized);
    let tok = chars_of(token);
    find_sentinel_chars(&s, &tok)
}

/// `find_sentinel` on character vectors.
pub fn find_sentinel_chars(s: &Vec<char>, tok: &Vec<char>) -> (r: Option<i32>)
    ensures
        match r {
            Some(code) => find_sentinel_spec(s@, tok@) == Some(code as int),
            None => find_sentinel_spec(s@, tok@) is None,
        },
{
    let needle = sentinel_needle_exec(tok);
    let mut from: usize = 0;
    assert(find_sentinel_spec(s@, tok@) == scan_sentinel(s@, needle@, 0));
    assert(needle@.len() > 0) by {
        reveal_strlit("__1PCLI_");
    }
    while from <= s.len()
        invariant
            0 <= from <= s.len() + 1,
            needle@ == sentinel_needle(tok@),
            needle@.len() > 0,
            scan_sentinel(s@, needle@, 0) == scan_sentinel(s@, needle@, from as int),
            find_sentinel_spec(s@, tok@) == scan_sentinel(s@, needle@, 0),
        decreases s.len() + 1 - from,
    {
        match find_at_or_after(s, &needle, from) {
            None => {
                assert(scan_sentinel(s@, needle@, from as int) is None);
                return None;
            },
            Some(i) => {
                proof {
                    lemma_find_from_some(s@, needle@, from as int);
                }
                let start = i + needle.len();
                let mut end = start;
                let mut value: i32 = 0;
                while end < s.len() && end - start < 3 && is_digit_exec(s[end])
                    invariant
                        start <= end <= s.len(),
                        end - start <= 3,
                        forall|m: int| start <= m < end ==> is_digit(#[trigger] s@[m]),
                        value == digits_value(s@.subrange(start as int, end as int)),
                        end - start == 0 ==> value < 1,
                        end - start == 1 ==> value < 10,
                        end - start == 2 ==> value < 100,
                        value < 1000,
                    decreases s.len() - end,
                {
                    proof {
                        lemma_digits_value_push(s@.subrange(start as int, end as int), s@[end as int]);
                        assert(s@.subrange(start as int, end + 1) =~= s@.subrange(
                            start as int,
                            end as int,
                        ).push(s@[end as int]));
                    }
                    value = value * 10 + (s[end] as u32 - 48) as i32;
                    end += 1;
                }
                proof {
                    let t = s@.skip(start as int);
                    assert forall|m: int| 0 <= m < end - start implies is_digit(#[trigger] t[m]) by {
                        assert(t[m] == s@[start + m]);
                    }
                    lemma_lead_digits_bound(t, end - start);
                    if end < s.len() && end - start < 3 {
                        assert(t[end - start] == s@[end as int]);
                    }
                }
                let ghost n = min3(lead_digits(s@.skip(start as int)));
                assert(n == end - start);
                assert(find_from(s@, needle@, from as int) == Some(i as int));
                if end > start {
                    assert(scan_sentinel(s@, needle@, from as int) == Some(value as int));
                    return Some(value);
                }
                assert(scan_sentinel(s@, needle@, from as int) == scan_sentinel(
                    s@,
                    needle@,
                    start as int,
                ));
                from = start;
            },
        }
    }
    proof {
        assert(find_from(s@, needle@, from as int) is None);
    }
    None
}

pub fn is_digit_exec(c: char) -> (b: bool)
    ensures
        b == is_digit(c),
{
    let u = c as u32;
    48 <= u && u <= 57
}

/// The lines without blank lines at both ends.
pub fn trim_blank_edges(lines: &Vec<Vec<char>>) -> (r: Vec<Vec<char>>)
    ensures
        views(r@) == trim_blank_edges_spec(views(lines@)),
{
    let ghost ls = views(lines@);
    let mut start: usize = 0;
    assert(ls.skip(0) =~= ls);
    while start < lines.len() && blank(&lines[start])
        invariant
            0 <= start <= lines.len(),
            ls == views(lines@),
            drop_blank_front(ls) == drop_blank_front(ls.skip(start as int)),
        decreases lines.len() - start,
    {
        proof {
            let t = ls.skip(start as int);
            assert(t[0] == lines@[start as int]@);
            assert(t.drop_first() =~= ls.skip(start + 1));
        }
        start += 1;
    }
    proof {
        let t = ls.skip(start as int);
        if t.len() > 0 {
            assert(t[0] == lines@[start as int]@);
        }
    }
    let mut end: usize = lines.len();
    let ghost front = ls.skip(start as int);
    assert(front.take(front.len() as int) =~= front);
    while end > start && blank(&lines[end - 1])
        invariant
            start <= end <= lines.len(),
            ls == views(lines@),
            front == ls.skip(start as int),
            drop_blank_back(front) == drop_blank_back(front.take(end - start)),
        decreases end,
    {
        proof {
            let t = front.take(end - start);
            assert(t.last() == lines@[end - 1]@);
            assert(t.drop_last() =~= front.take(end - 1 - start));
        }
        end -= 1;
    }
    let mut r: Vec<Vec<char>> = Vec::new();
    let mut k = start;
    while k < end
        invariant
            start <= k <= end <= lines.len(),
            ls == views(lines@),
            views(r@) == ls.subrange(start as int, k as int),
        decreases end - k,
    {
        let c = copy_chars(&lines[k]);
        proof {
            lemma_views_push(r@, c);
        }
        r.push(c);
        k += 1;
        assert(views(r@) =~= ls.subrange(start as int, k as int));
    }
    proof {
        let t = front.take(end - start);
        assert(t =~= ls.subrange(start as int, end as int));
        if t.len() > 0 {
            assert(t.last() == lines@[end - 1]@);
        }
    }
    r
}

/// The index of the last line (before `upto`) containing `pat`.
fn rpos_containing_exec(lines: &Vec<Vec<char>>, from: usize, pat: &Vec<char>) -> (r: Option<
    usize,
>)
    requires
        from <= lines.len(),
    ensures
        match r {
            Some(i) => from <= i < lines.len() && rpos_containing(views(lines@).skip(from as int), pat@)
                == i - from,
            None => rpos_containing(views(lines@).skip(from as int), pat@) == -1,
        },
{
    let ghost ls = views(lines@).skip(from as int);
    let mut j: usize = lines.len();
    assert(ls.take(ls.len() as int) =~= ls);
    while j > from
        invariant
            from <= j <= lines.len(),
            ls == views(lines@).skip(from as int),
            rpos_containing(ls, pat@) == rpos_containing(ls.take(j - from), pat@),
        decreases j,
    {
        proof {
            let t = ls.take(j - from);
            assert(t.last() == lines@[j - 1]@);
            assert(t.drop_last() =~= ls.take(j - 1 - from));
        }
        if contains(&lines[j - 1], pat) {
            return Some(j - 1);
        }
        j -= 1;
    }
    None
}

fn rpos_prefixed_exec(lines: &Vec<Vec<char>>, pat: &Vec<char>) -> (r: Option<usize>)
    ensures
        match r {
            Some(i) => i < lines.len() && rpos_prefixed(views(lines@), pat@) == i,
            None => rpos_prefixed(views(lines@), pat@) == -1,
        },
{
    let ghost ls = views(lines@);
    let mut j: usize = lines.len();
    assert(ls.take(ls.len() as int) =~= ls);
    while j > 0
        invariant
            j <= lines.len(),
            ls == views(lines@),
            rpos_prefixed(ls, pat@) == rpos_prefixed(ls.take(j as int), pat@),
        decreases j,
    {
        proof {
            let t = ls.take(j as int);
            assert(t.last() == lines@[j - 1]@);
            assert(t.drop_last() =~= ls.take(j - 1));
        }
        if starts_with(&lines[j - 1], pat) {
            return Some(j - 1);
        }
        j -= 1;
    }
    None
}

/// Lines `start..end` that do not contain `pat`.
fn keep_without(lines: &Vec<Vec<char>>, start: usize, end: usize, pat: &Vec<char>) -> (r: Vec<
    Vec<char>,
>)
    requires
        start <= end <= lines.len(),
    ensures
        views(r@) == without_containing(views(lines@).subrange(start as int, end as int), pat@),
{
    let ghost ls = views(lines@);
    let mut r: Vec<Vec<char>> = Vec::new();
    let mut k = start;
    while k < end
        invariant
            start <= k <= end <= lines.len(),
            ls == views(lines@),
            views(r@) == without_containing(ls.subrange(start as int, k as int), pat@),
        decreases end - k,
    {
        proof {
            let t = ls.subrange(start as int, k + 1);
            assert(t.drop_last() =~= ls.subrange(start as int, k as int));
            assert(t.last() == lines@[k as int]@);
        }
        if !contains(&lines[k], pat) {
            let c = copy_chars(&lines[k]);
            proof {
                lemma_views_push(r@, c);
            }
            r.push(c);
        }
        k += 1;
    }
    r
}

fn trim_cr_all(lines: &Vec<Vec<char>>) -> (r: Vec<Vec<char>>)
    ensures
        views(r@) == trim_cr_lines(views(lines@)),
{
    let mut r: Vec<Vec<char>> = Vec::new();
    let mut k: usize = 0;
    while k < lines.len()
        invariant
            0 <= k <= lines.len(),
            views(r@) == trim_cr_lines(views(lines@)).take(k as int),
        decreases lines.len() - k,
    {
        let t = trim_char_exec(&lines[k], '\r');
        proof {
            lemma_views_push(r@, t);
        }
        r.push(t);
        k += 1;
        assert(views(r@) =~= trim_cr_lines(views(lines@)).take(k as int));
    }
    assert(trim_cr_lines(views(lines@)).take(lines.len() as int) =~= trim_cr_lines(
        views(lines@),
    ));
    r
}

/// The default clean-up of a terminal transcript (see `clean_output_spec`): the command's
/// own output, without the banner, the echoed command line, the sentinel and the prompt.
pub fn clean_output(raw: &str, token: &str) -> (r: String)
    ensures
        r@ == clean_output_spec(raw@, token@),
{
    let raw_c = chars_of(raw);
    let tok = chars_of(token);
    let text = strip_ansi_chars(&raw_c);
    let lines0 = split_lines(&text);
    let lines = trim_cr_all(&lines0);
    let mut full = chars_of("__1PCLI_");
    push_all(&mut full, &tok);
    let mut echo = full.clone();
    push_all(&mut echo, &chars_of("_$"));
    let clear_pat = chars_of(" clear &&");
    let ghost ls = views(lines@);
    assert(ls.skip(0) =~= ls);
    let start: usize = match rpos_containing_exec(&lines, 0, &echo) {
        Some(i) => i + 1,
        None => match rpos_prefixed_exec(&lines, &clear_pat) {
            Some(i) => i + 1,
            None => 0,
        },
    };
    let end: usize = match rpos_containing_exec(&lines, start, &full) {
        Some(i) => i,
        None => lines.len(),
    };
    let kept = keep_without(&lines, start, end, &full);
    let trimmed = trim_blank_edges(&kept);
    let nl = chars_of("\n");
    string_of(&join_with(&trimmed, &nl))
}

/// The last `n` lines of `text` joined by `\n`, and whether lines were dropped.
pub fn tail_lines(text: &str, n: usize) -> (r: (String, bool))
    ensures
        (r.0@, r.1) == tail_lines_spec(text@, n as nat),
{
    let s = chars_of(text);
    let lines = split_lines(&s);
    if lines.len() <= n {
        return (string_of(&s), false);
    }
    if n == 0 {
        let empty: Vec<char> = Vec::new();
        return (string_of(&empty), true);
    }
    let mut last: Vec<Vec<char>> = Vec::new();
    let mut k = lines.len() - n;
    let ghost ls = views(lines@);
    while k < lines.len()
        invariant
            n < lines.len(),
            lines.len() - n <= k <= lines.len(),
            ls == views(lines@),
            views(last@) == ls.subrange(lines.len() - n, k as int),
        decreases lines.len() - k,
    {
        let c = copy_chars(&lines[k]);
        proof {
            lemma_views_push(last@, c);
        }
        last.push(c);
        k += 1;
        assert(views(last@) =~= ls.subrange(lines.len() - n, k as int));
    }
    assert(ls.subrange(lines.len() - n, lines.len() as int) =~= ls.skip(lines.len() - n));
    let nl = chars_of("\n");
    (string_of(&join_with(&last, &nl)), true)
}

// ---------------------------------------------------------------------------
// Laws
// ---------------------------------------------------------------------------

/// Positions that do not hold `_` cannot start the sentinel, so the search passes them.
proof fn lemma_find_skips(s: Seq<char>, needle: Seq<char>, a: int, b: int)
    requires
        needle.len() > 0,
        needle[0] == '_',
        0 <= a <= b <= s.len(),
        forall|p: int| a <= p < b ==> s[p] != '_',
    ensures
        find_from(s, needle, a) == find_from(s, needle, b),
    decreases b - a,
{
    if a < b {
        if a + needle.len() <= s.len() {
            assert(s.subrange(a, a + needle.len())[0] == s[a]);
            assert(!occurs_at(s, needle, a));
        }
        lemma_find_skips(s, needle, a + 1, b);
    }
}

proof fn lemma_find_here(s: Seq<char>, needle: Seq<char>, i: int)
    requires
        0 <= i,
        i + needle.len() <= s.len(),
        s.subrange(i, i + needle.len()) == needle,
    ensures
        find_from(s, needle, i) == Some(i),
{
    assert(occurs_at(s, needle, i));
}

proof fn lemma_digit_char(d: nat)
    requires
        d < 10,
    ensures
        digit_value(crate::text::digit_char(d)) == d,
        is_digit(crate::text::digit_char(d)),
{
    let b = (48 + d) as u8;
    assert(b == 48 + d);
    let c = b as char;
    assert(c as u32 == b as u32);
}

proof fn lemma_dec_digits(n: nat)
    ensures
        1 <= dec(n).len(),
        n < 10 ==> dec(n).len() == 1,
        n < 100 ==> dec(n).len() <= 2,
        n < 1000 ==> dec(n).len() <= 3,
        forall|i: int| 0 <= i < dec(n).len() ==> is_digit(#[trigger] dec(n)[i]),
        digits_value(dec(n)) == n,
    decreases n,
{
    lemma_digit_char(n % 10);
    if n < 10 {
        lemma_digit_char(n);
        assert(dec(n) =~= seq![crate::text::digit_char(n)]);
        assert(dec(n).drop_last() =~= Seq::<char>::empty());
        assert(dec(n).last() == crate::text::digit_char(n));
        assert(digits_value(Seq::<char>::empty()) == 0);
        assert(digits_value(dec(n)) == n);
    }
    if n >= 10 {
        lemma_dec_digits(n / 10);
        let d = dec(n / 10);
        lemma_digits_value_push(d, crate::text::digit_char((n % 10) as nat));
        vstd::arithmetic::div_mod::lemma_fundamental_div_mod(n as int, 10);
        assert(digits_value(dec(n)) == digits_value(d) * 10 + digit_value(
            crate::text::digit_char((n % 10) as nat),
        ));
        assert(digits_value(d) == n / 10);
        assert(digit_value(crate::text::digit_char((n % 10) as nat)) == n % 10);
        assert(digits_value(dec(n)) == n);
        assert(dec(n) == d.push(crate::text::digit_char((n % 10) as nat)));
        assert forall|i: int| 0 <= i < dec(n).len() implies is_digit(#[trigger] dec(n)[i]) by {
            if i < d.len() {
                assert(dec(n)[i] == d[i]);
            }
        }
    }
}

/// The exit status after the sentinel: a status of at most three digits, not followed by
/// another digit, is read whole.
proof fn lemma_status_read(s: Seq<char>, start: int, c: nat)
    requires
        c <= 255,
        0 <= start,
        start + dec(c).len() <= s.len(),
        s.subrange(start, start + dec(c).len()) == dec(c),
        start + dec(c).len() == s.len() || !is_digit(s[start + dec(c).len()]),
    ensures
        min3(lead_digits(s.skip(start))) == dec(c).len(),
        digits_value(s.subrange(start, start + dec(c).len())) == c,
{
    lemma_dec_digits(c);
    let t = s.skip(start);
    let k = dec(c).len() as int;
    assert forall|m: int| 0 <= m < k implies is_digit(#[trigger] t[m]) by {
        assert(t[m] == s.subrange(start, start + k)[m]);
        assert(dec(c)[m] == s.subrange(start, start + k)[m]);
    }
    if k < t.len() {
        assert(t[k] == s[start + k]);
    }
    lemma_lead_digits_bound(t, k);
}

/// The completion sentinel: in the normalized stream the shell first echoes the command
/// line, which holds the sentinel with the literal `$?`, then prints the sentinel with the
/// exit status. The echo does not count; the printed status (0 to 255) is found, whatever
/// text without `_` comes before and between, as long as no digit follows the status.
pub proof fn law_sentinel_reports_status(token: Seq<char>, x: Seq<char>, y: Seq<char>, c: nat, rest: Seq<char>)
    requires
        c <= 255,
        !x.contains('_'),
        !y.contains('_'),
        rest.len() == 0 || !is_digit(rest[0]),
    ensures
        find_sentinel_spec(
            x + sentinel_needle(token) + "$?"@ + y + sentinel_needle(token) + dec(c) + rest,
            token,
        ) == Some(c as int),
{
    reveal_strlit("__1PCLI_");
    reveal_strlit("$?");
    let nd = sentinel_needle(token);
    let q = "$?"@;
    let s = x + nd + q + y + nd + dec(c) + rest;
    let n = nd.len() as int;
    let a1 = x.len() as int;
    let a2 = a1 + n + 2 + y.len();
    let st = a2 + n;
    assert(nd[0] == '_');
    // the echo: the first occurrence is right after `x`
    assert forall|p: int| 0 <= p < a1 implies s[p] != '_' by {
        assert(s[p] == x[p]);
    }
    lemma_find_skips(s, nd, 0, a1);
    assert(s.subrange(a1, a1 + n) =~= nd);
    lemma_find_here(s, nd, a1);
    // nothing but `$` follows it
    let t1 = s.skip(a1 + n);
    assert(t1[0] == '$');
    assert(lead_digits(t1) == 0);
    assert(scan_sentinel(s, nd, 0) == scan_sentinel(s, nd, a1 + n));
    // the printed sentinel is the next occurrence
    assert forall|p: int| a1 + n <= p < a2 implies s[p] != '_' by {
        if p < a1 + n + 2 {
            assert(s[p] == q[p - a1 - n]);
        } else {
            assert(s[p] == y[p - a1 - n - 2]);
        }
    }
    lemma_find_skips(s, nd, a1 + n, a2);
    assert(s.subrange(a2, a2 + n) =~= nd);
    lemma_find_here(s, nd, a2);
    lemma_dec_digits(c);
    let k = dec(c).len() as int;
    assert(s.subrange(st, st + k) =~= dec(c));
    if st + k < s.len() {
        assert(s[st + k] == rest[0]);
    }
    lemma_status_read(s, st, c);
}

/// The normalized stream holds no line breaks: a sentinel that the terminal wrapped is
/// joined again.
pub proof fn law_normalized_has_no_breaks(s: Seq<char>)
    ensures
        !normalized(s).contains('\n'),
        !normalized(s).contains('\r'),
{
    lemma_drop_breaks_clean(strip_ansi_spec(s));
}

proof fn lemma_drop_breaks_clean(s: Seq<char>)
    ensures
        !drop_breaks(s).contains('\n'),
        !drop_breaks(s).contains('\r'),
    decreases s.len(),
{
    if s.len() > 0 {
        lemma_drop_breaks_clean(s.drop_last());
        let d = drop_breaks(s.drop_last());
        if !(s.last() == '\r' || s.last() == '\n') {
            assert forall|i: int| 0 <= i < d.push(s.last()).len() implies d.push(s.last())[i] != '\n'
                && d.push(s.last())[i] != '\r' by {
                if i < d.len() {
                    assert(d.push(s.last())[i] == d[i]);
                }
            }
        }
    }
}

/// `--tail n` keeps at most `n` lines and says so exactly when it dropped some; with no
/// more than `n` lines the text is left as it is.
pub proof fn law_tail_keeps_last_lines(text: Seq<char>, n: nat)
    ensures
        tail_lines_spec(text, n).1 <==> lines_of(text).len() > n,
        !tail_lines_spec(text, n).1 ==> tail_lines_spec(text, n).0 == text,
        tail_lines_spec(text, n).1 && n > 0 ==> tail_lines_spec(text, n).0 == join(
            lines_of(text).skip(lines_of(text).len() - n),
            "\n"@,
        ),
{
}


/// No line of `ls` contains `pat`.
pub open spec fn lines_free_of(ls: Seq<Seq<char>>, pat: Seq<char>) -> bool {
    forall|i: int| 0 <= i < ls.len() ==> !contains_seq(#[trigger] ls[i], pat)
}

proof fn lemma_without_containing_free(ls: Seq<Seq<char>>, pat: Seq<char>)
    ensures
        lines_free_of(without_containing(ls, pat), pat),
    decreases ls.len(),
{
    if ls.len() > 0 {
        lemma_without_containing_free(ls.drop_last(), pat);
    }
}

proof fn lemma_drop_front_free(ls: Seq<Seq<char>>, pat: Seq<char>)
    requires
        lines_free_of(ls, pat),
    ensures
        lines_free_of(drop_blank_front(ls), pat),
    decreases ls.len(),
{
    if ls.len() > 0 && is_blank(ls[0]) {
        assert forall|i: int| 0 <= i < ls.drop_first().len() implies !contains_seq(
            #[trigger] ls.drop_first()[i],
            pat,
        ) by {
            assert(ls.drop_first()[i] == ls[i + 1]);
        }
        lemma_drop_front_free(ls.drop_first(), pat);
    }
}

proof fn lemma_drop_back_free(ls: Seq<Seq<char>>, pat: Seq<char>)
    requires
        lines_free_of(ls, pat),
    ensures
        lines_free_of(drop_blank_back(ls), pat),
    decreases ls.len(),
{
    if ls.len() > 0 && is_blank(ls.last()) {
        assert forall|i: int| 0 <= i < ls.drop_last().len() implies !contains_seq(
            #[trigger] ls.drop_last()[i],
            pat,
        ) by {
            assert(ls.drop_last()[i] == ls[i]);
        }
        lemma_drop_back_free(ls.drop_last(), pat);
    }
}

/// A pattern without line breaks that no line contains does not occur in the lines
/// joined by `\n`.
proof fn lemma_join_free(ls: Seq<Seq<char>>, pat: Seq<char>)
    requires
        lines_free_of(ls, pat),
        pat.len() > 0,
        !pat.contains('\n'),
    ensures
        !contains_seq(join(ls, "\n"@), pat),
    decreases ls.len(),
{
    reveal_strlit("\n");
    if ls.len() == 0 {
        assert forall|i: int| !occurs_at(join(ls, "\n"@), pat, i) by {}
    } else if ls.len() == 1 {
        assert(!contains_seq(ls[0], pat));
    } else {
        let front = ls.drop_last();
        assert forall|i: int| 0 <= i < front.len() implies !contains_seq(#[trigger] front[i], pat) by {
            assert(front[i] == ls[i]);
        }
        lemma_join_free(front, pat);
        let j = join(front, "\n"@);
        let l = ls.last();
        assert(!contains_seq(l, pat));
        let s = j + "\n"@ + l;
        assert(join(ls, "\n"@) == s);
        assert forall|i: int| !occurs_at(s, pat, i) by {
            if occurs_at(s, pat, i) {
                let n = pat.len() as int;
                if i + n <= j.len() {
                    assert(j.subrange(i, i + n) =~= s.subrange(i, i + n));
                    assert(occurs_at(j, pat, i));
                } else if i >= j.len() + 1 {
                    let k = i - j.len() - 1;
                    assert(l.subrange(k, k + n) =~= s.subrange(i, i + n));
                    assert(occurs_at(l, pat, k));
                } else {
                    let d = j.len() - i;
                    assert(s.subrange(i, i + n)[d] == s[j.len() as int]);
                    assert(s[j.len() as int] == '\n');
                    assert(pat[d] == '\n');
                }
            }
        }
    }
}

/// The default clean-up leaves no trace of the completion sentinel: the cleaned output
/// does not contain `__1PCLI_<token>` (for a token without line breaks, as every token
/// that `exec` draws is).
pub proof fn law_clean_output_drops_sentinel(raw: Seq<char>, token: Seq<char>)
    requires
        !token.contains('\n'),
    ensures
        !contains_seq(clean_output_spec(raw, token), sentinel_prefix() + token),
{
    reveal_strlit("__1PCLI_");
    let ls = trim_cr_lines(lines_of(strip_ansi_spec(raw)));
    let full = sentinel_prefix() + token;
    let e = rpos_containing(ls, full + "_$"@);
    let c = rpos_prefixed(ls, " clear &&"@);
    let start = if e >= 0 {
        e + 1
    } else if c >= 0 {
        c + 1
    } else {
        0
    };
    let r = rpos_containing(ls.skip(start), full);
    let end = if r >= 0 {
        start + r
    } else {
        ls.len() as int
    };
    let kept = without_containing(ls.subrange(start, end), full);
    lemma_without_containing_free(ls.subrange(start, end), full);
    lemma_drop_front_free(kept, full);
    lemma_drop_back_free(drop_blank_front(kept), full);
    assert forall|i: int| 0 <= i < full.len() implies full[i] != '\n' by {
        if i >= 8 {
            assert(full[i] == token[i - 8]);
        }
    }
    lemma_join_free(trim_blank_edges_spec(kept), full);
}


/// No ESC (0x1b) and no BEL (0x07) in `s`.
pub open spec fn free_of_escapes(s: Seq<char>) -> bool {
    forall|i: int| 0 <= i < s.len() ==> (#[trigger] s[i] as u32) != 0x1b && (s[i] as u32) != 7
}

/// `t` is `s` with some characters left out (the rest in order).
pub open spec fn subsequence_of(t: Seq<char>, s: Seq<char>) -> bool
    decreases s.len(),
{
    if t.len() == 0 {
        true
    } else if s.len() == 0 {
        false
    } else {
        (t.last() == s.last() && subsequence_of(t.drop_last(), s.drop_last())) || subsequence_of(
            t,
            s.drop_last(),
        )
    }
}

proof fn lemma_run_keeps(s: Seq<char>)
    ensures
        free_of_escapes(ansi_run(s).1),
        subsequence_of(ansi_run(s).1, s),
    decreases s.len(),
{
    if s.len() > 0 {
        let f = s.drop_last();
        lemma_run_keeps(f);
        let (st, out) = ansi_run(f);
        let (st2, kept) = ansi_step(st, s.last());
        match kept {
            Some(c) => {
                assert(c == s.last());
                assert(c as u32 != 0x1b && c as u32 != 7);
                let o = out.push(c);
                assert forall|i: int| 0 <= i < o.len() implies (#[trigger] o[i] as u32) != 0x1b
                    && (o[i] as u32) != 7 by {
                    if i < out.len() {
                        assert(o[i] == out[i]);
                    }
                }
                assert(o.drop_last() =~= out);
            },
            None => {
                if out.len() > 0 {
                    lemma_subsequence_extend(out, f, s.last());
                }
            },
        }
    }
}

proof fn lemma_subsequence_extend(t: Seq<char>, s: Seq<char>, c: char)
    requires
        subsequence_of(t, s),
    ensures
        subsequence_of(t, s.push(c)),
{
    assert(s.push(c).drop_last() =~= s);
}

proof fn lemma_run_plain(s: Seq<char>)
    requires
        free_of_escapes(s),
    ensures
        ansi_run(s) == (AnsiState::Text, s),
    decreases s.len(),
{
    if s.len() > 0 {
        let f = s.drop_last();
        assert forall|i: int| 0 <= i < f.len() implies (#[trigger] f[i] as u32) != 0x1b && (f[i] as u32)
            != 7 by {
            assert(f[i] == s[i]);
        }
        lemma_run_plain(f);
        assert(s[s.len() - 1] == s.last());
        assert(f.push(s.last()) =~= s);
    } else {
        assert(s =~= Seq::<char>::empty());
    }
}

/// Escape removal leaves no ESC or BEL, keeps the remaining characters in order (it only
/// drops characters), leaves text without ESC and BEL as it is, and so changes nothing
/// when applied a second time.
pub proof fn law_strip_ansi(s: Seq<char>)
    ensures
        free_of_escapes(strip_ansi_spec(s)),
        subsequence_of(strip_ansi_spec(s), s),
        free_of_escapes(s) ==> strip_ansi_spec(s) == s,
        strip_ansi_spec(strip_ansi_spec(s)) == strip_ansi_spec(s),
{
    lemma_run_keeps(s);
    if free_of_escapes(s) {
        lemma_run_plain(s);
    }
    lemma_run_plain(strip_ansi_spec(s));
}

} // verus!
