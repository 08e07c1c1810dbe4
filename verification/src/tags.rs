//! Tag extractor: pulls the bracketed and angle-bracketed tokens out of one
//! log line. A line is eligible only if it begins with a timestamp token of
//! the shape `<YYYY-MM-DDThh:mm:ss[.fraction]Z>`, optionally followed by
//! whitespace. From the rest of the line the extractor takes the first
//! severity tag of a fixed closed set, the first identifier-like angle
//! token as the event name, every `[Team_...]` tag, and every other
//! bracketed word as a subsystem tag.

use vstd::prelude::*;
use crate::text::{is_digit, is_letter, is_word, run_end, lemma_run_end,
    sub_at, sub_at_checked, run_end_letters, run_end_word, letter_cls, word_cls,
    dedup_first, lemma_dedup_first_contains, vec_contains_string};

verus! {

/// A character of the time-of-day body of a timestamp: digit, colon or dot.
pub open spec fn is_ts_char(c: char) -> bool {
    is_digit(c) || c == ':' || c == '.'
}

/// A Unicode White_Space character, the set `str::trim` removes: the ASCII
/// whitespace characters, next line, no-break space, the Ogham space mark,
/// the typographic spaces, the line and paragraph separators, the narrow
/// no-break space, the medium mathematical space and the ideographic space.
pub open spec fn is_space(c: char) -> bool {
    c == ' ' || c == '\t' || c == '\n' || c == '\u{b}' || c == '\u{c}' || c == '\r'
        || c == '\u{85}' || c == '\u{a0}' || c == '\u{1680}'
        || ('\u{2000}' <= c && c <= '\u{200a}')
        || c == '\u{2028}' || c == '\u{2029}' || c == '\u{202f}' || c == '\u{205f}'
        || c == '\u{3000}'
}

/// The timestamp-body class as a first-class predicate.
pub open spec fn ts_cls() -> spec_fn(char) -> bool {
    |c: char| is_ts_char(c)
}

/// The whitespace class as a first-class predicate.
pub open spec fn space_cls() -> spec_fn(char) -> bool {
    |c: char| is_space(c)
}

/// If the line starts with a recognized timestamp token, the position of the
/// first character after the token and any whitespace that follows it;
/// otherwise `None`. The token is `<` + a four-digit year + `-` + two digits
/// + `-` + two digits + `T` + one or more digits, colons or dots + `Z>`.
pub open spec fn ts_content_start(l: Seq<char>) -> Option<int> {
    let j = run_end(l, 12, ts_cls());
    if l.len() >= 15 && l[0] == '<'
        && is_digit(l[1]) && is_digit(l[2]) && is_digit(l[3]) && is_digit(l[4])
        && l[5] == '-' && is_digit(l[6]) && is_digit(l[7])
        && l[8] == '-' && is_digit(l[9]) && is_digit(l[10])
        && l[11] == 'T'
        && 12 < j && j + 1 < l.len() && l[j] == 'Z' && l[j + 1] == '>'
    {
        Some(run_end(l, j + 2, space_cls()))
    } else {
        None
    }
}

/// Exec class test for the timestamp body.
fn ts_char_exec(c: char) -> (r: bool)
    ensures
        r == is_ts_char(c),
{
    ('0' <= c && c <= '9') || c == ':' || c == '.'
}

/// Exec class test for whitespace.
pub(crate) fn space_exec(c: char) -> (r: bool)
    ensures
        r == is_space(c),
{
    c == ' ' || c == '\t' || c == '\n' || c == '\u{b}' || c == '\u{c}' || c == '\r'
        || c == '\u{85}' || c == '\u{a0}' || c == '\u{1680}'
        || ('\u{2000}' <= c && c <= '\u{200a}')
        || c == '\u{2028}' || c == '\u{2029}' || c == '\u{202f}' || c == '\u{205f}'
        || c == '\u{3000}'
}

/// Exec scan for the end of the maximal run of timestamp-body characters.
fn run_end_ts(s: &str, i: usize) -> (r: usize)
    requires
        i <= s@.len(),
    ensures
        r == run_end(s@, i as int, ts_cls()),
{
    let slen = s.unicode_len();
    let mut j: usize = i;
    loop
        invariant
            i <= j <= slen,
            slen == s@.len(),
            run_end(s@, i as int, ts_cls()) == run_end(s@, j as int, ts_cls()),
        decreases slen - j,
    {
        if j >= slen {
            return j;
        }
        if !ts_char_exec(s.get_char(j)) {
            return j;
        }
        j += 1;
    }
}

/// Exec scan for the end of the maximal run of whitespace.
fn run_end_space(s: &str, i: usize) -> (r: usize)
    requires
        i <= s@.len(),
    ensures
        r == run_end(s@, i as int, space_cls()),
{
    let slen = s.unicode_len();
    let mut j: usize = i;
    loop
        invariant
            i <= j <= slen,
            slen == s@.len(),
            run_end(s@, i as int, space_cls()) == run_end(s@, j as int, space_cls()),
        decreases slen - j,
    {
        if j >= slen {
            return j;
        }
        if !space_exec(s.get_char(j)) {
            return j;
        }
        j += 1;
    }
}

/// Exec timestamp recognition: position of the content after the stripped
/// timestamp prefix, or `None` if the line does not start with one.
pub fn ts_strip(line: &str) -> (r: Option<usize>)
    ensures
        match r {
            Some(cs) => ts_content_start(line@) == Some(cs as int) && cs <= line@.len(),
            None => ts_content_start(line@) is None,
        },
{
    let len = line.unicode_len();
    if len < 15 {
        return None;
    }
    if line.get_char(0) != '<' {
        return None;
    }
    let d_ok = digit_at(line, 1) && digit_at(line, 2) && digit_at(line, 3)
        && digit_at(line, 4) && line.get_char(5) == '-' && digit_at(line, 6)
        && digit_at(line, 7) && line.get_char(8) == '-' && digit_at(line, 9)
        && digit_at(line, 10) && line.get_char(11) == 'T';
    if !d_ok {
        return None;
    }
    let j = run_end_ts(line, 12);
    proof {
        lemma_run_end(line@, 12, ts_cls());
    }
    if !(12 < j && j < len - 1) {
        return None;
    }
    if line.get_char(j) != 'Z' || line.get_char(j + 1) != '>' {
        return None;
    }
    let cs = run_end_space(line, j + 2);
    proof {
        lemma_run_end(line@, j + 2, space_cls());
    }
    Some(cs)
}

/// Exec digit test at a position.
fn digit_at(s: &str, i: usize) -> (r: bool)
    requires
        i < s@.len(),
    ensures
        r == is_digit(s@[i as int]),
{
    let c = s.get_char(i);
    '0' <= c && c <= '9'
}

/// The four severity names of the fixed closed set.
pub open spec fn is_severity_name(t: Seq<char>) -> bool {
    t == "Notice"@ || t == "Error"@ || t == "Trace"@ || t == "Warning"@
}

/// The severity named by the first bracketed severity tag at or after `i`,
/// if any.
pub open spec fn find_severity_from(l: Seq<char>, i: int) -> Option<Seq<char>>
    decreases l.len() - i + 1,
{
    if i < 0 || i >= l.len() {
        None
    } else if sub_at(l, "[Notice]"@, i) {
        Some("Notice"@)
    } else if sub_at(l, "[Error]"@, i) {
        Some("Error"@)
    } else if sub_at(l, "[Trace]"@, i) {
        Some("Trace"@)
    } else if sub_at(l, "[Warning]"@, i) {
        Some("Warning"@)
    } else {
        find_severity_from(l, i + 1)
    }
}

/// Exec severity extraction: the first bracketed severity tag in `content`.
pub fn extract_severity(content: &str) -> (r: Option<String>)
    ensures
        r.deep_view() == find_severity_from(content@, 0),
{
    let len = content.unicode_len();
    let mut i: usize = 0;
    while i < len
        invariant
            len == content@.len(),
            i <= len,
            find_severity_from(content@, 0) == find_severity_from(content@, i as int),
        decreases len - i,
    {
        if sub_at_checked(content, "[Notice]", i) {
            return Some(String::from_str("Notice"));
        }
        if sub_at_checked(content, "[Error]", i) {
            return Some(String::from_str("Error"));
        }
        if sub_at_checked(content, "[Trace]", i) {
            return Some(String::from_str("Trace"));
        }
        if sub_at_checked(content, "[Warning]", i) {
            return Some(String::from_str("Warning"));
        }
        i += 1;
    }
    None
}


/// A character of the identifier part of an event token: letter, digit,
/// underscore or colon.
pub open spec fn is_ident(c: char) -> bool {
    is_word(c) || c == ':'
}

/// A character of a generic-style suffix group's body: word characters and
/// angle brackets.
pub open spec fn is_gen(c: char) -> bool {
    is_word(c) || c == '<' || c == '>'
}

/// A character that may open an event token: letter, underscore or colon.
pub open spec fn is_head(c: char) -> bool {
    is_letter(c) || c == '_' || c == ':'
}

/// The identifier class as a first-class predicate.
pub open spec fn ident_cls() -> spec_fn(char) -> bool {
    |c: char| is_ident(c)
}

/// The suffix-body class as a first-class predicate.
pub open spec fn gen_cls() -> spec_fn(char) -> bool {
    |c: char| is_gen(c)
}

/// The search for an event token's closing `>`, standing at `p` with the
/// identifier part (or a completed suffix group) behind it. In preference
/// order: a `>` here closes the token; a `::` here opens one more suffix
/// group, whose non-empty body is tried from the longest run down; anything
/// else fails. This is the order a leftmost-first regex engine tries the
/// token grammar `[A-Za-z_:][A-Za-z0-9_:]*(?:::[A-Za-z0-9_<>]+)*>`, so the
/// token ends at the maximal identifier run when a `>` follows it directly,
/// and only otherwise commits to suffix groups.
pub open spec fn star_search(l: Seq<char>, p: int) -> Option<int>
    decreases l.len() - p, l.len() + 1,
    via star_search_dec
{
    if p < 0 || p >= l.len() {
        None
    } else if l[p] == '>' {
        Some(p)
    } else if l[p] == ':' && p + 1 < l.len() && l[p + 1] == ':' {
        group_try(l, p, run_end(l, p + 2, gen_cls()))
    } else {
        None
    }
}

#[via_fn]
proof fn star_search_dec(l: Seq<char>, p: int) {
    if 0 <= p && p < l.len() && l[p] != '>' && l[p] == ':' && p + 1 < l.len()
        && l[p + 1] == ':' {
        lemma_run_end(l, p + 2, gen_cls());
    }
}

/// Suffix-group bodies tried from the longest run down: the group opened by
/// the `::` at `p` takes at least one body character, ending at `m`, and the
/// search continues after it; a shorter body is tried only when every longer
/// one fails.
pub open spec fn group_try(l: Seq<char>, p: int, m: int) -> Option<int>
    decreases l.len() - p, m - p,
{
    if m < p + 3 || m > l.len() {
        None
    } else {
        match star_search(l, m) {
            Some(e) => Some(e),
            None => group_try(l, p, m - 1),
        }
    }
}

/// Identifier-run ends tried from the longest down: the identifier part of
/// the token, starting at `t0`, keeps at least its head character and ends
/// at `p`; a shorter run is released to the suffix search only when every
/// longer one fails.
pub open spec fn u_try(l: Seq<char>, t0: int, p: int) -> Option<int>
    decreases p - t0,
{
    if p < t0 + 1 {
        None
    } else {
        match star_search(l, p) {
            Some(e) => Some(e),
            None => u_try(l, t0, p - 1),
        }
    }
}

/// The closing `>` of the event token opening with `<` at `i`, if one does:
/// the character after the `<` must be a head character, and the token is
/// read in preference order.
pub open spec fn event_match_end(l: Seq<char>, i: int) -> Option<int> {
    if 0 <= i && i + 1 < l.len() && l[i] == '<' && is_head(l[i + 1]) {
        u_try(l, i + 1, run_end(l, i + 2, ident_cls()))
    } else {
        None
    }
}

/// Wherever the suffix search succeeds, it ends at a `>` at or after `p`.
proof fn lemma_star_search_bounds(l: Seq<char>, p: int)
    ensures
        match star_search(l, p) {
            Some(e) => p <= e < l.len() && l[e] == '>',
            None => true,
        },
    decreases l.len() - p, l.len() + 1,
{
    if 0 <= p && p < l.len() && l[p] != '>' && l[p] == ':' && p + 1 < l.len()
        && l[p + 1] == ':' {
        lemma_run_end(l, p + 2, gen_cls());
        lemma_group_try_bounds(l, p, run_end(l, p + 2, gen_cls()));
    }
}

/// Wherever a suffix group succeeds, it ends at a `>` beyond the `::` at `p`.
proof fn lemma_group_try_bounds(l: Seq<char>, p: int, m: int)
    ensures
        match group_try(l, p, m) {
            Some(e) => p < e < l.len() && l[e] == '>',
            None => true,
        },
    decreases l.len() - p, m - p,
{
    if m < p + 3 || m > l.len() {
    } else {
        lemma_star_search_bounds(l, m);
        if star_search(l, m) is None {
            lemma_group_try_bounds(l, p, m - 1);
        }
    }
}

/// Wherever the identifier search succeeds, it ends at a `>` after `t0`.
proof fn lemma_u_try_bounds(l: Seq<char>, t0: int, p: int)
    ensures
        match u_try(l, t0, p) {
            Some(e) => t0 < e < l.len() && l[e] == '>',
            None => true,
        },
    decreases p - t0,
{
    if p >= t0 + 1 {
        lemma_star_search_bounds(l, p);
        if star_search(l, p) is None {
            lemma_u_try_bounds(l, t0, p - 1);
        }
    }
}

/// The first position at or after `i` where an event token opens, with the
/// end of the token read there.
pub open spec fn find_event_from(l: Seq<char>, i: int) -> Option<(int, int)>
    decreases l.len() - i,
{
    if i < 0 || i >= l.len() {
        None
    } else {
        match event_match_end(l, i) {
            Some(e) => Some((i, e)),
            None => find_event_from(l, i + 1),
        }
    }
}

/// The extracted event name: the first angle-bracketed event token, unless
/// that token opens like a bare year-prefixed date, which is rejected so an
/// embedded timestamp is never taken for an event name.
pub open spec fn spec_event_name(content: Seq<char>) -> Option<Seq<char>> {
    match find_event_from(content, 0) {
        None => None,
        Some((i, e)) => {
            let nm = content.subrange(i + 1, e);
            if nm.len() >= 2 && nm[0] == '2' && nm[1] == '0' {
                None
            } else {
                Some(nm)
            }
        },
    }
}

/// Exec class test for identifier characters.
fn ident_exec(c: char) -> (r: bool)
    ensures
        r == is_ident(c),
{
    crate::text::word_exec(c) || c == ':'
}

/// Exec class test for suffix-body characters.
fn gen_exec(c: char) -> (r: bool)
    ensures
        r == is_gen(c),
{
    crate::text::word_exec(c) || c == '<' || c == '>'
}

/// Exec head test.
fn head_exec(c: char) -> (r: bool)
    ensures
        r == is_head(c),
{
    crate::text::letter_exec(c) || c == '_' || c == ':'
}

/// Exec scan for the end of the maximal run of identifier characters.
fn run_end_ident(s: &str, i: usize) -> (r: usize)
    requires
        i <= s@.len(),
    ensures
        r == run_end(s@, i as int, ident_cls()),
{
    let slen = s.unicode_len();
    let mut j: usize = i;
    loop
        invariant
            i <= j <= slen,
            slen == s@.len(),
            run_end(s@, i as int, ident_cls()) == run_end(s@, j as int, ident_cls()),
        decreases slen - j,
    {
        if j >= slen {
            return j;
        }
        if !ident_exec(s.get_char(j)) {
            return j;
        }
        j += 1;
    }
}

/// Exec scan for the end of the maximal run of suffix-body characters.
fn run_end_gen(s: &str, i: usize) -> (r: usize)
    requires
        i <= s@.len(),
    ensures
        r == run_end(s@, i as int, gen_cls()),
{
    let slen = s.unicode_len();
    let mut j: usize = i;
    loop
        invariant
            i <= j <= slen,
            slen == s@.len(),
            run_end(s@, i as int, gen_cls()) == run_end(s@, j as int, gen_cls()),
        decreases slen - j,
    {
        if j >= slen {
            return j;
        }
        if !gen_exec(s.get_char(j)) {
            return j;
        }
        j += 1;
    }
}

/// Exec suffix search, mirroring `star_search`.
fn star_search_exec(content: &str, p: usize) -> (r: Option<usize>)
    ensures
        match r {
            Some(e) => star_search(content@, p as int) == Some(e as int),
            None => star_search(content@, p as int) is None,
        },
    decreases content@.len() - p,
{
    let len = content.unicode_len();
    if p >= len {
        return None;
    }
    let c = content.get_char(p);
    if c == '>' {
        return Some(p);
    }
    if !(c == ':' && p + 1 < len) {
        return None;
    }
    if content.get_char(p + 1) != ':' {
        return None;
    }
    let cmax = run_end_gen(content, p + 2);
    proof {
        lemma_run_end(content@, p + 2, gen_cls());
    }
    let mut m = cmax;
    loop
        invariant
            len == content@.len(),
            p + 1 < len,
            content@[p as int] == ':',
            content@[p + 1] == ':',
            p + 2 <= m <= cmax,
            cmax == run_end(content@, p + 2, gen_cls()),
            cmax <= len,
            group_try(content@, p as int, cmax as int)
                == group_try(content@, p as int, m as int),
        decreases m,
    {
        if m <= p + 2 {
            return None;
        }
        match star_search_exec(content, m) {
            Some(e) => {
                return Some(e);
            },
            None => {
            },
        }
        m -= 1;
    }
}

/// Exec identifier search, mirroring `u_try`.
fn u_try_exec(content: &str, t0: usize, up: usize) -> (r: Option<usize>)
    requires
        up <= content@.len(),
    ensures
        match r {
            Some(e) => u_try(content@, t0 as int, up as int) == Some(e as int),
            None => u_try(content@, t0 as int, up as int) is None,
        },
{
    let mut p = up;
    loop
        invariant
            p <= up <= content@.len(),
            u_try(content@, t0 as int, up as int)
                == u_try(content@, t0 as int, p as int),
        decreases p,
    {
        if p <= t0 {
            return None;
        }
        match star_search_exec(content, p) {
            Some(e) => {
                return Some(e);
            },
            None => {
            },
        }
        p -= 1;
    }
}

/// Exec event-name extraction: the first event token in `content`, with the
/// year-prefixed-date rejection.
pub fn extract_event_name(content: &str) -> (r: Option<String>)
    ensures
        r.deep_view() == spec_event_name(content@),
{
    let len = content.unicode_len();
    let mut i: usize = 0;
    while i < len
        invariant
            len == content@.len(),
            i <= len,
            find_event_from(content@, 0) == find_event_from(content@, i as int),
        decreases len - i,
    {
        let c = content.get_char(i);
        let mut matched: Option<usize> = None;
        if c == '<' && len - i >= 2 {
            if head_exec(content.get_char(i + 1)) {
                let up = run_end_ident(content, i + 2);
                proof {
                    lemma_run_end(content@, i + 2, ident_cls());
                }
                matched = u_try_exec(content, i + 1, up);
            }
        }
        match matched {
            Some(e) => {
                proof {
                    lemma_u_try_bounds(content@, i + 1, run_end(content@, i + 2, ident_cls()));
                    assert(event_match_end(content@, i as int) == Some(e as int));
                    assert(find_event_from(content@, i as int)
                        == Some((i as int, e as int)));
                }
                let name = content.substring_char(i + 1, e);
                let mut rejected = false;
                if name.unicode_len() >= 2 {
                    if name.get_char(0) == '2' && name.get_char(1) == '0' {
                        rejected = true;
                    }
                }
                if rejected {
                    return None;
                }
                return Some(name.to_owned());
            },
            None => {
                proof {
                    assert(event_match_end(content@, i as int) is None);
                }
            },
        }
        i += 1;
    }
    None
}


/// The characters `[Team_` stand at position `i`.
pub open spec fn team_prefix_at(l: Seq<char>, i: int) -> bool {
    0 <= i && i + 6 <= l.len() && l[i] == '[' && l[i + 1] == 'T' && l[i + 2] == 'e'
        && l[i + 3] == 'a' && l[i + 4] == 'm' && l[i + 5] == '_'
}

/// End of the team name: the maximal run of letters after `[Team_`.
pub open spec fn team_end(l: Seq<char>, i: int) -> int {
    run_end(l, i + 6, letter_cls())
}

/// A team tag `[Team_<Name>]` with a non-empty letter name stands at `i`.
pub open spec fn team_match(l: Seq<char>, i: int) -> bool {
    team_prefix_at(l, i) && i + 6 < team_end(l, i) && team_end(l, i) < l.len()
        && l[team_end(l, i)] == ']'
}

/// The reconstructed tag prefix `Team_`.
pub open spec fn team_tag_prefix() -> Seq<char> {
    seq!['T', 'e', 'a', 'm', '_']
}

/// All team tags at or after `i`, in match order, reconstructed as
/// `Team_<Name>`; matches do not overlap.
pub open spec fn collect_teams(l: Seq<char>, i: int) -> Seq<Seq<char>>
    decreases l.len() - i,
    via collect_teams_dec
{
    if i < 0 || i >= l.len() {
        Seq::empty()
    } else if team_match(l, i) {
        seq![team_tag_prefix() + l.subrange(i + 6, team_end(l, i))]
            + collect_teams(l, team_end(l, i) + 1)
    } else {
        collect_teams(l, i + 1)
    }
}

#[via_fn]
proof fn collect_teams_dec(l: Seq<char>, i: int) {
    if 0 <= i && i < l.len() && team_match(l, i) {
        lemma_run_end(l, i + 6, letter_cls());
    }
}

/// End of a subsystem token: the maximal run of word characters after `[`.
pub open spec fn subsys_end(l: Seq<char>, i: int) -> int {
    run_end(l, i + 1, word_cls())
}

/// A bracketed single-word token `[<Word>]` beginning with a letter stands
/// at `i`.
pub open spec fn subsys_match(l: Seq<char>, i: int) -> bool {
    0 <= i && i + 1 < l.len() && l[i] == '[' && is_letter(l[i + 1])
        && subsys_end(l, i) < l.len() && l[subsys_end(l, i)] == ']'
}

/// All bracketed single-word tokens at or after `i`, in match order;
/// matches do not overlap.
pub open spec fn collect_subsys(l: Seq<char>, i: int) -> Seq<Seq<char>>
    decreases l.len() - i,
    via collect_subsys_dec
{
    if i < 0 || i >= l.len() {
        Seq::empty()
    } else if subsys_match(l, i) {
        seq![l.subrange(i + 1, subsys_end(l, i))]
            + collect_subsys(l, subsys_end(l, i) + 1)
    } else {
        collect_subsys(l, i + 1)
    }
}

#[via_fn]
proof fn collect_subsys_dec(l: Seq<char>, i: int) {
    if 0 <= i && i < l.len() && subsys_match(l, i) {
        lemma_run_end(l, i + 1, word_cls());
    }
}

/// The token begins with the characters `Team_`.
pub open spec fn starts_with_team(t: Seq<char>) -> bool {
    t.len() >= 5 && t.subrange(0, 5) == team_tag_prefix()
}

/// A subsystem token survives the filter if it is neither a severity name
/// nor a team tag.
pub open spec fn subsys_keep() -> spec_fn(Seq<char>) -> bool {
    |t: Seq<char>| !is_severity_name(t) && !starts_with_team(t)
}

/// The line's team-tag set: every team tag, deduplicated in first-seen order.
pub open spec fn spec_teams(content: Seq<char>) -> Seq<Seq<char>> {
    dedup_first(collect_teams(content, 0))
}

/// The line's subsystem-tag set: every other bracketed word, severity and
/// team tags excluded, deduplicated in first-seen order.
pub open spec fn spec_subsystems(content: Seq<char>) -> Seq<Seq<char>> {
    dedup_first(collect_subsys(content, 0).filter(subsys_keep()))
}

/// Exec test for a team tag at `i`; returns the name's end position.
fn team_match_exec(content: &str, i: usize) -> (r: Option<usize>)
    requires
        i < content@.len(),
    ensures
        match r {
            Some(te) => team_match(content@, i as int)
                && te as int == team_end(content@, i as int),
            None => !team_match(content@, i as int),
        },
{
    let len = content.unicode_len();
    if len - i < 6 {
        return None;
    }
    if !(content.get_char(i) == '[' && content.get_char(i + 1) == 'T'
        && content.get_char(i + 2) == 'e' && content.get_char(i + 3) == 'a'
        && content.get_char(i + 4) == 'm' && content.get_char(i + 5) == '_') {
        return None;
    }
    let te = run_end_letters(content, i + 6);
    proof {
        lemma_run_end(content@, i + 6, letter_cls());
    }
    if te > i + 6 && te < len {
        if content.get_char(te) == ']' {
            return Some(te);
        }
    }
    None
}

/// Exec test for a bracketed single-word token at `i`; returns its end.
fn subsys_match_exec(content: &str, i: usize) -> (r: Option<usize>)
    requires
        i < content@.len(),
    ensures
        match r {
            Some(we) => subsys_match(content@, i as int)
                && we as int == subsys_end(content@, i as int),
            None => !subsys_match(content@, i as int),
        },
{
    let len = content.unicode_len();
    if len - i < 2 {
        return None;
    }
    if content.get_char(i) != '[' {
        return None;
    }
    if !crate::text::letter_exec(content.get_char(i + 1)) {
        return None;
    }
    let we = run_end_word(content, i + 1);
    proof {
        lemma_run_end(content@, i + 1, word_cls());
    }
    if we < len {
        if content.get_char(we) == ']' {
            return Some(we);
        }
    }
    None
}

/// Exec team-tag extraction: all `Team_<Name>` tags, first occurrence of
/// each kept, in match order.
pub fn extract_teams(content: &str) -> (r: Vec<String>)
    ensures
        r.deep_view() == spec_teams(content@),
{
    let len = content.unicode_len();
    let mut out: Vec<String> = Vec::new();
    let ghost mut found: Seq<Seq<char>> = Seq::empty();
    proof {
        assert(out.deep_view() =~= dedup_first(found));
        assert(found + collect_teams(content@, 0) =~= collect_teams(content@, 0));
    }
    let mut i: usize = 0;
    while i < len
        invariant
            len == content@.len(),
            i <= len,
            found + collect_teams(content@, i as int) == collect_teams(content@, 0),
            out.deep_view() == dedup_first(found),
        decreases len - i,
    {
        match team_match_exec(content, i) {
            Some(te) => {
                let body = content.substring_char(i + 6, te);
                let mut tag = String::from_str("Team_");
                tag.append(body);
                let ghost cap = team_tag_prefix()
                    + content@.subrange(i + 6, te as int);
                proof {
                    reveal_strlit("Team_");
                    assert("Team_"@ =~= team_tag_prefix());
                    assert(tag@ == cap);
                    assert(collect_teams(content@, i as int)
                        =~= seq![cap] + collect_teams(content@, te + 1));
                }
                push_dedup(&mut out, tag, Ghost(found));
                proof {
                    found = found.push(cap);
                    assert(found + collect_teams(content@, te + 1)
                        =~= collect_teams(content@, 0));
                }
                i = te + 1;
            },
            None => {
                i += 1;
            },
        }
    }
    proof {
        assert(found + collect_teams(content@, len as int) =~= found);
    }
    out
}

/// Append one tag to a deduplicated accumulator: the vector stays the
/// first-occurrence deduplication of all tags seen.
fn push_dedup(out: &mut Vec<String>, tag: String, Ghost(found): Ghost<Seq<Seq<char>>>)
    requires
        old(out).deep_view() == dedup_first(found),
    ensures
        final(out).deep_view() == dedup_first(found.push(tag@)),
{
    proof {
        lemma_dedup_first_contains(found, tag@);
        assert(found.push(tag@).drop_last() =~= found);
    }
    let dup = vec_contains_string(out, &tag);
    if !dup {
        let ghost dv0 = out.deep_view();
        out.push(tag);
        proof {
            assert(out.deep_view() =~= dv0.push(tag@));
        }
    }
}

/// Exec test: the token equals one of the four severity names.
fn severity_name_exec(tag: &String) -> (r: bool)
    ensures
        r == is_severity_name(tag@),
{
    crate::text::str_eq_exec(tag.as_str(), "Notice")
        || crate::text::str_eq_exec(tag.as_str(), "Error")
        || crate::text::str_eq_exec(tag.as_str(), "Trace")
        || crate::text::str_eq_exec(tag.as_str(), "Warning")
}

/// Exec test: the token begins with `Team_`.
fn starts_with_team_exec(tag: &String) -> (r: bool)
    ensures
        r == starts_with_team(tag@),
{
    let s = tag.as_str();
    let len = s.unicode_len();
    if len < 5 {
        return false;
    }
    let r = s.get_char(0) == 'T' && s.get_char(1) == 'e' && s.get_char(2) == 'a'
        && s.get_char(3) == 'm' && s.get_char(4) == '_';
    proof {
        if r {
            assert(tag@.subrange(0, 5) =~= team_tag_prefix());
        } else {
            assert(tag@.subrange(0, 5) != team_tag_prefix()) by {
                if tag@.subrange(0, 5) == team_tag_prefix() {
                    assert(tag@.subrange(0, 5)[0] == 'T');
                    assert(tag@.subrange(0, 5)[1] == 'e');
                    assert(tag@.subrange(0, 5)[2] == 'a');
                    assert(tag@.subrange(0, 5)[3] == 'm');
                    assert(tag@.subrange(0, 5)[4] == '_');
                }
            }
        }
    }
    r
}

/// Exec subsystem-tag extraction: every bracketed single word that is
/// neither a severity tag nor a team tag, first occurrence of each kept,
/// in match order.
pub fn extract_subsystems(content: &str) -> (r: Vec<String>)
    ensures
        r.deep_view() == spec_subsystems(content@),
{
    let len = content.unicode_len();
    let mut out: Vec<String> = Vec::new();
    let ghost mut found: Seq<Seq<char>> = Seq::empty();
    proof {
        assert(found.filter(subsys_keep()) =~= Seq::<Seq<char>>::empty());
        assert(out.deep_view() =~= dedup_first(found.filter(subsys_keep())));
        assert(found + collect_subsys(content@, 0) =~= collect_subsys(content@, 0));
    }
    let mut i: usize = 0;
    while i < len
        invariant
            len == content@.len(),
            i <= len,
            found + collect_subsys(content@, i as int) == collect_subsys(content@, 0),
            out.deep_view() == dedup_first(found.filter(subsys_keep())),
        decreases len - i,
    {
        match subsys_match_exec(content, i) {
            Some(we) => {
                proof {
                    lemma_run_end(content@, i + 1, word_cls());
                }
                let tag = content.substring_char(i + 1, we).to_owned();
                let ghost cap = content@.subrange(i + 1, we as int);
                proof {
                    assert(collect_subsys(content@, i as int)
                        =~= seq![cap] + collect_subsys(content@, we + 1));
                }
                let keep = !severity_name_exec(&tag) && !starts_with_team_exec(&tag);
                proof {
                    broadcast use vstd::seq::Seq::lemma_filter_push;
                    assert(keep == subsys_keep()(cap));
                    if keep {
                        assert(found.push(cap).filter(subsys_keep())
                            == found.filter(subsys_keep()).push(cap));
                    } else {
                        assert(found.push(cap).filter(subsys_keep())
                            == found.filter(subsys_keep()));
                    }
                }
                if keep {
                    push_dedup(&mut out, tag, Ghost(found.filter(subsys_keep())));
                }
                proof {
                    found = found.push(cap);
                    assert(found + collect_subsys(content@, we + 1)
                        =~= collect_subsys(content@, 0));
                }
                i = we + 1;
            },
            None => {
                i += 1;
            },
        }
    }
    proof {
        assert(found + collect_subsys(content@, len as int) =~= found);
    }
    out
}

/// Mathematical model of one discovered pattern: the extracted tags, the
/// fingerprint, and the unmodified example line.
pub ghost struct PatternView {
    pub event_name: Option<Seq<char>>,
    pub severity: Option<Seq<char>>,
    pub teams: Seq<Seq<char>>,
    pub subsystems: Seq<Seq<char>>,
    pub signature: Seq<char>,
    pub example_line: Seq<char>,
}

/// Raw log pattern extracted from one log line for schema discovery: one
/// representative example line together with its tags and fingerprint.
#[derive(Clone)]
pub struct RawLogPattern {
    pub event_name: Option<String>,
    pub severity: Option<String>,
    pub teams: Vec<String>,
    pub subsystems: Vec<String>,
    pub signature: String,
    pub example_line: String,
}

impl View for RawLogPattern {
    type V = PatternView;

    open spec fn view(&self) -> PatternView {
        PatternView {
            event_name: self.event_name.deep_view(),
            severity: self.severity.deep_view(),
            teams: self.teams.deep_view(),
            subsystems: self.subsystems.deep_view(),
            signature: self.signature@,
            example_line: self.example_line@,
        }
    }
}

impl DeepView for RawLogPattern {
    type V = PatternView;

    open spec fn deep_view(&self) -> PatternView {
        self.view()
    }
}

/// The pattern a line yields: `None` without a leading timestamp; otherwise
/// the tags extracted from the line after the timestamp, their fingerprint,
/// and the original line as the example.
pub open spec fn spec_extract(l: Seq<char>) -> Option<PatternView> {
    match ts_content_start(l) {
        None => None,
        Some(cs) => {
            let content = l.subrange(cs, l.len() as int);
            let name = spec_event_name(content);
            let sev = find_severity_from(content, 0);
            let teams = spec_teams(content);
            let subs = spec_subsystems(content);
            Some(PatternView {
                event_name: name,
                severity: sev,
                teams: teams,
                subsystems: subs,
                signature: crate::signature::sig_of(name, sev, teams, subs),
                example_line: l,
            })
        },
    }
}

/// Extract pattern metadata from one log line, or `None` if the line does
/// not begin with a timestamp token.
pub fn extract_log_pattern(line: &str) -> (r: Option<RawLogPattern>)
    ensures
        r.deep_view() == spec_extract(line@),
{
    let cs = match ts_strip(line) {
        None => {
            return None;
        },
        Some(cs) => cs,
    };
    let len = line.unicode_len();
    let content = line.substring_char(cs, len);
    let event_name = extract_event_name(content);
    let severity = extract_severity(content);
    let teams = extract_teams(content);
    let subsystems = extract_subsystems(content);
    let teams_slice = teams.as_slice();
    let subsystems_slice = subsystems.as_slice();
    let signature = crate::signature::generate_signature(
        &event_name,
        &severity,
        teams_slice,
        subsystems_slice,
    );
    proof {
        assert(teams_slice.deep_view() =~= teams.deep_view());
        assert(subsystems_slice.deep_view() =~= subsystems.deep_view());
    }
    let p = RawLogPattern {
        event_name,
        severity,
        teams,
        subsystems,
        signature,
        example_line: line.to_owned(),
    };
    Some(p)
}

/// A line without the timestamp prefix yields no pattern, whatever else it
/// contains.
pub proof fn lemma_no_timestamp_no_pattern(l: Seq<char>)
    requires
        ts_content_start(l) is None,
    ensures
        spec_extract(l) is None,
{
}

/// Severity names never appear in the subsystem-tag set, even when the line
/// carries bracketed tokens spelled like severity names.
pub proof fn lemma_severity_not_in_subsystems(l: Seq<char>, pv: PatternView, t: Seq<char>)
    requires
        spec_extract(l) == Some(pv),
        is_severity_name(t),
    ensures
        !pv.subsystems.contains(t),
{
    let cs = ts_content_start(l)->Some_0;
    let content = l.subrange(cs, l.len() as int);
    let raw = collect_subsys(content, 0).filter(subsys_keep());
    lemma_dedup_first_contains(raw, t);
    if raw.contains(t) {
        broadcast use vstd::seq::Seq::lemma_filter_contains;
        assert(subsys_keep()(t));
    }
}

} // verus!
