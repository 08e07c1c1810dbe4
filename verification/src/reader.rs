//! Incremental reader: a single pass over the file's lines. Every call is an
//! independent full scan; the caller holds the cursor. The pass counts all
//! lines, greedily tracks the most recent player-identity line anywhere in
//! the file, and, for lines at or after the caller's watermark, filters by
//! the marker catalogue and catalogues novel tag patterns.
//!
//! The I/O shell reads the file and hands the lines in; if the file cannot
//! be opened or a line cannot be decoded, the shell fails the whole call and
//! none of these functions run.

use vstd::prelude::*;
use vstd::math::max;
use crate::text::{has_sub, find_from, lemma_find_from, find_sub, vec_contains_string};
use crate::tags::{spec_extract, extract_log_pattern, RawLogPattern, PatternView,
    is_space, space_exec};
use crate::markers::{spec_contains_marker, contains_event_marker};

verus! {

/// The login marker whose lines carry the player identity.
pub open spec fn login_marker() -> Seq<char> {
    "AccountLoginCharacterStatus_Character"@
}

/// The token that precedes the player name on a login line.
pub open spec fn name_token() -> Seq<char> {
    "name "@
}

/// The delimiter that ends the player name on a login line.
pub open spec fn name_delim() -> Seq<char> {
    " - "@
}

/// The player name one line yields: on a line containing the login marker,
/// the text between the first `name ` token and the next ` - ` after it.
pub open spec fn spec_identity(l: Seq<char>) -> Option<Seq<char>> {
    if has_sub(l, login_marker()) {
        match find_from(l, name_token(), 0) {
            None => None,
            Some(p) => {
                let start = p + name_token().len();
                let rest = l.subrange(start, l.len() as int);
                match find_from(rest, name_delim(), 0) {
                    None => None,
                    Some(e) => Some(l.subrange(start, start + e)),
                }
            },
        }
    } else {
        None
    }
}

/// The most recent player identity over a whole file: the last line that
/// yields one wins, whatever came before.
pub open spec fn last_identity(lines: Seq<Seq<char>>) -> Option<Seq<char>>
    decreases lines.len(),
{
    if lines.len() == 0 {
        None
    } else {
        match spec_identity(lines.last()) {
            Some(n) => Some(n),
            None => last_identity(lines.drop_last()),
        }
    }
}

/// The lines at or after the watermark that contain an event marker,
/// in file order, unmodified.
pub open spec fn filtered_lines(lines: Seq<Seq<char>>, i: int) -> Seq<Seq<char>>
    decreases lines.len() - i,
{
    if i < 0 || i >= lines.len() {
        Seq::empty()
    } else if spec_contains_marker(lines[i]) {
        seq![lines[i]] + filtered_lines(lines, i + 1)
    } else {
        filtered_lines(lines, i + 1)
    }
}

/// The pattern catalogue built from the lines at or after `i`, given the
/// fingerprints already seen: one pattern per novel fingerprint, in
/// first-seen order.
pub open spec fn spec_catalogue(lines: Seq<Seq<char>>, i: int, seen: Seq<Seq<char>>) -> Seq<PatternView>
    decreases lines.len() - i,
{
    if i < 0 || i >= lines.len() {
        Seq::empty()
    } else {
        match spec_extract(lines[i]) {
            Some(pv) => if !seen.contains(pv.signature) {
                seq![pv] + spec_catalogue(lines, i + 1, seen.push(pv.signature))
            } else {
                spec_catalogue(lines, i + 1, seen)
            },
            None => spec_catalogue(lines, i + 1, seen),
        }
    }
}

/// The non-blank lines at or after the watermark, in file order.
pub open spec fn suffix_lines(lines: Seq<Seq<char>>, i: int) -> Seq<Seq<char>>
    decreases lines.len() - i,
{
    if i < 0 || i >= lines.len() {
        Seq::empty()
    } else if !is_blank(lines[i]) {
        seq![lines[i]] + suffix_lines(lines, i + 1)
    } else {
        suffix_lines(lines, i + 1)
    }
}

/// A line is blank when every character is whitespace.
pub open spec fn is_blank(l: Seq<char>) -> bool {
    forall|k: int| 0 <= k < l.len() ==> is_space(l[k])
}

/// Result of a metadata pass: the file's line count and the player identity.
pub struct LogMetadata {
    pub line_count: usize,
    pub player_name: Option<String>,
}

/// Result of a full reading pass: the file's line count, the player
/// identity, the filtered new lines, and the novel patterns of this pass.
pub struct LogUpdate {
    pub line_count: usize,
    pub player_name: Option<String>,
    pub new_lines: Vec<String>,
    pub patterns: Vec<RawLogPattern>,
}

/// What one reading pass returns, as a predicate over the inputs: the total
/// line count; the most recent identity of the whole file if asked, absent
/// otherwise; the marker-filtered lines from the watermark on; and, if
/// asked, the catalogue of novel patterns from the watermark on.
pub open spec fn update_post(
    u: LogUpdate,
    lines: Seq<Seq<char>>,
    from: int,
    extract_player_name: bool,
    extract_patterns: bool,
) -> bool {
    &&& u.line_count == lines.len()
    &&& u.player_name.deep_view() == (if extract_player_name {
        last_identity(lines)
    } else {
        None::<Seq<char>>
    })
    &&& u.new_lines.deep_view() == filtered_lines(lines, from)
    &&& u.patterns.deep_view() == (if extract_patterns {
        spec_catalogue(lines, from, Seq::empty())
    } else {
        Seq::<PatternView>::empty()
    })
}

/// Exec identity extraction from one line.
pub fn extract_player_identity(line: &str) -> (r: Option<String>)
    ensures
        r.deep_view() == spec_identity(line@),
{
    if !crate::text::contains_sub(line, "AccountLoginCharacterStatus_Character") {
        return None;
    }
    let p = match find_sub(line, "name ") {
        None => {
            return None;
        },
        Some(p) => p,
    };
    proof {
        reveal_strlit("name ");
        lemma_find_from(line@, "name "@, 0);
    }
    let len = line.unicode_len();
    let start = p + 5;
    let rest = line.substring_char(start, len);
    let e = match find_sub(rest, " - ") {
        None => {
            return None;
        },
        Some(e) => e,
    };
    proof {
        lemma_find_from(rest@, " - "@, 0);
        assert(line@.subrange(start as int, start + e)
            =~= rest@.subrange(0, e as int));
    }
    Some(rest.substring_char(0, e).to_owned())
}

/// Exec blank test: every character of the line is whitespace.
fn is_blank_exec(line: &str) -> (r: bool)
    ensures
        r == is_blank(line@),
{
    let len = line.unicode_len();
    let mut i: usize = 0;
    while i < len
        invariant
            len == line@.len(),
            i <= len,
            forall|k: int| 0 <= k < i ==> is_space(line@[k]),
        decreases len - i,
    {
        if !space_exec(line.get_char(i)) {
            return false;
        }
        i += 1;
    }
    true
}

/// Total line count of the file.
pub fn line_count(lines: &Vec<String>) -> (r: usize)
    ensures
        r == lines@.len(),
{
    lines.len()
}

/// The most recent player identity over all lines, scanning in order with
/// the last match winning.
fn scan_identity(lines: &Vec<String>) -> (r: Option<String>)
    ensures
        r.deep_view() == last_identity(lines.deep_view()),
{
    let ghost dlines = lines.deep_view();
    proof {
        assert(dlines.take(0) =~= Seq::<Seq<char>>::empty());
    }
    let mut player: Option<String> = None;
    let mut i: usize = 0;
    while i < lines.len()
        invariant
            i <= lines@.len(),
            dlines == lines.deep_view(),
            player.deep_view() == last_identity(dlines.take(i as int)),
        decreases lines@.len() - i,
    {
        let pid = extract_player_identity(lines[i].as_str());
        if pid.is_some() {
            player = pid;
        }
        proof {
            assert(dlines.take(i + 1).drop_last() =~= dlines.take(i as int));
            assert(dlines.take(i + 1).last() == dlines[i as int]);
        }
        i += 1;
    }
    proof {
        assert(dlines.take(lines@.len() as int) =~= dlines);
    }
    player
}

/// Metadata pass: line count and player identity only, without building the
/// line or pattern payload.
pub fn get_metadata(lines: &Vec<String>) -> (r: LogMetadata)
    ensures
        r.line_count == lines@.len(),
        r.player_name.deep_view() == last_identity(lines.deep_view()),
{
    LogMetadata { line_count: lines.len(), player_name: scan_identity(lines) }
}

/// Plain suffix pass: every non-blank line at or after the watermark,
/// unfiltered by markers.
pub fn read_suffix(lines: &Vec<String>, from_line: usize) -> (r: Vec<String>)
    ensures
        r.deep_view() == suffix_lines(lines.deep_view(), from_line as int),
{
    let ghost dlines = lines.deep_view();
    let mut out: Vec<String> = Vec::new();
    let mut i: usize = from_line;
    proof {
        assert(out.deep_view() + suffix_lines(dlines, from_line as int)
            =~= suffix_lines(dlines, from_line as int));
    }
    if from_line >= lines.len() {
        return out;
    }
    while i < lines.len()
        invariant
            from_line <= i <= lines@.len(),
            dlines == lines.deep_view(),
            out.deep_view() + suffix_lines(dlines, i as int)
                == suffix_lines(dlines, from_line as int),
        decreases lines@.len() - i,
    {
        if !is_blank_exec(lines[i].as_str()) {
            let ghost dv0 = out.deep_view();
            out.push(lines[i].clone());
            proof {
                assert(out.deep_view() =~= dv0.push(dlines[i as int]));
                assert(dv0.push(dlines[i as int]) =~= dv0 + seq![dlines[i as int]]);
                assert((dv0 + seq![dlines[i as int]]) + suffix_lines(dlines, i + 1)
                    =~= dv0 + (seq![dlines[i as int]] + suffix_lines(dlines, i + 1)));
            }
        }
        i += 1;
    }
    proof {
        assert(out.deep_view() + suffix_lines(dlines, lines@.len() as int)
            =~= out.deep_view());
    }
    out
}

/// Full reading pass in a single scan: counts every line, keeps the most
/// recent player identity if asked, and, for lines at or after the
/// watermark, catalogues novel patterns if asked and collects the lines
/// that contain an event marker.
pub fn read_update(
    lines: &Vec<String>,
    from_line: usize,
    extract_player_name: bool,
    extract_patterns: bool,
) -> (r: LogUpdate)
    ensures
        update_post(r, lines.deep_view(), from_line as int, extract_player_name, extract_patterns),
{
    let ghost dlines = lines.deep_view();
    let ghost fidx = from_line as int;
    let mut player: Option<String> = None;
    let mut new_lines: Vec<String> = Vec::new();
    let mut patterns: Vec<RawLogPattern> = Vec::new();
    let mut seen: Vec<String> = Vec::new();
    proof {
        assert(dlines.take(0) =~= Seq::<Seq<char>>::empty());
        assert(new_lines.deep_view() =~= Seq::<Seq<char>>::empty());
        assert(patterns.deep_view() =~= Seq::<PatternView>::empty());
        assert(seen.deep_view() =~= Seq::<Seq<char>>::empty());
        assert(new_lines.deep_view() + filtered_lines(dlines, max(0, fidx))
            =~= filtered_lines(dlines, fidx));
        assert(patterns.deep_view() + spec_catalogue(dlines, max(0, fidx), seen.deep_view())
            =~= spec_catalogue(dlines, fidx, Seq::empty()));
    }
    let mut i: usize = 0;
    while i < lines.len()
        invariant
            i <= lines@.len(),
            dlines == lines.deep_view(),
            fidx == from_line as int,
            player.deep_view() == (if extract_player_name {
                last_identity(dlines.take(i as int))
            } else {
                None::<Seq<char>>
            }),
            new_lines.deep_view() + filtered_lines(dlines, max(i as int, fidx))
                == filtered_lines(dlines, fidx),
            extract_patterns ==> patterns.deep_view()
                + spec_catalogue(dlines, max(i as int, fidx), seen.deep_view())
                == spec_catalogue(dlines, fidx, Seq::empty()),
            !extract_patterns ==> patterns.deep_view()
                == Seq::<PatternView>::empty(),
        decreases lines@.len() - i,
    {
        if extract_player_name {
            let pid = extract_player_identity(lines[i].as_str());
            if pid.is_some() {
                player = pid;
            }
        }
        proof {
            assert(dlines.take(i + 1).drop_last() =~= dlines.take(i as int));
            assert(dlines.take(i + 1).last() == dlines[i as int]);
        }
        if i >= from_line {
            proof {
                assert(max(i as int, fidx) == i as int);
                assert(max(i + 1, fidx) == i + 1);
            }
            if extract_patterns {
                match extract_log_pattern(lines[i].as_str()) {
                    Some(p) => {
                        let ghost pv = spec_extract(dlines[i as int])->Some_0;
                        let dup = vec_contains_string(&seen, &p.signature);
                        proof {
                            assert(p@.signature == pv.signature);
                        }
                        if !dup {
                            let ghost sv0 = seen.deep_view();
                            let ghost pats0 = patterns.deep_view();
                            seen.push(p.signature.clone());
                            patterns.push(p);
                            proof {
                                assert(seen.deep_view() =~= sv0.push(pv.signature));
                                assert(patterns.deep_view() =~= pats0.push(pv));
                                assert(pats0.push(pv) =~= pats0 + seq![pv]);
                                assert((pats0 + seq![pv])
                                    + spec_catalogue(dlines, i + 1, seen.deep_view())
                                    =~= pats0 + (seq![pv]
                                        + spec_catalogue(dlines, i + 1, seen.deep_view())));
                            }
                        }
                    },
                    None => {
                    },
                }
            }
            if contains_event_marker(lines[i].as_str()) {
                let ghost nl0 = new_lines.deep_view();
                new_lines.push(lines[i].clone());
                proof {
                    assert(new_lines.deep_view() =~= nl0.push(dlines[i as int]));
                    assert(nl0.push(dlines[i as int]) =~= nl0 + seq![dlines[i as int]]);
                    assert((nl0 + seq![dlines[i as int]])
                        + filtered_lines(dlines, i + 1)
                        =~= nl0 + (seq![dlines[i as int]]
                            + filtered_lines(dlines, i + 1)));
                }
            }
        } else {
            proof {
                assert(max(i as int, fidx) == fidx);
                assert(max(i + 1, fidx) == fidx);
            }
        }
        i += 1;
    }
    proof {
        assert(dlines.take(lines@.len() as int) =~= dlines);
        assert(new_lines.deep_view() + filtered_lines(dlines, max(lines@.len() as int, fidx))
            =~= new_lines.deep_view());
        if extract_patterns {
            assert(patterns.deep_view()
                + spec_catalogue(dlines, max(lines@.len() as int, fidx), seen.deep_view())
                =~= patterns.deep_view());
        }
    }
    LogUpdate {
        line_count: lines.len(),
        player_name: if extract_player_name {
            player
        } else {
            None
        },
        new_lines,
        patterns,
    }
}

/// Feeding the cataloguer two lines with the same fingerprint yields
/// exactly one pattern, keyed on the first-seen line.
pub proof fn lemma_catalogue_dedup(l1: Seq<char>, l2: Seq<char>, pv1: PatternView, pv2: PatternView)
    requires
        spec_extract(l1) == Some(pv1),
        spec_extract(l2) == Some(pv2),
        pv1.signature == pv2.signature,
    ensures
        spec_catalogue(seq![l1, l2], 0, Seq::empty()) == seq![pv1],
        pv1.example_line == l1,
{
    let lines = seq![l1, l2];
    let seen1 = Seq::<Seq<char>>::empty().push(pv1.signature);
    assert(lines[0] == l1 && lines[1] == l2);
    assert(!Seq::<Seq<char>>::empty().contains(pv1.signature));
    assert(seen1[0] == pv1.signature);
    assert(seen1.contains(pv2.signature));
    assert(spec_catalogue(lines, 2, seen1) =~= Seq::<PatternView>::empty());
    assert(spec_catalogue(lines, 1, seen1) == spec_catalogue(lines, 2, seen1));
    assert(spec_catalogue(lines, 0, Seq::empty())
        =~= seq![pv1] + spec_catalogue(lines, 1, seen1));
    assert(seq![pv1] + Seq::<PatternView>::empty() =~= seq![pv1]);
}

/// The player identity a pass reports does not depend on the watermark:
/// two passes over the same lines with identity extraction on report the
/// same identity, whatever their watermarks.
pub proof fn lemma_identity_watermark_independent(
    u1: LogUpdate,
    u2: LogUpdate,
    lines: Seq<Seq<char>>,
    from1: int,
    from2: int,
    extract_patterns: bool,
)
    requires
        update_post(u1, lines, from1, true, extract_patterns),
        update_post(u2, lines, from2, true, extract_patterns),
    ensures
        u1.player_name.deep_view() == u2.player_name.deep_view(),
        u1.player_name.deep_view() == last_identity(lines),
{
}

/// A reading pass is a pure function of its inputs: any two results that
/// meet the contract on the same lines, watermark and flags agree in every
/// field, so repeating a call on an unchanged file repeats its result.
pub proof fn lemma_read_update_deterministic(
    u1: LogUpdate,
    u2: LogUpdate,
    lines: Seq<Seq<char>>,
    from: int,
    extract_player_name: bool,
    extract_patterns: bool,
)
    requires
        update_post(u1, lines, from, extract_player_name, extract_patterns),
        update_post(u2, lines, from, extract_player_name, extract_patterns),
    ensures
        u1.line_count == u2.line_count,
        u1.player_name.deep_view() == u2.player_name.deep_view(),
        u1.new_lines.deep_view() == u2.new_lines.deep_view(),
        u1.patterns.deep_view() == u2.patterns.deep_view(),
{
}

} // verus!
