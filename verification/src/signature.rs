//! Signature builder: canonicalizes a line's extracted tags into an
//! order-independent fingerprint string used to deduplicate patterns.
//!
//! The fingerprint joins, with `|`, the event name (or `null`), the severity
//! (or `null`), the team tags sorted and comma-joined, and the subsystem tags
//! sorted and comma-joined.

use vstd::prelude::*;
use vstd::relations::total_ordering;
use vstd::seq_lib::lemma_sorted_unique;
use crate::text::{str_le, str_leq, str_le_exec, join_comma, join_comma_exec,
    lemma_str_leq_total_ordering};

verus! {

/// The placeholder written for an absent event name or severity.
pub open spec fn null_chars() -> Seq<char> {
    seq!['n', 'u', 'l', 'l']
}

/// An optional field as it appears in the fingerprint.
pub open spec fn opt_or_null(o: Option<Seq<char>>) -> Seq<char> {
    match o {
        Some(s) => s,
        None => null_chars(),
    }
}

/// The canonical fingerprint of a tag combination. Team and subsystem tags
/// enter as given; the fingerprint sorts them, so it does not depend on
/// their order.
pub open spec fn sig_of(
    name: Option<Seq<char>>,
    severity: Option<Seq<char>>,
    teams: Seq<Seq<char>>,
    subsystems: Seq<Seq<char>>,
) -> Seq<char> {
    opt_or_null(name) + seq!['|'] + opt_or_null(severity) + seq!['|']
        + join_comma(teams.sort_by(str_leq())) + seq!['|']
        + join_comma(subsystems.sort_by(str_leq()))
}

/// Exec sort of a vector of strings into the order `str_le` gives,
/// by insertion into a sorted prefix.
fn sort_strings(v: &Vec<String>) -> (r: Vec<String>)
    ensures
        r.deep_view() == v.deep_view().sort_by(str_leq()),
{
    proof {
        lemma_str_leq_total_ordering();
    }
    let mut out: Vec<String> = Vec::new();
    proof {
        assert(out.deep_view() =~= Seq::<Seq<char>>::empty());
        assert(v.deep_view().take(0) =~= Seq::<Seq<char>>::empty());
    }
    let mut i: usize = 0;
    while i < v.len()
        invariant
            i <= v@.len(),
            vstd::relations::sorted_by(out.deep_view(), str_leq()),
            out.deep_view().to_multiset()
                == v.deep_view().take(i as int).to_multiset(),
        decreases v@.len() - i,
    {
        let s = v[i].clone();
        let pos = find_insert_pos(&out, &s);
        proof {
            broadcast use vstd::seq_lib::group_to_multiset_ensures;
            let dv = out.deep_view();
            let leq = str_leq();
            if (pos as int) < dv.len() {
                lemma_str_le_total_pair(dv[pos as int], s@);
                assert(str_le(s@, dv[pos as int]));
            }
            let dv2 = dv.insert(pos as int, s@);
            assert forall|x: int, y: int| 0 <= x < y < dv2.len() implies
                #[trigger] leq(dv2[x], dv2[y]) by {
                if y < pos {
                    assert(dv2[x] == dv[x] && dv2[y] == dv[y]);
                } else if x > pos {
                    assert(dv2[x] == dv[x - 1] && dv2[y] == dv[y - 1]);
                } else if x == pos && y > pos {
                    assert(dv2[x] == s@ && dv2[y] == dv[y - 1]);
                    if y - 1 == pos {
                        assert(str_le(s@, dv[pos as int]));
                    } else {
                        assert(leq(dv[pos as int], dv[y - 1]));
                        lemma_str_le_trans_pub(s@, dv[pos as int], dv[y - 1]);
                    }
                } else if x < pos && y == pos {
                    assert(dv2[x] == dv[x] && dv2[y] == s@);
                } else {
                    assert(x < pos && y > pos);
                    assert(dv2[x] == dv[x] && dv2[y] == dv[y - 1]);
                    if y - 1 == pos {
                    } else {
                        assert(leq(dv[x], dv[y - 1]));
                    }
                }
            }
            lemma_insert_multiset(dv, pos as int, s@);
            assert(v.deep_view().take(i + 1)
                =~= v.deep_view().take(i as int).push(v.deep_view()[i as int]));
            lemma_deep_view_insert(out@, pos as int, s);
        }
        out.insert(pos, s);
        i += 1;
    }
    proof {
        let dv = v.deep_view();
        assert(dv.take(dv.len() as int) =~= dv);
        dv.lemma_sort_by_ensures(str_leq());
        lemma_sorted_unique(out.deep_view(), dv.sort_by(str_leq()), str_leq());
    }
    out
}

/// First position in a sorted vector whose entry is not below `s`;
/// inserting `s` there keeps the vector sorted.
fn find_insert_pos(out: &Vec<String>, s: &String) -> (pos: usize)
    ensures
        pos <= out@.len(),
        forall|k: int| 0 <= k < pos ==> str_le(out.deep_view()[k], s@),
        pos < out@.len() ==> !str_le(out.deep_view()[pos as int], s@),
{
    let mut pos: usize = 0;
    while pos < out.len()
        invariant
            pos <= out@.len(),
            forall|k: int| 0 <= k < pos ==> str_le(out.deep_view()[k], s@),
        decreases out@.len() - pos,
    {
        if !str_le_exec(out[pos].as_str(), s.as_str()) {
            assert(out.deep_view()[pos as int] == out@[pos as int]@);
            return pos;
        }
        assert(out.deep_view()[pos as int] == out@[pos as int]@);
        pos += 1;
    }
    pos
}

/// Either order holds between any two character sequences.
proof fn lemma_str_le_total_pair(a: Seq<char>, b: Seq<char>)
    ensures
        str_le(a, b) || str_le(b, a),
{
    lemma_str_leq_total_ordering();
    let leq = str_leq();
    assert(leq(a, b) || leq(b, a));
}

/// Transitivity of `str_le`, for use at a concrete triple.
proof fn lemma_str_le_trans_pub(a: Seq<char>, b: Seq<char>, c: Seq<char>)
    requires
        str_le(a, b),
        str_le(b, c),
    ensures
        str_le(a, c),
{
    lemma_str_leq_total_ordering();
    let leq = str_leq();
    assert(leq(a, b) && leq(b, c));
    assert(leq(a, c));
}

/// Inserting into a sequence adds one element to its multiset.
proof fn lemma_insert_multiset(s: Seq<Seq<char>>, i: int, x: Seq<char>)
    requires
        0 <= i <= s.len(),
    ensures
        s.insert(i, x).to_multiset() == s.to_multiset().insert(x),
{
    broadcast use vstd::seq_lib::group_to_multiset_ensures;
    let left = s.take(i);
    let right = s.skip(i);
    assert(s.insert(i, x) =~= left + (seq![x] + right));
    assert(s =~= left + right);
    vstd::seq_lib::lemma_multiset_commutative(left, seq![x] + right);
    vstd::seq_lib::lemma_multiset_commutative(seq![x], right);
    vstd::seq_lib::lemma_multiset_commutative(left, right);
    assert(seq![x] =~= Seq::<Seq<char>>::empty().push(x));
    assert(seq![x].to_multiset() == Seq::<Seq<char>>::empty().to_multiset().insert(x));
    assert(s.insert(i, x).to_multiset() =~= s.to_multiset().insert(x));
}

/// The deep view of a vector after `insert` is the deep view with the
/// element's view inserted.
proof fn lemma_deep_view_insert(s: Seq<String>, i: int, x: String)
    requires
        0 <= i <= s.len(),
    ensures
        Seq::new(s.insert(i, x).len(), |k: int| s.insert(i, x)[k].deep_view())
            =~= Seq::new(s.len(), |k: int| s[k].deep_view()).insert(i, x@),
{
}

/// Build the canonical fingerprint string for one tag combination.
///
/// The result is exactly `sig_of` of the views of the arguments: the event
/// name or `null`, the severity or `null`, and each tag list sorted and
/// comma-joined, the four parts joined with `|`.
pub fn generate_signature(
    event_name: &Option<String>,
    severity: &Option<String>,
    teams: &[String],
    subsystems: &[String],
) -> (r: String)
    ensures
        r@ == sig_of(
            event_name.deep_view(),
            severity.deep_view(),
            teams.deep_view(),
            subsystems.deep_view(),
        ),
{
    let mut out: String = match event_name {
        Some(s) => s.clone(),
        None => null_string(),
    };
    out.append("|");
    let sev: String = match severity {
        Some(s) => s.clone(),
        None => null_string(),
    };
    out.append(sev.as_str());
    out.append("|");
    let sorted_teams = sort_strings(&slice_to_string_vec(teams));
    let joined_teams = join_comma_exec(&sorted_teams);
    out.append(joined_teams.as_str());
    out.append("|");
    let sorted_subs = sort_strings(&slice_to_string_vec(subsystems));
    let joined_subs = join_comma_exec(&sorted_subs);
    out.append(joined_subs.as_str());
    proof {
        reveal_strlit("|");
        assert("|"@ =~= seq!['|']);
        assert(out@ =~= sig_of(
            event_name.deep_view(),
            severity.deep_view(),
            teams.deep_view(),
            subsystems.deep_view(),
        ));
    }
    out
}

/// The literal placeholder as an owned string.
fn null_string() -> (r: String)
    ensures
        r@ == null_chars(),
{
    let r = String::from_str("null");
    proof {
        reveal_strlit("null");
        assert("null"@ =~= null_chars());
    }
    r
}

/// Copy a slice of strings into a vector, keeping the view.
fn slice_to_string_vec(s: &[String]) -> (r: Vec<String>)
    ensures
        r.deep_view() == s.deep_view(),
{
    let mut r: Vec<String> = Vec::new();
    let mut i: usize = 0;
    while i < s.len()
        invariant
            i <= s@.len(),
            r@.len() == i,
            forall|k: int| 0 <= k < i ==> r@[k]@ == s@[k]@,
        decreases s@.len() - i,
    {
        let e = &s[i];
        r.push(e.clone());
        i += 1;
    }
    proof {
        assert(r.deep_view() =~= s.deep_view());
    }
    r
}

/// The fingerprint does not depend on the order in which team or subsystem
/// tags were collected: reordering either list leaves it unchanged.
pub proof fn lemma_signature_order_independent(
    name: Option<Seq<char>>,
    severity: Option<Seq<char>>,
    teams1: Seq<Seq<char>>,
    teams2: Seq<Seq<char>>,
    subs1: Seq<Seq<char>>,
    subs2: Seq<Seq<char>>,
)
    requires
        teams1.to_multiset() == teams2.to_multiset(),
        subs1.to_multiset() == subs2.to_multiset(),
    ensures
        sig_of(name, severity, teams1, subs1) == sig_of(name, severity, teams2, subs2),
{
    lemma_str_leq_total_ordering();
    let leq = str_leq();
    teams1.lemma_sort_by_ensures(leq);
    teams2.lemma_sort_by_ensures(leq);
    subs1.lemma_sort_by_ensures(leq);
    subs2.lemma_sort_by_ensures(leq);
    lemma_sorted_unique(teams1.sort_by(leq), teams2.sort_by(leq), leq);
    lemma_sorted_unique(subs1.sort_by(leq), subs2.sort_by(leq), leq);
}

} // verus!
