//! The ship fitting panel's choice of ship: the player's own ships by name
//! in sorted order, and which of them the panel shows.
use crate::client::{names, ship_names};
use crate::text::{text_le, text_le_exec};
use vstd::prelude::*;

verus! {

/// Names of the ships that are not hostile (`false`), in the order given.
pub open spec fn friendly_names(ships: Seq<(Seq<char>, bool)>) -> Seq<Seq<char>>
    decreases ships.len(),
{
    if ships.len() == 0 {
        Seq::empty()
    } else {
        let prev = friendly_names(ships.drop_last());
        if !ships.last().1 {
            prev.push(ships.last().0)
        } else {
            prev
        }
    }
}

/// Where `x` goes in `s`: before the first name that sorts after it.
pub open spec fn sorted_pos(s: Seq<Seq<char>>, x: Seq<char>) -> int
    decreases s.len(),
{
    if s.len() == 0 {
        0
    } else if !text_le(s[0], x) {
        0
    } else {
        1 + sorted_pos(s.drop_first(), x)
    }
}

/// The names in sorted order, each inserted after the names that sort no
/// later than it.
pub open spec fn sorted_names(s: Seq<Seq<char>>) -> Seq<Seq<char>>
    decreases s.len(),
{
    if s.len() == 0 {
        Seq::empty()
    } else {
        let r = sorted_names(s.drop_last());
        r.insert(sorted_pos(r, s.last()), s.last())
    }
}

proof fn lemma_sorted_pos_bounds(s: Seq<Seq<char>>, x: Seq<char>)
    ensures
        0 <= sorted_pos(s, x) <= s.len(),
    decreases s.len(),
{
    if s.len() > 0 {
        lemma_sorted_pos_bounds(s.drop_first(), x);
    }
}

proof fn lemma_sorted_pos_skip(s: Seq<Seq<char>>, x: Seq<char>, i: int)
    requires
        0 <= i <= s.len(),
        forall|j: int| 0 <= j < i ==> text_le(#[trigger] s[j], x),
    ensures
        sorted_pos(s, x) == i + sorted_pos(s.skip(i), x),
    decreases i,
{
    if i > 0 {
        let t = s.drop_first();
        assert forall|j: int| 0 <= j < i - 1 implies text_le(#[trigger] t[j], x) by {
            assert(t[j] == s[j + 1]);
        }
        lemma_sorted_pos_skip(t, x, i - 1);
        assert(t.skip(i - 1) =~= s.skip(i));
    } else {
        assert(s.skip(0) =~= s);
    }
}

proof fn lemma_text_le_total(a: Seq<char>, b: Seq<char>)
    ensures
        text_le(a, b) || text_le(b, a),
    decreases a.len(),
{
    if a.len() > 0 && b.len() > 0 {
        if a[0] == b[0] {
            lemma_text_le_total(a.drop_first(), b.drop_first());
        } else {
            assert((a[0] as int) != (b[0] as int));
        }
    }
}

proof fn lemma_text_le_trans(a: Seq<char>, b: Seq<char>, c: Seq<char>)
    requires
        text_le(a, b),
        text_le(b, c),
    ensures
        text_le(a, c),
    decreases a.len(),
{
    if a.len() > 0 && b.len() > 0 && c.len() > 0 && a[0] == b[0] && b[0] == c[0] {
        lemma_text_le_trans(a.drop_first(), b.drop_first(), c.drop_first());
    }
}

proof fn lemma_sorted_pos_split(s: Seq<Seq<char>>, x: Seq<char>)
    ensures
        forall|j: int| 0 <= j < sorted_pos(s, x) ==> text_le(#[trigger] s[j], x),
        sorted_pos(s, x) < s.len() ==> !text_le(s[sorted_pos(s, x)], x),
    decreases s.len(),
{
    lemma_sorted_pos_bounds(s, x);
    if s.len() > 0 && text_le(s[0], x) {
        let t = s.drop_first();
        lemma_sorted_pos_split(t, x);
        assert forall|j: int| 0 <= j < sorted_pos(s, x) implies text_le(#[trigger] s[j], x) by {
            if j > 0 {
                assert(s[j] == t[j - 1]);
            }
        }
        let pt = sorted_pos(t, x);
        assert(sorted_pos(s, x) == 1 + pt);
        if sorted_pos(s, x) < s.len() {
            lemma_sorted_pos_bounds(t, x);
            assert(pt < t.len());
            assert(t[pt] == s[pt + 1]);
        }
    }
}

/// The fitting panel's list is in order: every name sorts no later than
/// the names after it, and no name is lost or added.
pub proof fn lemma_sorted_names_sorted(s: Seq<Seq<char>>)
    ensures
        sorted_names(s).len() == s.len(),
        sorted_names(s).to_multiset() == s.to_multiset(),
        forall|i: int, j: int| 0 <= i < j < s.len() ==> text_le(#[trigger] sorted_names(s)[i], #[trigger] sorted_names(s)[j]),
    decreases s.len(),
{
    if s.len() > 0 {
        let r = sorted_names(s.drop_last());
        let x = s.last();
        lemma_sorted_names_sorted(s.drop_last());
        lemma_sorted_pos_bounds(r, x);
        lemma_sorted_pos_split(r, x);
        let p = sorted_pos(r, x);
        let out = r.insert(p, x);
        assert(out == sorted_names(s));
        vstd::seq_lib::to_multiset_insert(r, p, x);
        assert(s =~= s.drop_last().push(x));
        vstd::seq_lib::to_multiset_build(s.drop_last(), x);
        assert(out.to_multiset() =~= s.to_multiset());
        assert(sorted_names(s).to_multiset() == s.to_multiset());
        assert forall|i: int, j: int| 0 <= i < j < out.len() implies text_le(#[trigger] out[i], #[trigger] out[j]) by {
            if j < p {
                assert(out[i] == r[i] && out[j] == r[j]);
            } else if j == p {
                assert(out[i] == r[i]);
            } else if i == p {
                assert(out[j] == r[j - 1]);
                lemma_text_le_total(r[p], x);
                if j - 1 > p {
                    lemma_text_le_trans(x, r[p], r[j - 1]);
                }
            } else if i < p {
                assert(out[i] == r[i] && out[j] == r[j - 1]);
            } else {
                assert(out[i] == r[i - 1] && out[j] == r[j - 1]);
            }
        }
    } else {
        assert(s =~= sorted_names(s));
    }
}

/// Inserts `name` where it sorts, after the names that sort no later.
fn insert_sorted_name(v: &mut Vec<String>, name: String)
    ensures
        names(final(v)@) == names(old(v)@).insert(sorted_pos(names(old(v)@), name@), name@),
{
    let ghost s = names(v@);
    let mut i: usize = 0;
    while i < v.len() && text_le_exec(v[i].as_str(), name.as_str())
        invariant
            i <= v@.len(),
            v@ == old(v)@,
            s == names(v@),
            forall|j: int| 0 <= j < i ==> text_le(#[trigger] s[j], name@),
        decreases v@.len() - i,
    {
        i = i + 1;
    }
    proof {
        lemma_sorted_pos_skip(s, name@, i as int);
        if i < v@.len() {
            assert(s.skip(i as int)[0] == s[i as int]);
        }
        assert(sorted_pos(s, name@) == i);
    }
    v.insert(i, name);
    proof {
        assert(names(v@) =~= s.insert(i as int, name@));
    }
}

/// The fitting panel's ship list: the names of the player's own ships
/// (hostile ones left out), sorted.
pub fn fit_ship_names(ships: &[(String, bool)]) -> (v: Vec<String>)
    ensures
        names(v@) == sorted_names(friendly_names(ship_names(ships@))),
{
    let mut v: Vec<String> = Vec::new();
    let mut j: usize = 0;
    while j < ships.len()
        invariant
            j <= ships@.len(),
            names(v@) == sorted_names(friendly_names(ship_names(ships@.take(j as int)))),
        decreases ships@.len() - j,
    {
        proof {
            assert(ship_names(ships@.take(j + 1)).drop_last() =~= ship_names(ships@.take(j as int)));
        }
        if !ships[j].1 {
            let name = ships[j].0.clone();
            insert_sorted_name(&mut v, name);
            proof {
                let f = friendly_names(ship_names(ships@.take(j + 1)));
                assert(f.drop_last() =~= friendly_names(ship_names(ships@.take(j as int))));
            }
        }
        j = j + 1;
    }
    proof {
        assert(ships@.take(ships@.len() as int) =~= ships@);
    }
    v
}

/// The position of the ship the panel shows: the chosen one (the first when
/// none is chosen), held to the last ship of a list of `count`.
pub fn fit_selection(selected: Option<usize>, count: usize) -> (i: usize)
    ensures
        i == ({
            let want: int = match selected {
                Some(s) => s as int,
                None => 0,
            };
            let last: int = if count > 0 { count - 1 } else { 0 };
            if want <= last { want } else { last }
        }),
{
    let want = match selected {
        Some(s) => s,
        None => 0,
    };
    let last = if count > 0 { count - 1 } else { 0 };
    if want <= last {
        want
    } else {
        last
    }
}

} // verus!
