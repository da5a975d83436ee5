//! Identifiers: UUIDs are held as their 128-bit value, and rendered and
//! parsed by the `uuid` crate.
use std::collections::HashMap;
use vstd::arithmetic::power::pow;
use vstd::prelude::*;

verus! {

/// Lower-case hexadecimal digit of `d` (below 16).
pub open spec fn lower_hex_digit(d: int) -> char {
    if d < 10 {
        (48 + d) as char
    } else {
        (87 + d) as char
    }
}

/// The `k`-th of the 32 hexadecimal digits of `id`, most significant first.
pub open spec fn uuid_digit(id: u128, k: int) -> int {
    (id as int / pow(16, (31 - k) as nat)) % 16
}

/// Number of hyphens before position `p` of a hyphenated UUID.
pub open spec fn hyphens_before(p: int) -> int {
    if p < 8 {
        0
    } else if p < 13 {
        1
    } else if p < 18 {
        2
    } else if p < 23 {
        3
    } else {
        4
    }
}

/// Text of a UUID as `uuid::Uuid`'s `Display` renders it: its 32
/// hexadecimal digits, most significant first and in lower case, in groups
/// of 8, 4, 4, 4 and 12 joined by hyphens.
pub open spec fn uuid_text(id: u128) -> Seq<char> {
    Seq::new(
        36,
        |p: int|
            if p == 8 || p == 13 || p == 18 || p == 23 {
                '-'
            } else {
                lower_hex_digit(uuid_digit(id, p - hyphens_before(p)))
            },
    )
}

/// Value of a UUID parsed from text by `uuid::Uuid::parse_str`, `None` when
/// the text is not a UUID.
pub uninterp spec fn uuid_parse(s: Seq<char>) -> Option<u128>;

/// Render a UUID by `uuid::Uuid::from_u128(id).to_string()`.
///
/// Trusted: the `uuid` crate's `Display` writes the hyphenated lower-case
/// form of the value's big-endian bytes (36 characters), which
/// `Uuid::parse_str` reads back to the same value.
#[verifier::external_body]
pub(crate) fn render_uuid(id: u128) -> (r: String)
    ensures
        r@ == uuid_text(id),
        r@.len() == 36,
        uuid_parse(r@) == Some(id),
{
    uuid::Uuid::from_u128(id).to_string()
}

/// Text of the error `uuid::Uuid::parse_str` reports for `s`, as its
/// `Display` renders it.
pub uninterp spec fn uuid_error_text(s: Seq<char>) -> Seq<char>;

/// Parse a UUID by `uuid::Uuid::parse_str`.
///
/// Trusted: the result is whatever `parse_str` gives on this text, as a
/// 128-bit value, or the rendered text of its error; nothing more is claimed
/// about which texts it accepts.
#[verifier::external_body]
pub(crate) fn parse_uuid(s: &str) -> (r: Result<u128, String>)
    ensures
        match r {
            Ok(id) => uuid_parse(s@) == Some(id),
            Err(e) => uuid_parse(s@) is None && e@ == uuid_error_text(s@),
        },
{
    match uuid::Uuid::parse_str(s) {
        Ok(u) => Ok(u.as_u128()),
        Err(e) => Err(e.to_string()),
    }
}

/// Position of the last occurrence of `id` in `ids`, or -1 when it is absent.
///
/// A map built by inserting `(ids[i], i)` in order keeps exactly this slot.
pub open spec fn last_index_of(ids: Seq<u128>, id: u128) -> int
    decreases ids.len(),
{
    if ids.len() == 0 {
        -1
    } else if ids.last() == id {
        ids.len() - 1
    } else {
        last_index_of(ids.drop_last(), id)
    }
}

/// The last occurrence found is a position of the id.
pub proof fn lemma_last_index_bounds(ids: Seq<u128>, id: u128)
    ensures
        -1 <= last_index_of(ids, id) < ids.len(),
        last_index_of(ids, id) >= 0 ==> ids[last_index_of(ids, id)] == id,
    decreases ids.len(),
{
    if ids.len() > 0 {
        lemma_last_index_bounds(ids.drop_last(), id);
    }
}

/// `id` occurs in `list`.
pub open spec fn occurs(list: Seq<u128>, id: u128) -> bool {
    exists|i: int| 0 <= i < list.len() && list[i] == id
}

/// Position `p` of `list` holds `id`, and no later position does.
pub open spec fn is_last_position(list: Seq<u128>, p: int, id: u128) -> bool {
    &&& 0 <= p < list.len()
    &&& list[p] == id
    &&& forall|j: int| p < j < list.len() ==> list[j] != id
}

/// The slot of an id is its last position: it exists exactly when the id
/// occurs, holds the id, and no later position does.
pub proof fn lemma_last_index_is_last(ids: Seq<u128>, id: u128)
    ensures
        last_index_of(ids, id) >= 0 <==> exists|i: int| 0 <= i < ids.len() && ids[i] == id,
        last_index_of(ids, id) >= 0 ==> {
            &&& last_index_of(ids, id) < ids.len()
            &&& ids[last_index_of(ids, id)] == id
            &&& forall|j: int| last_index_of(ids, id) < j < ids.len() ==> ids[j] != id
        },
    decreases ids.len(),
{
    if ids.len() > 0 {
        let d = ids.drop_last();
        lemma_last_index_is_last(d, id);
        if ids.last() != id {
            if exists|i: int| 0 <= i < ids.len() && ids[i] == id {
                let i = choose|i: int| 0 <= i < ids.len() && ids[i] == id;
                assert(d[i] == id);
            }
            if last_index_of(d, id) >= 0 {
                let w = last_index_of(d, id);
                assert(ids[w] == d[w]);
                assert forall|j: int| w < j < ids.len() implies ids[j] != id by {
                    if j < d.len() {
                        assert(ids[j] == d[j]);
                    }
                }
            }
        } else {
            assert(ids[ids.len() - 1] == id);
        }
    }
}

/// Map every id of `ids` to its slot, the position of its last occurrence
/// (inserting the slots in order, a later occurrence replaces an earlier one).
pub fn slot_map(ids: &Vec<u128>) -> (m: HashMap<u128, usize>)
    ensures
        forall|id: u128| #[trigger] m@.contains_key(id) <==> last_index_of(ids@, id) >= 0,
        forall|id: u128| m@.contains_key(id) ==> #[trigger] m@[id] as int == last_index_of(ids@, id),
{
    broadcast use vstd::std_specs::hash::group_hash_axioms;

    let mut m: HashMap<u128, usize> = HashMap::new();
    let mut i: usize = 0;
    while i < ids.len()
        invariant
            i <= ids@.len(),
            forall|id: u128| #[trigger] m@.contains_key(id) <==> last_index_of(ids@.take(i as int), id) >= 0,
            forall|id: u128|
                m@.contains_key(id) ==> #[trigger] m@[id] as int == last_index_of(ids@.take(i as int), id),
        decreases ids@.len() - i,
    {
        assert(ids@.take(i + 1).drop_last() =~= ids@.take(i as int));
        assert(ids@.take(i + 1).last() == ids@[i as int]);
        m.insert(ids[i], i);
        proof {
            assert forall|id: u128| #[trigger] m@.contains_key(id) <==> last_index_of(ids@.take(i + 1), id) >= 0 by {
                lemma_last_index_bounds(ids@.take(i as int), id);
            }
        }
        i = i + 1;
    }
    assert(ids@.take(ids@.len() as int) =~= ids@);
    m
}

/// Slot of `id` in a slot map, `None` when it has none.
pub fn slot_in(m: &HashMap<u128, usize>, id: u128) -> (r: Option<usize>)
    ensures
        match r {
            Some(i) => m@.contains_key(id) && m@[id] == i,
            None => !m@.contains_key(id),
        },
{
    broadcast use vstd::std_specs::hash::group_hash_axioms;

    match m.get(&id) {
        Some(i) => Some(*i),
        None => None,
    }
}


/// Positions in `keys` that hold `id`, in order.
pub open spec fn positions_of(keys: Seq<u128>, id: u128) -> Seq<int>
    decreases keys.len(),
{
    if keys.len() == 0 {
        Seq::empty()
    } else {
        let prev = positions_of(keys.drop_last(), id);
        if keys.last() == id {
            prev.push(keys.len() - 1)
        } else {
            prev
        }
    }
}

/// `ids[j]` does not occur before position `j`.
pub open spec fn is_first_occurrence(ids: Seq<u128>, j: int) -> bool {
    forall|k: int| 0 <= k < j ==> ids[k] != ids[j]
}

/// The positions of `keys` that a group takes: those holding its id, for
/// the first group with that id; none for a later group with the same id
/// (the rows were handed out already).
pub open spec fn group_members(keys: Seq<u128>, ids: Seq<u128>, j: int) -> Seq<int> {
    if is_first_occurrence(ids, j) {
        positions_of(keys, ids[j])
    } else {
        Seq::empty()
    }
}

fn positions_in(keys: &Vec<u128>, id: u128) -> (out: Vec<usize>)
    ensures
        out@.len() == positions_of(keys@, id).len(),
        forall|i: int| 0 <= i < out@.len() ==> out@[i] == #[trigger] positions_of(keys@, id)[i],
{
    let mut out: Vec<usize> = Vec::new();
    let mut k: usize = 0;
    while k < keys.len()
        invariant
            k <= keys@.len(),
            out@.len() == positions_of(keys@.take(k as int), id).len(),
            forall|i: int|
                0 <= i < out@.len() ==> out@[i] == #[trigger] positions_of(keys@.take(k as int), id)[i],
        decreases keys@.len() - k,
    {
        assert(keys@.take(k + 1).drop_last() =~= keys@.take(k as int));
        if keys[k] == id {
            out.push(k);
        }
        k = k + 1;
    }
    assert(keys@.take(keys@.len() as int) =~= keys@);
    out
}

/// Hand the rows whose keys are `keys` out to the groups whose ids are
/// `ids`: each group gets the positions of the rows with its id, in order,
/// and a group whose id occurred before gets none.
pub fn group_positions(keys: &Vec<u128>, ids: &Vec<u128>) -> (out: Vec<Vec<usize>>)
    ensures
        out@.len() == ids@.len(),
        forall|j: int|
            #![trigger out@[j]]
            0 <= j < out@.len() ==> out@[j]@.len() == group_members(keys@, ids@, j).len() && forall|
                i: int,
            |
                0 <= i < out@[j]@.len() ==> out@[j]@[i] == #[trigger] group_members(keys@, ids@, j)[i],
{
    let mut out: Vec<Vec<usize>> = Vec::new();
    let mut j: usize = 0;
    while j < ids.len()
        invariant
            j <= ids@.len(),
            out@.len() == j,
            forall|g: int|
                #![trigger out@[g]]
                0 <= g < j ==> out@[g]@.len() == group_members(keys@, ids@, g).len() && forall|
                    i: int,
                |
                    0 <= i < out@[g]@.len() ==> out@[g]@[i] == #[trigger] group_members(
                        keys@,
                        ids@,
                        g,
                    )[i],
        decreases ids@.len() - j,
    {
        let id = ids[j];
        let mut seen = false;
        let mut k: usize = 0;
        while k < j
            invariant
                k <= j < ids@.len(),
                id == ids@[j as int],
                seen <==> exists|m: int| 0 <= m < k && ids@[m] == id,
            decreases j - k,
        {
            if ids[k] == id {
                seen = true;
            }
            k = k + 1;
        }
        if seen {
            out.push(Vec::new());
        } else {
            out.push(positions_in(keys, id));
        }
        j = j + 1;
    }
    out
}


/// The positions listed for an id are exactly those holding it, each once,
/// in order.
pub proof fn lemma_positions_of_are_the_matches(keys: Seq<u128>, id: u128)
    ensures
        forall|k: int|
            0 <= k < positions_of(keys, id).len() ==> 0 <= #[trigger] positions_of(keys, id)[k]
                < keys.len() && keys[positions_of(keys, id)[k]] == id,
        forall|k1: int, k2: int|
            0 <= k1 < k2 < positions_of(keys, id).len() ==> #[trigger] positions_of(keys, id)[k1]
                < #[trigger] positions_of(keys, id)[k2],
        forall|p: int|
            0 <= p < keys.len() && #[trigger] keys[p] == id ==> exists|k: int|
                0 <= k < positions_of(keys, id).len() && #[trigger] positions_of(keys, id)[k] == p,
    decreases keys.len(),
{
    if keys.len() > 0 {
        let d = keys.drop_last();
        lemma_positions_of_are_the_matches(d, id);
        let prev = positions_of(d, id);
        let all = positions_of(keys, id);
        assert forall|k: int| 0 <= k < prev.len() implies #[trigger] all[k] == prev[k] && keys[prev[k]] == d[prev[k]] by {}
        assert forall|p: int| 0 <= p < keys.len() && #[trigger] keys[p] == id implies exists|k: int|
            0 <= k < all.len() && #[trigger] all[k] == p by {
            if p < d.len() {
                assert(d[p] == keys[p]);
                let k = choose|k: int| 0 <= k < prev.len() && #[trigger] prev[k] == p;
                assert(all[k] == prev[k]);
            } else {
                assert(all[all.len() - 1] == p);
            }
        }
    }
}

} // verus!
