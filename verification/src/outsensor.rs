//! The output selector: which sensors may answer for "the" output.
//!
//! A selector is a string of sensor identifiers separated by commas.  It is
//! stored as it is given and taken apart only when an output is asked for.

use vstd::prelude::*;

verus! {

/// The candidates that `selector` names, in order: the pieces between its
/// commas.  Reading it from the left, a comma closes a piece and opens an
/// empty one, and any other character goes to the end of the open piece.
pub open spec fn candidates(selector: Seq<char>) -> Seq<Seq<char>>
    decreases selector.len(),
{
    if selector.len() == 0 {
        seq![Seq::empty()]
    } else if selector.last() == ',' {
        candidates(selector.drop_last()).push(Seq::empty())
    } else {
        let before = candidates(selector.drop_last());
        before.drop_last().push(before.last().push(selector.last()))
    }
}

/// What each of `ids` reads as.
pub open spec fn names(ids: Seq<String>) -> Seq<Seq<char>> {
    Seq::new(ids.len(), |k: int| ids[k]@)
}

/// `pieces` put together again, with a comma between each two.
pub open spec fn joined(pieces: Seq<Seq<char>>) -> Seq<char>
    decreases pieces.len(),
{
    if pieces.len() == 0 {
        Seq::empty()
    } else if pieces.len() == 1 {
        pieces.last()
    } else {
        joined(pieces.drop_last()).push(',') + pieces.last()
    }
}

/// A selector names at least one candidate, if only an empty one; no
/// candidate holds a comma; and the candidates, put together again with
/// commas between them, are the selector.
pub proof fn lemma_candidates(selector: Seq<char>)
    ensures
        candidates(selector).len() >= 1,
        forall|k: int|
            0 <= k < candidates(selector).len() ==> !(#[trigger] candidates(selector)[k]).contains(
                ',',
            ),
        joined(candidates(selector)) == selector,
    decreases selector.len(),
{
    if selector.len() == 0 {
        assert(joined(candidates(selector)) =~= selector);
    } else {
        let front = selector.drop_last();
        let before = candidates(front);
        let pieces = candidates(selector);
        lemma_candidates(front);
        if selector.last() == ',' {
            assert(pieces.drop_last() =~= before);
            assert(joined(pieces) =~= selector);
        } else {
            let grown = before.last().push(selector.last());
            assert(pieces.last() == grown);
            assert forall|k: int| 0 <= k < pieces.len() implies !(#[trigger] pieces[k]).contains(
                ',',
            ) by {
                if k < pieces.len() - 1 {
                    assert(pieces[k] == before[k]);
                } else {
                    assert(!before[before.len() - 1].contains(','));
                    if grown.contains(',') {
                        let i = choose|i: int| 0 <= i < grown.len() && grown[i] == ',';
                        if i < before.last().len() {
                            assert(before.last()[i] == ',');
                        }
                    }
                }
            }
            if before.len() == 1 {
                assert(joined(pieces) =~= selector);
            } else {
                assert(pieces.drop_last() =~= before.drop_last());
                assert(joined(pieces) =~= joined(before).push(selector.last()));
                assert(joined(pieces) =~= selector);
            }
        }
    }
}

/// Takes `selector` apart into the candidates it names.
pub fn split(selector: &str) -> (ids: Vec<String>)
    ensures
        names(ids@) == candidates(selector@),
{
    let n: usize = selector.unicode_len();
    let mut ids: Vec<String> = Vec::new();
    let mut start: usize = 0;
    let mut i: usize = 0;
    proof {
        assert(selector@.take(0) =~= Seq::empty());
        assert(names(ids@).push(selector@.subrange(0, 0)) =~= seq![Seq::empty()]);
    }
    for c in it: selector.chars()
        invariant
            it.seq() == selector@,
            n == selector@.len(),
            i == it.index(),
            0 <= start <= i,
            candidates(selector@.take(i as int)) == names(ids@).push(
                selector@.subrange(start as int, i as int),
            ),
    {
        let ghost before = names(ids@);
        let ghost piece = selector@.subrange(start as int, i as int);
        proof {
            assert(selector@.take(i + 1).drop_last() == selector@.take(i as int));
            assert(before.push(piece).drop_last() == before);
        }
        if c == ',' {
            ids.push(selector.substring_char(start, i).to_owned());
            start = i + 1;
            proof {
                assert(names(ids@) == before.push(piece));
                assert(selector@.subrange(start as int, i + 1) == Seq::<char>::empty());
            }
        } else {
            proof {
                assert(selector@.subrange(start as int, i + 1) == piece.push(c));
            }
        }
        i += 1;
    }
    proof {
        assert(selector@.take(n as int) == selector@);
    }
    let ghost before = names(ids@);
    ids.push(selector.substring_char(start, i).to_owned());
    proof {
        assert(names(ids@) == before.push(selector@.subrange(start as int, i as int)));
    }
    ids
}

/// The selector in use when none has been set.
pub const DEFAULT_OUTSENSOR: &'static str = "28F41A2800008091";

/// The selector to start with: it names the default sensor.
pub fn init() -> (out_sensor: String)
    ensures
        out_sensor@ == DEFAULT_OUTSENSOR@,
{
    let mut out_sensor = String::new();
    self::set(&mut out_sensor, DEFAULT_OUTSENSOR);
    out_sensor
}

/// The selector `out_sensor`, as it was last set.
pub fn get(out_sensor: &String) -> (data: String)
    ensures
        data@ == out_sensor@,
{
    out_sensor.clone()
}

/// Replaces the selector `out_sensor` by `data`, which is kept as it is:
/// nothing asks that the sensors it names exist.
pub fn set(out_sensor: &mut String, data: &str)
    ensures
        final(out_sensor)@ == data@,
{
    *out_sensor = data.to_owned();
}

} // verus!
