//! Bookkeeping of the environment-driven world that does not touch sensor
//! values: bounded sample histories and the selection of bodies that
//! environment events act on.

use vstd::prelude::*;
use crate::true_world_model::BodyId;

verus! {

/// What a history holds after `item` is appended: the oldest entry is
/// dropped when the history then exceeds `max_history`.
pub open spec fn bounded_push<T>(history: Seq<T>, item: T, max_history: int) -> Seq<T> {
    let pushed = history.push(item);
    if pushed.len() > max_history {
        pushed.subrange(1, pushed.len() as int)
    } else {
        pushed
    }
}

/// Appends `item` to `history`, dropping the oldest entry if the history
/// then holds more than `max_history` entries.
pub fn push_bounded<T>(history: &mut Vec<T>, item: T, max_history: usize)
    ensures
        final(history)@ == bounded_push(old(history)@, item, max_history as int),
        final(history)@.len() == if old(history)@.len() + 1 > max_history {
            old(history)@.len() as int
        } else {
            old(history)@.len() + 1int
        },
        forall|j: int|
            0 <= j < final(history)@.len() ==> #[trigger] final(history)@[j] == old(history)@.push(
                item,
            )[old(history)@.len() + 1 - final(history)@.len() + j],
{
    history.push(item);
    if history.len() > max_history {
        history.remove(0);
    }
    proof {
        let pushed = old(history)@.push(item);
        if pushed.len() > max_history {
            assert(pushed.remove(0) =~= pushed.subrange(1, pushed.len() as int));
        }
    }
}

/// A history that starts within `max_history` entries stays within it, its
/// newest entry is the item just pushed (when it may hold any), and what it
/// keeps is the newest part of the history with the item appended.
pub proof fn law_history_stays_bounded<T>(history: Seq<T>, item: T, max_history: int)
    requires
        0 <= max_history,
        history.len() <= max_history,
    ensures
        bounded_push(history, item, max_history).len() <= max_history,
        max_history > 0 ==> bounded_push(history, item, max_history).last() == item,
        bounded_push(history, item, max_history).is_suffix_of(history.push(item)),
{
    let pushed = history.push(item);
    let r = bounded_push(history, item, max_history);
    assert(r =~= pushed.subrange(pushed.len() - r.len(), pushed.len() as int));
}

/// Appending drops at most one entry, the oldest, and only when the history
/// with the item appended holds more than `max_history` entries: the result
/// is the newest `min(len + 1, max_history)` entries of the history with the
/// item appended (or all but the oldest, if the history was already over).
pub proof fn law_push_drops_only_the_oldest<T>(history: Seq<T>, item: T, max_history: int)
    ensures
        bounded_push(history, item, max_history).len() == if history.len() + 1 > max_history {
            history.len() as int
        } else {
            history.len() + 1int
        },
        forall|j: int|
            0 <= j < bounded_push(history, item, max_history).len() ==> #[trigger] bounded_push(
                history,
                item,
                max_history,
            )[j] == history.push(item)[history.len() + 1 - bounded_push(
                history,
                item,
                max_history,
            ).len() + j],
        history.len() < max_history ==> bounded_push(history, item, max_history) == history.push(
            item,
        ),
{
    assert(history.len() < max_history ==> bounded_push(history, item, max_history) =~= history.push(
        item,
    ));
}

/// The bodies of `bodies` flagged dynamic, in order.
pub open spec fn dynamic_of(bodies: Seq<(BodyId, bool)>) -> Seq<BodyId> {
    bodies.filter_map(|p: (BodyId, bool)| if p.1 { Some(p.0) } else { None })
}

/// The bodies flagged dynamic (the second component), in order.
pub fn dynamic_bodies(bodies: &Vec<(BodyId, bool)>) -> (out: Vec<BodyId>)
    ensures
        out@ == dynamic_of(bodies@),
        forall|k: int|
            0 <= k < bodies@.len() && (#[trigger] bodies@[k]).1 ==> out@.contains(bodies@[k].0),
        forall|j: int|
            #![trigger out@[j]]
            0 <= j < out@.len() ==> exists|k: int|
                0 <= k < bodies@.len() && #[trigger] bodies@[k] == (out@[j], true),
{
    let mut out: Vec<BodyId> = Vec::new();
    let mut i: usize = 0;
    while i < bodies.len()
        invariant
            i <= bodies@.len(),
            out@ == dynamic_of(bodies@.take(i as int)),
            forall|k: int| 0 <= k < i && (#[trigger] bodies@[k]).1 ==> out@.contains(bodies@[k].0),
            forall|j: int|
                #![trigger out@[j]]
                0 <= j < out@.len() ==> exists|k: int|
                    0 <= k < i && #[trigger] bodies@[k] == (out@[j], true),
        decreases bodies@.len() - i,
    {
        let p = bodies[i];
        proof {
            assert(bodies@.take(i + 1).drop_last() =~= bodies@.take(i as int));
            assert(bodies@.take(i + 1).last() == p);
        }
        let ghost out_before = out@;
        if p.1 {
            out.push(p.0);
            proof {
                assert(out@ =~= dynamic_of(bodies@.take(i as int)) + seq![p.0]);
                assert(out@[out@.len() - 1] == p.0);
                assert forall|k: int| 0 <= k < i + 1 && (#[trigger] bodies@[k]).1 implies out@.contains(
                    bodies@[k].0,
                ) by {
                    if k < i {
                        let j = choose|j: int| 0 <= j < out_before.len() && out_before[j] == bodies@[k].0;
                        assert(out@[j] == out_before[j]);
                    } else {
                        assert(out@[out@.len() - 1] == bodies@[k].0);
                    }
                }
                assert forall|j: int| #![trigger out@[j]] 0 <= j < out@.len() implies exists|k: int|
                    0 <= k < i + 1 && #[trigger] bodies@[k] == (out@[j], true) by {
                    if j < out_before.len() {
                        assert(out@[j] == out_before[j]);
                    } else {
                        assert(bodies@[i as int] == (out@[j], true));
                    }
                }
            }
        }
        i = i + 1;
    }
    proof {
        assert(bodies@.take(bodies@.len() as int) =~= bodies@);
    }
    out
}

/// Which bodies are dynamic is decided body by body, in order: no body
/// selects nothing, and appending a body appends its id exactly when it is
/// flagged dynamic, leaving the selection among the earlier bodies as it was.
pub proof fn law_dynamic_selection_extends(bodies: Seq<(BodyId, bool)>, b: (BodyId, bool))
    ensures
        dynamic_of(Seq::<(BodyId, bool)>::empty()) == Seq::<BodyId>::empty(),
        b.1 ==> dynamic_of(bodies.push(b)) == dynamic_of(bodies).push(b.0),
        !b.1 ==> dynamic_of(bodies.push(b)) == dynamic_of(bodies),
{
    assert(bodies.push(b).drop_last() =~= bodies);
    assert(bodies.push(b).last() == b);
    assert(dynamic_of(Seq::<(BodyId, bool)>::empty()) =~= Seq::<BodyId>::empty());
    if b.1 {
        assert(dynamic_of(bodies) + seq![b.0] =~= dynamic_of(bodies).push(b.0));
    }
}

} // verus!
