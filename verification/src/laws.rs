//! Laws of the relay's lifecycle, stated over the abstract directory model
//! and proved once and for all. The session transitions (`Session::handle_name`,
//! `Session::handle_disconnect`) promise in their contracts exactly the model
//! steps used here: a completed join pushes the entry, a departure excludes
//! the identity, and nothing else touches the directory.
use crate::directory::{
    dir_excluding, dir_has, dir_names, lemma_dir_excluding_absent, lemma_dir_excluding_membership,
    lemma_dir_excluding_push, lemma_dir_has_push, Entry,
};
use crate::session::{recipients_of, SessionState};
use vstd::prelude::*;

verus! {

/// A completed lifecycle transition that touches the directory: a handshake
/// that ended in `Joined`, or the departure of a connection. A rejected name
/// and a disconnect before joining leave no event, as their contracts show
/// the directory untouched.
pub enum LifecycleEvent {
    Joined { id: u64, name: Seq<char> },
    Departed { id: u64 },
}

/// The directory contents after a sequence of completed transitions.
pub open spec fn dir_after(trace: Seq<LifecycleEvent>) -> Seq<Entry>
    decreases trace.len(),
{
    if trace.len() == 0 {
        Seq::empty()
    } else {
        let d = dir_after(trace.drop_last());
        match trace.last() {
            LifecycleEvent::Joined { id, name } => d.push((id, name)),
            LifecycleEvent::Departed { id } => dir_excluding(d, id),
        }
    }
}

/// Whether the connection `x` is in the `Joined` state after the trace: it
/// joined at some point and has not departed since.
pub open spec fn is_joined(trace: Seq<LifecycleEvent>, x: u64) -> bool
    decreases trace.len(),
{
    if trace.len() == 0 {
        false
    } else {
        match trace.last() {
            LifecycleEvent::Joined { id, name } => id == x || is_joined(trace.drop_last(), x),
            LifecycleEvent::Departed { id } => id != x && is_joined(trace.drop_last(), x),
        }
    }
}

/// For every sequence of joins and parts, the directory contains exactly the
/// connections currently in the `Joined` state — never more, never less.
pub proof fn lemma_directory_tracks_joined(trace: Seq<LifecycleEvent>)
    ensures
        forall|x: u64| dir_has(dir_after(trace), x) <==> is_joined(trace, x),
    decreases trace.len(),
{
    if trace.len() == 0 {
        assert(forall|x: u64| !dir_has(dir_after(trace), x));
        assert(forall|x: u64| !is_joined(trace, x));
    } else {
        let prefix = trace.drop_last();
        lemma_directory_tracks_joined(prefix);
        match trace.last() {
            LifecycleEvent::Joined { id, name } => {
                lemma_dir_has_push(dir_after(prefix), (id, name));
                assert forall|x: u64| dir_has(dir_after(trace), x) <==> is_joined(trace, x) by {
                    assert(dir_after(trace) == dir_after(prefix).push((id, name)));
                    assert(dir_has(dir_after(prefix).push((id, name)), x) <==> (dir_has(
                        dir_after(prefix),
                        x,
                    ) || id == x));
                    assert(is_joined(trace, x) <==> (id == x || is_joined(prefix, x)));
                }
            },
            LifecycleEvent::Departed { id } => {
                lemma_dir_excluding_membership(dir_after(prefix), id);
                assert forall|x: u64| dir_has(dir_after(trace), x) <==> is_joined(trace, x) by {
                    assert(dir_after(trace) == dir_excluding(dir_after(prefix), id));
                    assert(dir_has(dir_excluding(dir_after(prefix), id), x) <==> (x != id
                        && dir_has(dir_after(prefix), x)));
                    assert(is_joined(trace, x) <==> (id != x && is_joined(prefix, x)));
                }
            },
        }
    }
}

/// A broadcast's recipient set for a sender is exactly the directory at call
/// time minus that sender: the sender never receives its own chat line or its
/// own join announcement, and nobody else is dropped.
pub proof fn lemma_recipients_exact(d: Seq<Entry>, sender: u64)
    ensures
        forall|e: Entry| #[trigger] recipients_of(d, sender).contains(e) <==> (d.contains(e) && e.0
            != sender),
        !dir_has(recipients_of(d, sender), sender),
        forall|x: u64| x != sender ==> (#[trigger] dir_has(recipients_of(d, sender), x) <==>
        dir_has(d, x)),
{
    lemma_dir_excluding_membership(d, sender);
}

/// What a completed handshake sees: the roster is computed from the directory
/// before the insertion, which cannot hold the joiner's own entry, and the
/// join announcement — addressed to the new directory minus the joiner —
/// reaches exactly the users who were present before.
pub proof fn lemma_join_snapshot(d: Seq<Entry>, id: u64, name: Seq<char>)
    requires
        !dir_has(d, id),
    ensures
        recipients_of(d.push((id, name)), id) == d,
        forall|i: int| 0 <= i < d.len() ==> (#[trigger] d[i]).0 != id,
        dir_names(d).len() == d.len(),
{
    lemma_dir_excluding_push(d, (id, name), id);
    lemma_dir_excluding_absent(d, id);
}

/// One departure step: what `Session::handle_disconnect` promises. A joined
/// session closes, leaves the directory without its entry, and owes a part
/// broadcast exactly when its entry was present; any other session merely
/// closes.
pub open spec fn depart_step(state: SessionState, d: Seq<Entry>, id: u64) -> (
    SessionState,
    Seq<Entry>,
    bool,
) {
    if state is Joined {
        (SessionState::Closed, dir_excluding(d, id), dir_has(d, id))
    } else {
        (SessionState::Closed, d, false)
    }
}

/// Departure runs at most once per connection: even if read failure is
/// detected again, a second departure step broadcasts nothing and removes
/// nothing.
pub proof fn lemma_departure_at_most_once(state: SessionState, d: Seq<Entry>, id: u64)
    ensures
        ({
            let r1 = depart_step(state, d, id);
            let r2 = depart_step(r1.0, r1.1, id);
            r2.1 == r1.1 && !r2.2
        }),
{
}

} // verus!
