//! Properties that relate several operations of the engine: isolation of
//! owners, propagation of tombstones, snapshots for unseen notes, and the
//! independence of the items of a push.
use vstd::prelude::*;
use crate::merge::{
    folded, lemma_fold_converges, lemma_folded, lemma_merge_commutes, lemma_merge_idempotent,
    lemma_sorted_unique, strictly_sorted,
};
use crate::store::{delta_applied, has_note, owned, trashed, with_note, wf_view, DbView, NoteView};
use crate::sync::{
    change_of, changes, history_pruned, item_target, known, pushed, snapshot_of, snapshots,
    tombstone_of, tombstones, UpdateItem,
};

verus! {

/// An element of a `filter_map` comes from an element of the sequence.
proof fn lemma_filter_map_source<A, B>(s: Seq<A>, f: spec_fn(A) -> Option<B>, y: B)
    requires
        s.filter_map(f).contains(y),
    ensures
        exists|i: int| 0 <= i < s.len() && f(#[trigger] s[i]) == Some(y),
    decreases s.len(),
{
    if s.len() > 0 {
        let t = s.drop_last();
        if f(s.last()) == Some(y) {
            assert(f(s[s.len() - 1]) == Some(y));
        } else {
            assert(t.filter_map(f).contains(y)) by {
                let k = choose|k: int| 0 <= k < s.filter_map(f).len() && s.filter_map(f)[k] == y;
                assert(t.filter_map(f)[k] == y);
            }
            lemma_filter_map_source(t, f, y);
            let i = choose|i: int| 0 <= i < t.len() && f(#[trigger] t[i]) == Some(y);
            assert(s[i] == t[i]);
        }
    }
}

/// Every element that `f` keeps is in the `filter_map`.
proof fn lemma_filter_map_keeps<A, B>(s: Seq<A>, f: spec_fn(A) -> Option<B>, i: int)
    requires
        0 <= i < s.len(),
        f(s[i]).is_some(),
    ensures
        s.filter_map(f).contains(f(s[i]).unwrap()),
    decreases s.len(),
{
    let t = s.drop_last();
    let y = f(s[i]).unwrap();
    if i == s.len() - 1 {
        assert(s.filter_map(f) == t.filter_map(f) + seq![y]);
        assert(s.filter_map(f)[t.filter_map(f).len() as int] == y);
    } else {
        assert(t[i] == s[i]);
        lemma_filter_map_keeps(t, f, i);
        let k = choose|k: int| 0 <= k < t.filter_map(f).len() && t.filter_map(f)[k] == y;
        assert(s.filter_map(f)[k] == y);
    }
}

/// Isolation of pulls: every tombstone, snapshot and delta list that a pull
/// for `owner` hands out belongs to a note of `owner`.
pub proof fn law_pull_isolation(v: DbView, owner: u128, sv: Seq<(String, String)>, since: i64)
    ensures
        forall|id: u128| #[trigger] tombstones(v, owner, since).contains(id) ==> has_note(v, id, owner),
        forall|n: NoteView| #[trigger] snapshots(v, owner, sv, since).contains(n) ==> n.user_id == owner && v.notes.contains(n),
        forall|c: (u128, Seq<Seq<u8>>)| #[trigger] changes(v, owner, sv, since).contains(c) ==> has_note(v, c.0, owner),
{
    assert forall|id: u128| #[trigger] tombstones(v, owner, since).contains(id) implies has_note(v, id, owner) by {
        lemma_filter_map_source(v.notes, |n: NoteView| tombstone_of(n, owner, since), id);
        let i = choose|i: int| 0 <= i < v.notes.len() && tombstone_of(#[trigger] v.notes[i], owner, since) == Some(id);
        assert(owned(v.notes[i], id, owner));
    }
    assert forall|n: NoteView| #[trigger] snapshots(v, owner, sv, since).contains(n) implies n.user_id == owner && v.notes.contains(n) by {
        lemma_filter_map_source(v.notes, |m: NoteView| snapshot_of(v, m, owner, sv, since), n);
        let i = choose|i: int| 0 <= i < v.notes.len() && snapshot_of(v, #[trigger] v.notes[i], owner, sv, since) == Some(n);
        assert(v.notes[i] == n);
    }
    assert forall|c: (u128, Seq<Seq<u8>>)| #[trigger] changes(v, owner, sv, since).contains(c) implies has_note(v, c.0, owner) by {
        lemma_filter_map_source(v.notes, |m: NoteView| change_of(v, m, owner, sv, since), c);
        let i = choose|i: int| 0 <= i < v.notes.len() && change_of(v, #[trigger] v.notes[i], owner, sv, since) == Some(c);
        assert(owned(v.notes[i], c.0, owner));
    }
}

/// Isolation of pushes: a push by `owner` keeps every note where it stands,
/// with its identifier and owner, and leaves every note of another owner
/// exactly as it was.
pub proof fn law_push_isolation(v: DbView, owner: u128, items: Seq<UpdateItem>, now: i64)
    ensures
        pushed(v, owner, items, now).0.notes.len() == v.notes.len(),
        forall|i: int| 0 <= i < v.notes.len() ==> (#[trigger] pushed(v, owner, items, now).0.notes[i]).id == v.notes[i].id
            && pushed(v, owner, items, now).0.notes[i].user_id == v.notes[i].user_id,
        forall|i: int| 0 <= i < v.notes.len() && v.notes[i].user_id != owner ==> #[trigger] pushed(v, owner, items, now).0.notes[i] == v.notes[i],
    decreases items.len(),
{
    if items.len() > 0 {
        law_push_isolation(v, owner, items.drop_last(), now);
    }
}

/// A push by `owner` changes nobody's ownership of any note.
proof fn lemma_push_keeps_ownership(v: DbView, owner: u128, items: Seq<UpdateItem>, now: i64, id: u128, who: u128)
    ensures
        has_note(pushed(v, owner, items, now).0, id, who) == has_note(v, id, who),
{
    law_push_isolation(v, owner, items, now);
    let w = pushed(v, owner, items, now).0;
    if has_note(v, id, who) {
        let i = choose|i: int| 0 <= i < v.notes.len() && owned(#[trigger] v.notes[i], id, who);
        assert(owned(w.notes[i], id, who));
    }
    if has_note(w, id, who) {
        let i = choose|i: int| 0 <= i < w.notes.len() && owned(#[trigger] w.notes[i], id, who);
        assert(owned(v.notes[i], id, who));
    }
}

/// The identifiers of the items of a push that stand for a delta of a note
/// of `owner`, in batch order.
pub open spec fn accepted_ids(v: DbView, owner: u128, items: Seq<UpdateItem>) -> Seq<Seq<char>> {
    items.filter_map(
        |it: UpdateItem|
            if item_target(v, owner, it.note_id@, it.update@).is_some() {
                Some(it.note_id@)
            } else {
                None
            },
    )
}

/// The identifiers of the other items of a push, in batch order.
pub open spec fn refused_ids(v: DbView, owner: u128, items: Seq<UpdateItem>) -> Seq<Seq<char>> {
    items.filter_map(
        |it: UpdateItem|
            if item_target(v, owner, it.note_id@, it.update@).is_none() {
                Some(it.note_id@)
            } else {
                None
            },
    )
}

/// Bulkhead: whether an item of a push is folded in or refused depends on
/// that item and the store before the push alone, never on the other items
/// of the batch.
pub proof fn law_push_bulkhead(v: DbView, owner: u128, items: Seq<UpdateItem>, now: i64)
    ensures
        pushed(v, owner, items, now).1 == accepted_ids(v, owner, items),
        pushed(v, owner, items, now).2 == refused_ids(v, owner, items),
    decreases items.len(),
{
    if items.len() > 0 {
        let init = items.drop_last();
        law_push_bulkhead(v, owner, init, now);
        let it = items.last();
        let w = pushed(v, owner, init, now).0;
        match parsed_id(it) {
            Some(id) => {
                lemma_push_keeps_ownership(v, owner, init, now, id, owner);
            },
            None => {},
        }
        assert(item_target(w, owner, it.note_id@, it.update@) == item_target(v, owner, it.note_id@, it.update@));
        assert(pushed(v, owner, items, now).1 =~= accepted_ids(v, owner, items));
        assert(pushed(v, owner, items, now).2 =~= refused_ids(v, owner, items));
    }
}

spec fn parsed_id(it: UpdateItem) -> Option<u128> {
    crate::codec::parsed_uuid(it.note_id@)
}

/// Tombstone propagation: once the note `id` of `owner` is moved to the trash
/// at time `t` (the store `w` is `v` after that), a pull for `owner` with a
/// baseline before `t` reports it as a tombstone, and sends it neither whole
/// nor as deltas.
pub proof fn law_tombstone_propagates(
    v: DbView,
    w: DbView,
    id: u128,
    owner: u128,
    t: i64,
    sv: Seq<(String, String)>,
    since: i64,
)
    requires
        wf_view(v),
        has_note(v, id, owner),
        w == with_note(v, id, owner, |n: NoteView| trashed(n, t)),
        since < t,
    ensures
        tombstones(w, owner, since).contains(id),
        forall|n: NoteView| #[trigger] snapshots(w, owner, sv, since).contains(n) ==> n.id != id,
        forall|c: (u128, Seq<Seq<u8>>)| #[trigger] changes(w, owner, sv, since).contains(c) ==> c.0 != id,
{
    let i = choose|i: int| 0 <= i < v.notes.len() && owned(#[trigger] v.notes[i], id, owner);
    assert(w.notes[i] == trashed(v.notes[i], t));
    assert(tombstone_of(w.notes[i], owner, since) == Some(id));
    lemma_filter_map_keeps(w.notes, |n: NoteView| tombstone_of(n, owner, since), i);
    assert forall|n: NoteView| #[trigger] snapshots(w, owner, sv, since).contains(n) implies n.id != id by {
        lemma_filter_map_source(w.notes, |m: NoteView| snapshot_of(w, m, owner, sv, since), n);
        let j = choose|j: int| 0 <= j < w.notes.len() && snapshot_of(w, #[trigger] w.notes[j], owner, sv, since) == Some(n);
        if j != i {
            assert(v.notes[j].id != v.notes[i].id);
        }
    }
    assert forall|c: (u128, Seq<Seq<u8>>)| #[trigger] changes(w, owner, sv, since).contains(c) implies c.0 != id by {
        lemma_filter_map_source(w.notes, |m: NoteView| change_of(w, m, owner, sv, since), c);
        let j = choose|j: int| 0 <= j < w.notes.len() && change_of(w, #[trigger] w.notes[j], owner, sv, since) == Some(c);
        if j != i {
            assert(v.notes[j].id != v.notes[i].id);
        }
    }
}

/// Snapshot fallback: a live note of `owner` changed after `since` goes out
/// whole, and not as deltas, when the client does not name it or when the log
/// may have lost entries after `since`, whatever deltas the log holds.
pub proof fn law_snapshot_fallback(v: DbView, owner: u128, sv: Seq<(String, String)>, since: i64, i: int)
    requires
        wf_view(v),
        0 <= i < v.notes.len(),
        v.notes[i].user_id == owner,
        v.notes[i].updated_at > since,
        v.notes[i].deleted_at.is_none(),
        !known(sv, v.notes[i].id) || history_pruned(v, since),
    ensures
        snapshots(v, owner, sv, since).contains(v.notes[i]),
        forall|c: (u128, Seq<Seq<u8>>)| #[trigger] changes(v, owner, sv, since).contains(c) ==> c.0 != v.notes[i].id,
{
    lemma_filter_map_keeps(v.notes, |m: NoteView| snapshot_of(v, m, owner, sv, since), i);
    assert forall|c: (u128, Seq<Seq<u8>>)| #[trigger] changes(v, owner, sv, since).contains(c) implies c.0 != v.notes[i].id by {
        lemma_filter_map_source(v.notes, |m: NoteView| change_of(v, m, owner, sv, since), c);
        let j = choose|j: int| 0 <= j < v.notes.len() && change_of(v, #[trigger] v.notes[j], owner, sv, since) == Some(c);
        if j != i {
            assert(v.notes[j].id != v.notes[i].id);
        }
    }
}

/// Idempotence of a retried push: a delta applied to a note a second time
/// leaves its content as the first application left it.
pub proof fn law_retried_delta(n: NoteView, d: Seq<u8>, t1: i64, t2: i64)
    requires
        strictly_sorted(n.content),
    ensures
        delta_applied(delta_applied(n, d, t1), d, t2).content == delta_applied(n, d, t1).content,
{
    lemma_merge_idempotent(n.content, d);
}

/// Convergence of concurrent pushes: two deltas applied to a note in either
/// order give the same content.
pub proof fn law_concurrent_deltas(n: NoteView, d1: Seq<u8>, d2: Seq<u8>, t1: i64, t2: i64)
    requires
        strictly_sorted(n.content),
    ensures
        delta_applied(delta_applied(n, d1, t1), d2, t2).content == delta_applied(delta_applied(n, d2, t1), d1, t2).content,
{
    lemma_merge_commutes(n.content, d1, d2);
}

/// The deltas that a push of `items` by `owner` folds into note `id`, in
/// batch order.
pub open spec fn deltas_for(v: DbView, owner: u128, items: Seq<UpdateItem>, id: u128) -> Seq<Seq<u8>> {
    items.filter_map(
        |it: UpdateItem|
            match item_target(v, owner, it.note_id@, it.update@) {
                Some(p) => if p.0 == id {
                    Some(p.1)
                } else {
                    None
                },
                None => None,
            },
    )
}

/// A push folds into each note, in batch order, exactly the deltas of the
/// items that stand for it.
pub proof fn law_push_folds(v: DbView, owner: u128, items: Seq<UpdateItem>, now: i64, i: int)
    requires
        ids_unique(v.notes),
        0 <= i < v.notes.len(),
    ensures
        pushed(v, owner, items, now).0.notes[i].content == folded(v.notes[i].content, deltas_for(v, owner, items, v.notes[i].id)),
    decreases items.len(),
{
    law_push_isolation(v, owner, items, now);
    if items.len() > 0 {
        let init = items.drop_last();
        let it = items.last();
        law_push_folds(v, owner, init, now, i);
        law_push_isolation(v, owner, init, now);
        let w = pushed(v, owner, init, now).0;
        match parsed_id(it) {
            Some(id) => {
                lemma_push_keeps_ownership(v, owner, init, now, id, owner);
            },
            None => {},
        }
        assert(item_target(w, owner, it.note_id@, it.update@) == item_target(v, owner, it.note_id@, it.update@));
        let dfi = deltas_for(v, owner, init, v.notes[i].id);
        match item_target(v, owner, it.note_id@, it.update@) {
            Some(p) => {
                if p.0 == v.notes[i].id {
                    let k = choose|k: int| 0 <= k < v.notes.len() && owned(#[trigger] v.notes[k], p.0, owner);
                    if k != i {
                        assert(v.notes[k].id != v.notes[i].id);
                    }
                    assert(owned(w.notes[i], p.0, owner));
                    assert(deltas_for(v, owner, items, v.notes[i].id) == dfi + seq![p.1]);
                    assert((dfi + seq![p.1]).drop_last() =~= dfi);
                } else {
                    assert(!owned(w.notes[i], p.0, owner));
                    assert(deltas_for(v, owner, items, v.notes[i].id) == dfi);
                }
            },
            None => {
                assert(deltas_for(v, owner, items, v.notes[i].id) == dfi);
            },
        }
    }
}

/// Convergence of pushes: two batches that carry the same deltas for a note,
/// in any order and with any repeats, leave it the same content.
pub proof fn law_push_converges(
    v: DbView,
    owner: u128,
    items1: Seq<UpdateItem>,
    items2: Seq<UpdateItem>,
    now1: i64,
    now2: i64,
    i: int,
)
    requires
        wf_view(v),
        0 <= i < v.notes.len(),
        deltas_for(v, owner, items1, v.notes[i].id).to_set() == deltas_for(v, owner, items2, v.notes[i].id).to_set(),
    ensures
        pushed(v, owner, items1, now1).0.notes[i].content == pushed(v, owner, items2, now2).0.notes[i].content,
{
    law_push_folds(v, owner, items1, now1, i);
    law_push_folds(v, owner, items2, now2, i);
    assert(strictly_sorted(v.notes[i].content));
    lemma_fold_converges(
        v.notes[i].content,
        deltas_for(v, owner, items1, v.notes[i].id),
        deltas_for(v, owner, items2, v.notes[i].id),
    );
}

/// No two notes share an identifier.
pub open spec fn ids_unique(notes: Seq<NoteView>) -> bool {
    forall|a: int, b: int| 0 <= a < b < notes.len() ==> (#[trigger] notes[a]).id != (#[trigger] notes[b]).id
}

/// Which deltas a batch carries for a note does not change under a push by
/// the same owner.
proof fn lemma_deltas_for_stable(v: DbView, owner: u128, pre: Seq<UpdateItem>, now: i64, items: Seq<UpdateItem>, id: u128)
    ensures
        deltas_for(pushed(v, owner, pre, now).0, owner, items, id) == deltas_for(v, owner, items, id),
    decreases items.len(),
{
    if items.len() > 0 {
        lemma_deltas_for_stable(v, owner, pre, now, items.drop_last(), id);
        let it = items.last();
        match parsed_id(it) {
            Some(x) => {
                lemma_push_keeps_ownership(v, owner, pre, now, x, owner);
            },
            None => {},
        }
        let w = pushed(v, owner, pre, now).0;
        assert(item_target(w, owner, it.note_id@, it.update@) == item_target(v, owner, it.note_id@, it.update@));
    }
}

/// Idempotence of a retried push: pushing the same batch a second time leaves
/// every note's content as the first push left it.
pub proof fn law_push_retry(v: DbView, owner: u128, items: Seq<UpdateItem>, now1: i64, now2: i64, i: int)
    requires
        wf_view(v),
        0 <= i < v.notes.len(),
    ensures
        pushed(pushed(v, owner, items, now1).0, owner, items, now2).0.notes[i].content
            == pushed(v, owner, items, now1).0.notes[i].content,
{
    let w = pushed(v, owner, items, now1).0;
    law_push_isolation(v, owner, items, now1);
    assert(ids_unique(w.notes)) by {
        assert forall|a: int, b: int| 0 <= a < b < w.notes.len() implies (#[trigger] w.notes[a]).id != (#[trigger] w.notes[b]).id by {
            assert(v.notes[a].id != v.notes[b].id);
        }
    }
    let c = v.notes[i].content;
    let ds = deltas_for(v, owner, items, v.notes[i].id);
    law_push_folds(v, owner, items, now1, i);
    law_push_folds(w, owner, items, now2, i);
    lemma_deltas_for_stable(v, owner, items, now1, items, v.notes[i].id);
    assert(strictly_sorted(c));
    lemma_folded(c, ds);
    lemma_folded(folded(c, ds), ds);
    assert(folded(c, ds).to_set() + ds.to_set() =~= folded(c, ds).to_set());
    lemma_sorted_unique(folded(folded(c, ds), ds), folded(c, ds));
}

} // verus!
