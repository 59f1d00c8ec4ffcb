//! The sessions in the order in which they were last active: a doubly linked
//! list whose links are stored in the sessions themselves.

use vstd::prelude::*;
use slab::Slab;
use crate::session::ProxySession;
use crate::session_slab::{slab_entries, slab_index, slab_index_mut};

verus! {

pub open spec fn first_of(order: Seq<usize>) -> Option<usize> {
    if order.len() == 0 {
        None
    } else {
        Some(order.first())
    }
}

pub open spec fn last_of(order: Seq<usize>) -> Option<usize> {
    if order.len() == 0 {
        None
    } else {
        Some(order.last())
    }
}

/// The key before position `i`.
pub open spec fn prev_of(order: Seq<usize>, i: int) -> Option<usize> {
    if i == 0 {
        None
    } else {
        Some(order[i - 1])
    }
}

/// The key behind position `i`.
pub open spec fn next_of(order: Seq<usize>, i: int) -> Option<usize> {
    if i + 1 == order.len() {
        None
    } else {
        Some(order[i + 1])
    }
}

/// The session at position `i` is stored and its links name its neighbours.
pub open spec fn links_at(
    entries: Map<usize, ProxySession>,
    order: Seq<usize>,
    i: int,
) -> bool {
    &&& entries.contains_key(order[i])
    &&& entries[order[i]].prev == prev_of(order, i)
    &&& entries[order[i]].next == next_of(order, i)
}

/// The links of the sessions, followed from `head` to `tail`, visit the keys of
/// `order` one after the other, each of them once.
pub open spec fn linked(
    entries: Map<usize, ProxySession>,
    head: Option<usize>,
    tail: Option<usize>,
    order: Seq<usize>,
) -> bool {
    &&& order.no_duplicates()
    &&& head == first_of(order)
    &&& tail == last_of(order)
    &&& forall|i: int| 0 <= i < order.len() ==> #[trigger] links_at(entries, order, i)
}

/// The order with one key taken out.
pub open spec fn without(order: Seq<usize>, key: usize) -> Seq<usize> {
    order.remove(order.index_of(key))
}

/// The order with one key moved behind all others.
pub open spec fn moved_to_tail(order: Seq<usize>, key: usize) -> Seq<usize> {
    without(order, key).push(key)
}

/// Both maps hold the same sessions, links aside.
pub open spec fn same_sessions(
    before: Map<usize, ProxySession>,
    after: Map<usize, ProxySession>,
) -> bool {
    &&& after.dom() == before.dom()
    &&& forall|key: usize| #[trigger] after.contains_key(key) ==> after[key]@ == before[key]@
}

/// The neighbours that the links of a session name are stored.
pub open spec fn neighbours_stored(entries: Map<usize, ProxySession>, key: usize) -> bool {
    &&& entries.contains_key(key)
    &&& entries[key].prev matches Some(prev) ==> entries.contains_key(prev)
    &&& entries[key].next matches Some(next) ==> entries.contains_key(next)
}

/// The session is the tail already, or it, its neighbours and the tail are stored.
pub open spec fn movable(
    entries: Map<usize, ProxySession>,
    tail: Option<usize>,
    key: usize,
) -> bool {
    ||| tail == Some(key)
    ||| {
        &&& neighbours_stored(entries, key)
        &&& tail matches Some(t) ==> entries.contains_key(t)
    }
}

/// The sessions once the neighbours of one are linked to each other. That one
/// keeps its own links.
pub open spec fn unlinked(
    entries: Map<usize, ProxySession>,
    key: usize,
) -> Map<usize, ProxySession> {
    let prev = entries[key].prev;
    let next = entries[key].next;
    let cut = match prev {
        Some(p) => entries.insert(p, ProxySession { next, ..entries[p] }),
        None => entries,
    };
    match next {
        Some(n) => cut.insert(n, ProxySession { prev, ..cut[n] }),
        None => cut,
    }
}

/// The head of the list once a session is taken out.
pub open spec fn head_without(
    entries: Map<usize, ProxySession>,
    head: Option<usize>,
    key: usize,
) -> Option<usize> {
    if entries[key].prev is None && head == Some(key) {
        entries[key].next
    } else {
        head
    }
}

/// The tail of the list once a session is taken out.
pub open spec fn tail_without(
    entries: Map<usize, ProxySession>,
    tail: Option<usize>,
    key: usize,
) -> Option<usize> {
    if entries[key].next is None && tail == Some(key) {
        entries[key].prev
    } else {
        tail
    }
}

/// The sessions once one is linked behind the tail of the list.
pub open spec fn appended(
    entries: Map<usize, ProxySession>,
    tail: Option<usize>,
    key: usize,
) -> Map<usize, ProxySession> {
    let last = entries.insert(key, ProxySession { prev: tail, next: None, ..entries[key] });
    match tail {
        Some(t) => last.insert(t, ProxySession { next: Some(key), ..last[t] }),
        None => last,
    }
}

/// The sessions once one is moved behind all others in the list. Nothing changes
/// if it is the tail.
pub open spec fn entries_moved(
    entries: Map<usize, ProxySession>,
    tail: Option<usize>,
    key: usize,
) -> Map<usize, ProxySession> {
    if tail == Some(key) {
        entries
    } else {
        appended(unlinked(entries, key), tail, key)
    }
}

/// The head of the list once a session is moved behind all others.
pub open spec fn head_moved(
    entries: Map<usize, ProxySession>,
    head: Option<usize>,
    tail: Option<usize>,
    key: usize,
) -> Option<usize> {
    if tail == Some(key) {
        head
    } else if tail is None {
        Some(key)
    } else {
        head_without(entries, head, key)
    }
}

pub proof fn lemma_without(order: Seq<usize>, key: usize)
    requires
        order.no_duplicates(),
        order.contains(key),
    ensures
        0 <= order.index_of(key) < order.len(),
        order[order.index_of(key)] == key,
        without(order, key).len() == order.len() - 1,
        without(order, key).no_duplicates(),
        !without(order, key).contains(key),
        forall|k: usize|
            #[trigger] without(order, key).contains(k) <==> (order.contains(k) && k != key),
        forall|j: int|
            0 <= j < order.len() - 1 ==> #[trigger] without(order, key)[j] == (if j
                < order.index_of(key) {
                order[j]
            } else {
                order[j + 1]
            }),
{
    let i = order.index_of(key);
    assert(order[i] == key);
    let rest = order.remove(i);
    assert forall|k: usize| #[trigger] rest.contains(k) <==> (order.contains(k) && k != key) by {
        if rest.contains(k) {
            let j = rest.index_of(k);
            assert(rest[j] == k);
            assert(rest[j] == if j < i { order[j] } else { order[j + 1] });
        }
        if order.contains(k) && k != key {
            let j = order.index_of(k);
            assert(order[j] == k);
            if j < i {
                assert(rest[j] == k);
            } else {
                assert(rest[j - 1] == k);
            }
        }
    }
}

/// Taking a key out of the list: its neighbours are linked to each other.
proof fn lemma_unlink(
    before: Map<usize, ProxySession>,
    after: Map<usize, ProxySession>,
    head: Option<usize>,
    tail: Option<usize>,
    order: Seq<usize>,
    key: usize,
)
    requires
        linked(before, head, tail, order),
        order.contains(key),
        after.dom() == before.dom(),
        forall|k: usize| #[trigger]
            after.contains_key(k) && k != key ==> {
                &&& after[k].next == (if before[key].prev == Some(k) {
                    before[key].next
                } else {
                    before[k].next
                })
                &&& after[k].prev == (if before[key].next == Some(k) {
                    before[key].prev
                } else {
                    before[k].prev
                })
            },
    ensures
        linked(
            after,
            if head == Some(key) { before[key].next } else { head },
            if tail == Some(key) { before[key].prev } else { tail },
            without(order, key),
        ),
{
    lemma_without(order, key);
    let i = order.index_of(key);
    let rest = without(order, key);
    assert(links_at(before, order, i));
    assert forall|j: int| 0 <= j < rest.len() implies #[trigger] links_at(after, rest, j) by {
        let m = if j < i { j } else { j + 1 };
        assert(rest[j] == order[m]);
        assert(links_at(before, order, m));
        assert(after.contains_key(order[m]));
        assert(order[m] != key);
        if m + 1 < order.len() {
            assert(order[m + 1] != order[m]);
        }
        if j + 1 < rest.len() {
            assert(rest[j + 1] == order[if j + 1 < i { j + 1 } else { j + 2 }]);
        }
        if j > 0 {
            assert(rest[j - 1] == order[if j - 1 < i { j - 1 } else { j }]);
        }
        if before[key].prev == Some(order[m]) {
            assert(order[i - 1] == order[m]);
            assert(m == i - 1);
        }
        if before[key].next == Some(order[m]) {
            assert(order[i + 1] == order[m]);
            assert(m == i + 1);
        }
    }
    if rest.len() > 0 {
        assert(rest[0] == if 0 < i { order[0] } else { order[1] });
        let last = rest.len() - 1;
        assert(rest[last] == if last < i { order[last] } else { order[last + 1] });
    }
    if head == Some(key) {
        assert(i == 0);
    }
    if tail == Some(key) {
        assert(i == order.len() - 1);
    }
}

/// Putting a key behind the last one of the list.
pub proof fn lemma_append(
    before: Map<usize, ProxySession>,
    after: Map<usize, ProxySession>,
    head: Option<usize>,
    tail: Option<usize>,
    order: Seq<usize>,
    key: usize,
)
    requires
        linked(before, head, tail, order),
        !order.contains(key),
        after.contains_key(key),
        after[key].prev == tail,
        after[key].next is None,
        forall|k: usize| #[trigger]
            before.contains_key(k) && k != key ==> {
                &&& after.contains_key(k)
                &&& after[k].prev == before[k].prev
                &&& after[k].next == (if tail == Some(k) {
                    Some(key)
                } else {
                    before[k].next
                })
            },
    ensures
        linked(after, if head is None { Some(key) } else { head }, Some(key), order.push(key)),
{
    let longer = order.push(key);
    assert forall|j: int| 0 <= j < longer.len() implies #[trigger] links_at(after, longer, j) by {
        if j < order.len() {
            assert(links_at(before, order, j));
            assert(order[j] != key);
            if tail == Some(order[j]) {
                assert(j == order.len() - 1);
            }
        }
    }
}

/// Moves a session behind all others in the list.
pub fn move_to_tail(
    sessions: &mut Slab<ProxySession>,
    list_head: &mut Option<usize>,
    list_tail: &mut Option<usize>,
    key: usize,
)
    requires
        movable(slab_entries(*old(sessions)), *old(list_tail), key),
    ensures
        slab_entries(*final(sessions)) == entries_moved(
            slab_entries(*old(sessions)),
            *old(list_tail),
            key,
        ),
        *final(list_head) == head_moved(
            slab_entries(*old(sessions)),
            *old(list_head),
            *old(list_tail),
            key,
        ),
        *final(list_tail) == Some(key),
{
    if Some(key) == *list_tail {
        return;
    }
    let prev = slab_index(sessions, key).prev;
    let next = slab_index(sessions, key).next;
    if let Some(prev_) = prev {
        slab_index_mut(sessions, prev_).next = next;
    } else if Some(key) == *list_head {
        *list_head = next;
    }
    if let Some(next_) = next {
        slab_index_mut(sessions, next_).prev = prev;
    }
    assert(slab_entries(*sessions) == unlinked(slab_entries(*old(sessions)), key));

    slab_index_mut(sessions, key).prev = *list_tail;
    slab_index_mut(sessions, key).next = None;

    if let Some(old_tail) = *list_tail {
        slab_index_mut(sessions, old_tail).next = Some(key);
    } else {
        *list_head = Some(key);
    }
    *list_tail = Some(key);
}

/// Takes a session out of the list. The session itself stays stored, with the
/// links that it had.
pub fn remove_from_list(
    sessions: &mut Slab<ProxySession>,
    list_head: &mut Option<usize>,
    list_tail: &mut Option<usize>,
    key: usize,
)
    requires
        neighbours_stored(slab_entries(*old(sessions)), key),
    ensures
        slab_entries(*final(sessions)) == unlinked(slab_entries(*old(sessions)), key),
        *final(list_head) == head_without(slab_entries(*old(sessions)), *old(list_head), key),
        *final(list_tail) == tail_without(slab_entries(*old(sessions)), *old(list_tail), key),
{
    let prev = slab_index(sessions, key).prev;
    let next = slab_index(sessions, key).next;

    if let Some(prev_) = prev {
        slab_index_mut(sessions, prev_).next = next;
    } else if Some(key) == *list_head {
        *list_head = next;
    }
    if let Some(next_) = next {
        slab_index_mut(sessions, next_).prev = prev;
    } else if Some(key) == *list_tail {
        *list_tail = prev;
    }
}

/// What the links of a session in the list name.
pub proof fn lemma_neighbours(
    entries: Map<usize, ProxySession>,
    head: Option<usize>,
    tail: Option<usize>,
    order: Seq<usize>,
    key: usize,
)
    requires
        linked(entries, head, tail, order),
        order.contains(key),
    ensures
        neighbours_stored(entries, key),
        tail matches Some(t) && entries.contains_key(t),
        entries[key].prev != Some(key),
        entries[key].next != Some(key),
        entries[key].prev is None <==> head == Some(key),
        entries[key].next is None <==> tail == Some(key),
        entries[key].prev matches Some(p) ==> entries[p].next == Some(key),
        entries[key].next matches Some(n) ==> entries[n].prev == Some(key),
        entries[key].prev is Some ==> entries[key].prev != entries[key].next,
{
    lemma_without(order, key);
    let i = order.index_of(key);
    assert(links_at(entries, order, i));
    assert(links_at(entries, order, order.len() - 1));
    if i > 0 {
        assert(links_at(entries, order, i - 1));
        assert(order[i - 1] != order[i]);
    }
    if i + 1 < order.len() {
        assert(links_at(entries, order, i + 1));
        assert(order[i + 1] != order[i]);
    }
    if head == Some(key) {
        assert(order[0] == order[i]);
    }
    if tail == Some(key) {
        assert(order[order.len() - 1] == order[i]);
    }
}

/// Taking a session out changes no session but its neighbours, and of those only
/// the links to it.
pub proof fn law_removal_changes_only_neighbours(entries: Map<usize, ProxySession>, key: usize)
    requires
        neighbours_stored(entries, key),
    ensures
        same_sessions(entries, unlinked(entries, key)),
        forall|k: usize|
            entries[key].prev != Some(k) && entries[key].next != Some(k) ==> #[trigger] unlinked(
                entries,
                key,
            )[k] == entries[k],
        forall|k: usize|
            entries[key].prev != Some(k) ==> (#[trigger] unlinked(entries, key)[k]).next
                == entries[k].next,
        forall|k: usize|
            entries[key].next != Some(k) ==> (#[trigger] unlinked(entries, key)[k]).prev
                == entries[k].prev,
{
    assert(unlinked(entries, key).dom() =~= entries.dom());
}

/// Moving a session changes no session but itself, its neighbours and the old
/// tail, and of those only links.
pub proof fn law_move_changes_only_links_nearby(
    entries: Map<usize, ProxySession>,
    tail: Option<usize>,
    key: usize,
)
    requires
        movable(entries, tail, key),
    ensures
        same_sessions(entries, entries_moved(entries, tail, key)),
        forall|k: usize|
            k != key && entries[key].prev != Some(k) && entries[key].next != Some(k) && tail
                != Some(k) ==> #[trigger] entries_moved(entries, tail, key)[k] == entries[k],
{
    if tail != Some(key) {
        law_removal_changes_only_neighbours(entries, key);
        assert(entries_moved(entries, tail, key).dom() =~= entries.dom());
    }
}

/// Taking a session out of a list leaves the list of the others.
pub proof fn law_removal_leaves_the_others(
    entries: Map<usize, ProxySession>,
    head: Option<usize>,
    tail: Option<usize>,
    order: Seq<usize>,
    key: usize,
)
    requires
        linked(entries, head, tail, order),
        order.contains(key),
    ensures
        linked(
            unlinked(entries, key),
            head_without(entries, head, key),
            tail_without(entries, tail, key),
            without(order, key),
        ),
{
    lemma_neighbours(entries, head, tail, order, key);
    law_removal_changes_only_neighbours(entries, key);
    lemma_unlink(entries, unlinked(entries, key), head, tail, order, key);
}

/// A second removal of the same session changes nothing.
pub proof fn law_second_removal_changes_nothing(
    entries: Map<usize, ProxySession>,
    head: Option<usize>,
    tail: Option<usize>,
    order: Seq<usize>,
    key: usize,
)
    requires
        linked(entries, head, tail, order),
        order.contains(key),
    ensures
        ({
            let after = unlinked(entries, key);
            let head_after = head_without(entries, head, key);
            let tail_after = tail_without(entries, tail, key);
            &&& neighbours_stored(after, key)
            &&& unlinked(after, key) == after
            &&& head_without(after, head_after, key) == head_after
            &&& tail_without(after, tail_after, key) == tail_after
        }),
{
    lemma_neighbours(entries, head, tail, order, key);
    law_removal_changes_only_neighbours(entries, key);
    let after = unlinked(entries, key);
    assert(after[key] == entries[key]);
    assert(unlinked(after, key) =~= after);
}

/// Removing a session that is stored but not linked changes nothing.
pub proof fn law_removal_of_unlinked_changes_nothing(
    entries: Map<usize, ProxySession>,
    head: Option<usize>,
    tail: Option<usize>,
    key: usize,
)
    requires
        entries.contains_key(key),
        entries[key].prev is None,
        entries[key].next is None,
        head != Some(key),
        tail != Some(key),
    ensures
        neighbours_stored(entries, key),
        unlinked(entries, key) == entries,
        head_without(entries, head, key) == head,
        tail_without(entries, tail, key) == tail,
{
}

/// Moving a session of the list puts it behind all others.
pub proof fn law_move_puts_behind_the_others(
    entries: Map<usize, ProxySession>,
    head: Option<usize>,
    tail: Option<usize>,
    order: Seq<usize>,
    key: usize,
)
    requires
        linked(entries, head, tail, order),
        order.contains(key),
    ensures
        linked(
            entries_moved(entries, tail, key),
            head_moved(entries, head, tail, key),
            Some(key),
            moved_to_tail(order, key),
        ),
{
    lemma_neighbours(entries, head, tail, order, key);
    lemma_without(order, key);
    if tail == Some(key) {
        assert(moved_to_tail(order, key) =~= order);
    } else {
        law_removal_changes_only_neighbours(entries, key);
        law_removal_leaves_the_others(entries, head, tail, order, key);
        lemma_append(
            unlinked(entries, key),
            entries_moved(entries, tail, key),
            head_without(entries, head, key),
            tail,
            without(order, key),
            key,
        );
    }
}

/// Moving a session that is stored but not linked adds it behind the list. On an
/// empty list it becomes the only one.
pub proof fn law_move_of_unlinked_appends(
    entries: Map<usize, ProxySession>,
    head: Option<usize>,
    tail: Option<usize>,
    order: Seq<usize>,
    key: usize,
)
    requires
        linked(entries, head, tail, order),
        !order.contains(key),
        entries.contains_key(key),
        entries[key].prev is None,
        entries[key].next is None,
    ensures
        linked(
            entries_moved(entries, tail, key),
            head_moved(entries, head, tail, key),
            Some(key),
            order.push(key),
        ),
        order.len() == 0 ==> head_moved(entries, head, tail, key) == Some(key)
            && entries_moved(entries, tail, key)[key].prev is None
            && entries_moved(entries, tail, key)[key].next is None,
{
    if order.len() > 0 {
        assert(order.contains(order[0]));
        assert(order.contains(order[order.len() - 1]));
        assert(links_at(entries, order, order.len() - 1));
    }
    lemma_append(entries, entries_moved(entries, tail, key), head, tail, order, key);
}

/// A second move of the same session changes nothing.
pub proof fn law_second_move_changes_nothing(
    entries: Map<usize, ProxySession>,
    head: Option<usize>,
    tail: Option<usize>,
    key: usize,
)
    ensures
        ({
            let after = entries_moved(entries, tail, key);
            let head_after = head_moved(entries, head, tail, key);
            &&& movable(after, Some(key), key)
            &&& entries_moved(after, Some(key), key) == after
            &&& head_moved(after, head_after, Some(key), key) == head_after
        }),
{
}

/// Moving a session that has just been taken out of the list comes to the same
/// as moving it alone.
pub proof fn law_move_after_removal_is_move(
    entries: Map<usize, ProxySession>,
    head: Option<usize>,
    tail: Option<usize>,
    order: Seq<usize>,
    key: usize,
)
    requires
        linked(entries, head, tail, order),
        order.contains(key),
    ensures
        ({
            let removed = unlinked(entries, key);
            let head_left = head_without(entries, head, key);
            let tail_left = tail_without(entries, tail, key);
            &&& movable(removed, tail_left, key)
            &&& entries_moved(removed, tail_left, key) == entries_moved(entries, tail, key)
            &&& head_moved(removed, head_left, tail_left, key) == head_moved(
                entries,
                head,
                tail,
                key,
            )
        }),
{
    lemma_neighbours(entries, head, tail, order, key);
    law_second_removal_changes_nothing(entries, head, tail, order, key);
    law_removal_changes_only_neighbours(entries, key);
    let removed = unlinked(entries, key);
    let tail_left = tail_without(entries, tail, key);
    assert(removed[key] == entries[key]);
    assert(entries_moved(removed, tail_left, key) =~= entries_moved(entries, tail, key));
}

/// The links admit only one order.
pub proof fn law_links_admit_one_order(
    entries: Map<usize, ProxySession>,
    head: Option<usize>,
    tail: Option<usize>,
    order: Seq<usize>,
)
    requires
        linked(entries, head, tail, order),
    ensures
        forall|other: Seq<usize>| #[trigger] linked(entries, head, tail, other) ==> other == order,
{
    assert forall|other: Seq<usize>| #[trigger] linked(entries, head, tail, other) implies other
        == order by {
        lemma_common_prefix(entries, head, tail, order, other, order.len());
        lemma_common_prefix(entries, head, tail, other, order, other.len());
        assert(other =~= order);
    }
}

proof fn lemma_common_prefix(
    entries: Map<usize, ProxySession>,
    head: Option<usize>,
    tail: Option<usize>,
    a: Seq<usize>,
    b: Seq<usize>,
    n: nat,
)
    requires
        linked(entries, head, tail, a),
        linked(entries, head, tail, b),
        n <= a.len(),
    ensures
        n <= b.len(),
        forall|i: int| 0 <= i < n ==> a[i] == b[i],
    decreases n,
{
    if n > 0 {
        let m = (n - 1) as nat;
        lemma_common_prefix(entries, head, tail, a, b, m);
        if m > 0 {
            assert(links_at(entries, a, m - 1));
            assert(links_at(entries, b, m - 1));
        }
    }
}

/// Taking a session out joins the sessions that its links name. It stays the head
/// or the tail of no list that it began or ended.
pub proof fn law_removal_joins_the_neighbours(
    entries: Map<usize, ProxySession>,
    head: Option<usize>,
    tail: Option<usize>,
    key: usize,
)
    requires
        neighbours_stored(entries, key),
    ensures
        entries[key].prev matches Some(before) ==> unlinked(entries, key)[before].next
            == entries[key].next,
        entries[key].next matches Some(behind) ==> unlinked(entries, key)[behind].prev
            == entries[key].prev,
        head == Some(key) && entries[key].prev is None ==> head_without(entries, head, key)
            == entries[key].next,
        head != Some(key) || entries[key].prev is Some ==> head_without(entries, head, key)
            == head,
        tail == Some(key) && entries[key].next is None ==> tail_without(entries, tail, key)
            == entries[key].prev,
        tail != Some(key) || entries[key].next is Some ==> tail_without(entries, tail, key)
            == tail,
{
}

/// Moving a session joins the sessions that its links name and links it behind the
/// old tail. The tail stays where it is.
pub proof fn law_move_links_behind_the_tail(
    entries: Map<usize, ProxySession>,
    head: Option<usize>,
    tail: Option<usize>,
    key: usize,
)
    requires
        movable(entries, tail, key),
    ensures
        ({
            let after = entries_moved(entries, tail, key);
            let first = head_moved(entries, head, tail, key);
            &&& tail == Some(key) ==> after == entries && first == head
            &&& tail != Some(key) ==> {
                &&& after[key].prev == tail
                &&& after[key].next is None
                &&& tail matches Some(last) ==> after[last].next == Some(key)
                &&& entries[key].prev matches Some(before) ==> before != key && tail != Some(
                    before,
                ) ==> after[before].next == entries[key].next
                &&& entries[key].next matches Some(behind) ==> behind != key
                    ==> after[behind].prev == entries[key].prev
                &&& tail is None ==> first == Some(key)
                &&& tail is Some && head == Some(key) && entries[key].prev is None ==> first
                    == entries[key].next
                &&& tail is Some && !(head == Some(key) && entries[key].prev is None) ==> first
                    == head
            }
        }),
{
}

/// A session can be taken out and moved whenever it and the sessions that are
/// linked anew for it are stored.
pub proof fn law_stored_sessions_can_be_moved(
    entries: Map<usize, ProxySession>,
    tail: Option<usize>,
    key: usize,
)
    requires
        entries.contains_key(key),
        entries[key].prev matches Some(before) ==> entries.contains_key(before),
        entries[key].next matches Some(behind) ==> entries.contains_key(behind),
        tail matches Some(last) ==> entries.contains_key(last),
    ensures
        neighbours_stored(entries, key),
        movable(entries, tail, key),
{
}

} // verus!
