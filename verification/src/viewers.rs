//! Which viewers the camera serves.
//!
//! The camera's tracks are shared by all viewers, so their number is bounded. A viewer that
//! offers a session again replaces its connection. A new viewer at a full table takes the
//! place of the one that has been served longest.

use std::collections::VecDeque;

use vstd::prelude::*;

use crate::handles::{handles_never_repeat, next_handle};
use crate::table::{strings_view, Table};

verus! {

/// How many viewers may receive the shared tracks at once.
pub const MAX_VIEWERS: usize = 2;

/// The state of a peer connection.
#[derive(Debug, Clone, Copy, PartialEq, Eq)]
pub enum ConnectionState {
    Unspecified,
    New,
    Connecting,
    Connected,
    Disconnected,
    Failed,
    Closed,
}

/// The viewers that are served: the connection of each, and the order in which they came.
pub struct Viewers {
    connections: Table,
    order: VecDeque<String>,
}

/// What [`Viewers`] hold.
#[verifier::ext_equal]
pub struct ViewersView {
    /// The viewers, the one that has been served longest first.
    pub order: Seq<Seq<char>>,
    /// The connection of each viewer.
    pub connections: Map<Seq<char>, u64>,
}

/// The names other than `id`, in their order.
pub open spec fn without(order: Seq<Seq<char>>, id: Seq<char>) -> Seq<Seq<char>>
    decreases order.len(),
{
    if order.len() == 0 {
        Seq::empty()
    } else if order.last() == id {
        without(order.drop_last(), id)
    } else {
        without(order.drop_last(), id).push(order.last())
    }
}

impl ViewersView {
    /// Every viewer has a connection and stands in the order once; nobody else does.
    pub open spec fn consistent(self) -> bool {
        &&& self.order.no_duplicates()
        &&& forall|id: Seq<char>|
            self.order.contains(id) <==> #[trigger] self.connections.dom().contains(id)
    }

    /// The viewers other than `from`, in their order.
    pub open spec fn others(self, from: Seq<char>) -> Seq<Seq<char>> {
        without(self.order, from)
    }

    /// How many of the other viewers have to go for `from` to fit in.
    pub open spec fn surplus(self, from: Seq<char>) -> int {
        let others = self.others(from).len() as int;
        if others >= MAX_VIEWERS {
            others - MAX_VIEWERS + 1
        } else {
            0
        }
    }

    /// The viewers that make room for `from`: those that have been served longest.
    pub open spec fn evicted(self, from: Seq<char>) -> Seq<Seq<char>> {
        self.others(from).take(self.surplus(from))
    }

    /// The viewers that stay beside `from`.
    pub open spec fn staying(self, from: Seq<char>) -> Seq<Seq<char>> {
        self.others(from).skip(self.surplus(from))
    }

    /// The connection that `from` had.
    pub open spec fn replaced(self, from: Seq<char>) -> Seq<u64> {
        if self.connections.dom().contains(from) {
            seq![self.connections[from]]
        } else {
            Seq::empty()
        }
    }

    /// The connections that an offer of `from` closes: its own earlier one, then those of the
    /// viewers that make room.
    pub open spec fn closed_for(self, from: Seq<char>) -> Seq<u64> {
        self.replaced(from) + self.evicted(from).map_values(|id: Seq<char>| self.connections[id])
    }

    /// The viewers once room has been made for `from`.
    pub open spec fn with_room_for(self, from: Seq<char>) -> ViewersView {
        ViewersView {
            order: self.staying(from),
            connections: self.connections.restrict(self.staying(from).to_set()),
        }
    }

    /// The viewers once `from` has been let in.
    pub open spec fn with_viewer(self, from: Seq<char>, connection: u64) -> ViewersView {
        ViewersView {
            order: self.order.push(from),
            connections: self.connections.insert(from, connection),
        }
    }

    /// Whether a connection of `from` that has reached a state takes `from` out: it must be
    /// over, and it must be the connection that `from` has now.
    pub open spec fn ends(
        self,
        from: Seq<char>,
        connection: u64,
        state: ConnectionState,
    ) -> bool {
        &&& state is Closed || state is Failed
        &&& self.connections.dom().contains(from)
        &&& self.connections[from] == connection
    }

    /// The viewers once a connection of `from` has reached a state.
    pub open spec fn after_state(
        self,
        from: Seq<char>,
        connection: u64,
        state: ConnectionState,
    ) -> ViewersView {
        if self.ends(from, connection, state) {
            ViewersView {
                order: without(self.order, from),
                connections: self.connections.remove(from),
            }
        } else {
            self
        }
    }
}

proof fn lemma_without(order: Seq<Seq<char>>, id: Seq<char>)
    ensures
        forall|x: Seq<char>|
            #[trigger] without(order, id).contains(x) <==> order.contains(x) && x != id,
        order.no_duplicates() ==> without(order, id).no_duplicates(),
        !order.contains(id) ==> without(order, id) == order,
        without(order, id).len() <= order.len(),
        order.no_duplicates() && order.contains(id) ==> without(order, id).len() == order.len() - 1,
    decreases order.len(),
{
    let out = without(order, id);
    if order.len() == 0 {
        assert(out =~= order);
    } else {
        let init = order.drop_last();
        let last = order.last();
        let rest = without(init, id);
        lemma_without(init, id);
        assert(order =~= init.push(last));
        assert forall|x: Seq<char>| order.contains(x) == (init.contains(x) || x == last) by {
            if init.contains(x) {
                let i = init.index_of(x);
                assert(order[i] == x);
            }
            if order.contains(x) && x != last {
                let i = order.index_of(x);
                assert(init[i] == x);
            }
            assert(order[order.len() - 1] == last);
        }
        assert forall|x: Seq<char>| #[trigger] out.contains(x) == (order.contains(x) && x != id) by {
            if last != id {
                if out.contains(x) {
                    let i = out.index_of(x);
                    if i < rest.len() {
                        assert(rest[i] == x);
                        assert(rest.contains(x));
                    }
                }
                if order.contains(x) && x != id {
                    if x == last {
                        assert(out[rest.len() as int] == x);
                    } else {
                        assert(rest.contains(x));
                        let i = rest.index_of(x);
                        assert(out[i] == x);
                    }
                }
            } else {
                assert(out == rest);
            }
        }
        if order.no_duplicates() {
            assert(init.no_duplicates());
            assert(!init.contains(last)) by {
                if init.contains(last) {
                    let i = init.index_of(last);
                    assert(order[i] == order[order.len() - 1]);
                }
            }
            if last != id {
                assert(!rest.contains(last));
                assert forall|i: int, j: int|
                    0 <= i < out.len() && 0 <= j < out.len() && i != j implies out[i] != out[j] by {
                    if i < rest.len() {
                        assert(rest.contains(rest[i]));
                    }
                    if j < rest.len() {
                        assert(rest.contains(rest[j]));
                    }
                }
            }
        }
        if !order.contains(id) {
            assert(out =~= order);
        }
    }
}

/// Taking a name out of names that do not repeat takes out its one place.
proof fn lemma_without_one(order: Seq<Seq<char>>, id: Seq<char>)
    requires
        order.no_duplicates(),
        order.contains(id),
    ensures
        without(order, id) == order.remove(order.index_of(id)),
    decreases order.len(),
{
    let init = order.drop_last();
    let last = order.last();
    let k = order.index_of(id);
    assert(order[k] == id);
    assert(init.no_duplicates());
    lemma_without(init, id);
    if last == id {
        assert(k == order.len() - 1);
        assert(!init.contains(id)) by {
            if init.contains(id) {
                assert(order[init.index_of(id)] == order[order.len() - 1]);
            }
        }
        assert(order.remove(k) =~= init);
    } else {
        assert(init[k] == id);
        lemma_without_one(init, id);
        let j = init.index_of(id);
        assert(init[j] == id);
        assert(order[j] == order[k]);
        assert(init.remove(k).push(last) =~= order.remove(k));
    }
}

/// Consistent viewers have as many connections as places in the order.
proof fn lemma_consistent_len(viewers: ViewersView)
    requires
        viewers.consistent(),
    ensures
        viewers.connections.dom().finite(),
        viewers.connections.dom().len() == viewers.order.len(),
{
    viewers.order.unique_seq_to_set();
    assert(viewers.connections.dom() =~= viewers.order.to_set());
}

impl View for Viewers {
    type V = ViewersView;

    closed spec fn view(&self) -> ViewersView {
        ViewersView { order: strings_view(self.order@), connections: self.connections@ }
    }
}

/// Takes every occurrence of a name out of a list.
fn drop_name(order: &mut VecDeque<String>, id: &String)
    ensures
        strings_view(final(order)@) == without(strings_view(old(order)@), id@),
{
    let ghost before = strings_view(order@);
    let mut rest: VecDeque<String> = VecDeque::new();
    let mut i: usize = 0;
    assert(strings_view(rest@) =~= without(before.take(0), id@));
    while i < order.len()
        invariant
            i <= order.len(),
            before == strings_view(order@),
            strings_view(rest@) == without(before.take(i as int), id@),
        decreases order.len() - i,
    {
        let ghost taken = before.take(i as int + 1);
        let ghost old_rest = rest@;
        assert(taken.drop_last() =~= before.take(i as int));
        assert(taken.last() == order@[i as int]@);
        if order[i] != *id {
            rest.push_back(order[i].clone());
            assert(strings_view(rest@) =~= strings_view(old_rest).push(taken.last()));
        }
        i = i + 1;
    }
    assert(before.take(before.len() as int) =~= before);
    *order = rest;
}

impl Viewers {
    /// Every viewer has a connection and stands in the order once, and there are at most
    /// [`MAX_VIEWERS`] of them.
    pub closed spec fn wf(&self) -> bool {
        &&& self.connections.wf()
        &&& self@.consistent()
        &&& self@.order.len() <= MAX_VIEWERS
    }

    /// Nobody is served.
    pub fn new() -> (viewers: Viewers)
        ensures
            viewers.wf(),
            viewers@.order == Seq::<Seq<char>>::empty(),
            viewers@.connections == Map::<Seq<char>, u64>::empty(),
    {
        let viewers = Viewers { connections: Table::new(), order: VecDeque::new() };
        assert(viewers@.order =~= Seq::<Seq<char>>::empty());
        viewers
    }

    /// The connection of a viewer.
    pub fn connection(&self, from: &String) -> (connection: Option<u64>)
        requires
            self.wf(),
        ensures
            connection == (if self@.connections.dom().contains(from@) {
                Some(self@.connections[from@])
            } else {
                None
            }),
    {
        self.connections.get(from)
    }

    /// Makes room for the viewer `from`; returns the connections that are to be closed.
    pub fn make_room(&mut self, from: &String) -> (to_close: Vec<u64>)
        requires
            old(self).wf(),
        ensures
            final(self).wf(),
            final(self)@ == old(self)@.with_room_for(from@),
            !final(self)@.connections.dom().contains(from@),
            final(self)@.order.len() < MAX_VIEWERS,
            to_close@ == old(self)@.closed_for(from@),
            old(self)@.connections.dom().contains(from@) ==> {
                &&& to_close@ == seq![old(self)@.connections[from@]]
                &&& final(self)@.connections == old(self)@.connections.remove(from@)
                &&& final(self)@.order == old(self)@.order.remove(
                    old(self)@.order.index_of(from@),
                )
            },
            !old(self)@.connections.dom().contains(from@) && old(self)@.order.len() == MAX_VIEWERS
                ==> {
                &&& to_close@ == seq![old(self)@.connections[old(self)@.order[0]]]
                &&& final(self)@.connections == old(self)@.connections.remove(
                    old(self)@.order[0],
                )
                &&& final(self)@.order == old(self)@.order.remove(0)
            },
            !old(self)@.connections.dom().contains(from@) && old(self)@.order.len() < MAX_VIEWERS
                ==> {
                &&& to_close@ == Seq::<u64>::empty()
                &&& final(self)@ == old(self)@
            },
            forall|id: Seq<char>|
                #[trigger] old(self)@.connections.dom().contains(id)
                    && !final(self)@.connections.dom().contains(id) ==> to_close@.contains(
                    old(self)@.connections[id],
                ),
            forall|c: u64| #[trigger]
                to_close@.contains(c) ==> exists|id: Seq<char>| #[trigger]
                    old(self)@.connections.dom().contains(id)
                        && !final(self)@.connections.dom().contains(id)
                        && old(self)@.connections[id] == c,
    {
        let ghost before = self@;
        let ghost others = before.others(from@);
        let mut to_close: Vec<u64> = Vec::new();
        proof {
            lemma_without(before.order, from@);
        }
        if let Some(connection) = self.connections.remove(from) {
            to_close.push(connection);
            drop_name(&mut self.order, from);
        }
        let ghost first = to_close@;
        proof {
            assert(first =~= before.replaced(from@));
            assert(self@.order == others);
            assert(others.skip(0) =~= others);
            assert(self@.connections =~= before.connections.restrict(others.to_set())) by {
                assert forall|id: Seq<char>|
                    self@.connections.dom().contains(id) == before.connections.restrict(
                        others.to_set(),
                    ).dom().contains(id) by {
                    assert(others.contains(id) == (before.order.contains(id) && id != from@));
                }
            }
            assert(to_close@ =~= first + others.take(0).map_values(
                |id: Seq<char>| before.connections[id],
            ));
        }
        let ghost mut k: int = 0;
        proof {
            lemma_room_consistent(before, others, 0);
            lemma_consistent_len(self@);
        }
        let mut held: usize = self.connections.len();
        while held >= MAX_VIEWERS
            invariant
                held == others.len() - k,
                self.connections.wf(),
                before.consistent(),
                others == before.others(from@),
                others.no_duplicates(),
                forall|id: Seq<char>| #[trigger] others.contains(id) ==> before.order.contains(id),
                0 <= k <= others.len(),
                k == 0 || others.len() - k >= MAX_VIEWERS - 1,
                self@.order == others.skip(k),
                self@.connections == before.connections.restrict(others.skip(k).to_set()),
                to_close@ == first + others.take(k).map_values(
                    |id: Seq<char>| before.connections[id],
                ),
            decreases held,
        {
            let ghost now = self@;
            let ghost listed = self.order@;
            assert(now.order == strings_view(listed));
            assert(listed.len() == others.skip(k).len());
            let victim = self.order.pop_front().unwrap();
            assert(victim@ == now.order[0] && now.order[0] == others[k]);
            assert(now.order.contains(victim@) && others.contains(victim@));
            assert(before.connections.dom().contains(victim@));
            assert(now.connections.dom().contains(victim@));
            match self.connections.remove(&victim) {
                Some(connection) => to_close.push(connection),
                None => {},
            }
            proof {
                assert forall|i: int| 0 <= i < self.order@.len() implies strings_view(
                    self.order@,
                )[i] == #[trigger] others.skip(k + 1)[i] by {
                    assert(self.order@[i] == listed[i + 1]);
                    assert(now.order[i + 1] == others.skip(k)[i + 1]);
                }
                assert(self@.order =~= others.skip(k + 1));
                assert(self@.connections =~= before.connections.restrict(
                    others.skip(k + 1).to_set(),
                )) by {
                    assert forall|id: Seq<char>|
                        others.skip(k + 1).contains(id) == (others.skip(k).contains(id) && id
                            != victim@) by {
                        lemma_skip_one(others, k, id);
                    }
                }
                assert(others.take(k + 1) =~= others.take(k).push(others[k]));
                assert(to_close@ =~= first + others.take(k + 1).map_values(
                    |id: Seq<char>| before.connections[id],
                ));
                k = k + 1;
                lemma_room_consistent(before, others, k);
                lemma_consistent_len(self@);
            }
            held = self.connections.len();
        }
        proof {
            lemma_room_consistent(before, others, k);
            lemma_consistent_len(self@);
            assert(self@ =~= before.with_room_for(from@));
            lemma_with_room(before, from@);
            room_is_made(before, from@);
        }
        to_close
    }

    /// Whether the viewer `from` can be let in as things are.
    pub fn has_room_for(&self, from: &String) -> (room: bool)
        requires
            self.wf(),
        ensures
            room == (!self@.connections.dom().contains(from@) && self@.order.len()
                < MAX_VIEWERS),
    {
        self.connections.get(from).is_none() && self.order.len() < MAX_VIEWERS
    }

    /// Lets a viewer in for whom there is room.
    pub fn let_in(&mut self, from: String, connection: u64)
        requires
            old(self).wf(),
            !old(self)@.connections.dom().contains(from@),
            old(self)@.order.len() < MAX_VIEWERS,
        ensures
            final(self).wf(),
            final(self)@ == old(self)@.with_viewer(from@, connection),
            final(self)@.order == old(self)@.order.push(from@),
            final(self)@.connections == old(self)@.connections.insert(from@, connection),
    {
        let ghost before = self@;
        let ghost listed = self.order@;
        let ghost name = from@;
        self.connections.insert(from.clone(), connection);
        self.order.push_back(from);
        proof {
            assert(strings_view(self.order@) =~= strings_view(listed).push(name));
            assert(self@ =~= before.with_viewer(name, connection));
            lemma_with_viewer_consistent(before, name, connection);
        }
    }

    /// Takes the viewer `from` out if the connection that has reached `state` is over and is
    /// the one that the viewer has now; says whether it did.
    pub fn connection_changed(
        &mut self,
        from: &String,
        connection: u64,
        state: ConnectionState,
    ) -> (removed: bool)
        requires
            old(self).wf(),
        ensures
            final(self).wf(),
            final(self)@ == old(self)@.after_state(from@, connection, state),
            removed == old(self)@.ends(from@, connection, state),
            removed <==> (state is Closed || state is Failed)
                && old(self)@.connections.dom().contains(from@)
                && old(self)@.connections[from@] == connection,
            removed ==> {
                &&& final(self)@.connections == old(self)@.connections.remove(from@)
                &&& final(self)@.order == old(self)@.order.remove(
                    old(self)@.order.index_of(from@),
                )
            },
            !removed ==> final(self)@ == old(self)@,
    {
        match state {
            ConnectionState::Closed | ConnectionState::Failed => {},
            _ => return false,
        }
        let live = match self.connections.get(from) {
            Some(live) => live,
            None => return false,
        };
        if live != connection {
            return false;
        }
        let ghost before = self@;
        let _ = self.connections.remove(from);
        drop_name(&mut self.order, from);
        proof {
            assert(self@ =~= before.after_state(from@, connection, state));
            lemma_after_state_consistent(before, from@, connection, state);
            lemma_without_one(before.order, from@);
        }
        true
    }
}

/// What is left after the first `k` of the other viewers is consistent.
proof fn lemma_room_consistent(before: ViewersView, others: Seq<Seq<char>>, k: int)
    requires
        before.consistent(),
        others.no_duplicates(),
        forall|id: Seq<char>| #[trigger] others.contains(id) ==> before.order.contains(id),
        0 <= k <= others.len(),
    ensures
        (ViewersView {
            order: others.skip(k),
            connections: before.connections.restrict(others.skip(k).to_set()),
        }).consistent(),
{
    let order = others.skip(k);
    assert(order.no_duplicates());
    assert forall|id: Seq<char>|
        order.contains(id) == #[trigger] before.connections.restrict(
            order.to_set(),
        ).dom().contains(id) by {
        if order.contains(id) {
            let i = order.index_of(id);
            assert(others[i + k] == id);
            assert(others.contains(id));
        }
    }
}

/// Skipping one more element takes that element out.
proof fn lemma_skip_one(others: Seq<Seq<char>>, k: int, id: Seq<char>)
    requires
        others.no_duplicates(),
        0 <= k < others.len(),
    ensures
        others.skip(k + 1).contains(id) == (others.skip(k).contains(id) && id != others[k]),
{
    let a = others.skip(k);
    let b = others.skip(k + 1);
    if b.contains(id) {
        let i = b.index_of(id);
        assert(b[i] == others[i + k + 1]);
        assert(a[i + 1] == id);
    }
    if a.contains(id) && id != others[k] {
        let i = a.index_of(id);
        assert(a[i] == others[i + k]);
        assert(b[i - 1] == id);
    }
}

proof fn lemma_with_viewer_consistent(viewers: ViewersView, from: Seq<char>, connection: u64)
    requires
        viewers.consistent(),
        !viewers.connections.dom().contains(from),
    ensures
        viewers.with_viewer(from, connection).consistent(),
{
    let after = viewers.with_viewer(from, connection);
    assert(!viewers.order.contains(from));
    assert forall|i: int, j: int|
        0 <= i < after.order.len() && 0 <= j < after.order.len() && i != j implies after.order[i]
        != after.order[j] by {
        if i < viewers.order.len() {
            assert(viewers.order.contains(viewers.order[i]));
        }
        if j < viewers.order.len() {
            assert(viewers.order.contains(viewers.order[j]));
        }
    }
    assert forall|id: Seq<char>|
        after.order.contains(id) == #[trigger] after.connections.dom().contains(id) by {
        if viewers.order.contains(id) {
            let i = viewers.order.index_of(id);
            assert(after.order[i] == id);
        }
        if after.order.contains(id) {
            let i = after.order.index_of(id);
            if i < viewers.order.len() {
                assert(viewers.order[i] == id);
            }
        }
        assert(after.order[viewers.order.len() as int] == from);
    }
}

proof fn lemma_after_state_consistent(
    viewers: ViewersView,
    from: Seq<char>,
    connection: u64,
    state: ConnectionState,
)
    requires
        viewers.consistent(),
    ensures
        viewers.after_state(from, connection, state).consistent(),
        viewers.after_state(from, connection, state).order.len() <= viewers.order.len(),
        forall|id: Seq<char>|
            #[trigger] viewers.after_state(from, connection, state).connections.dom().contains(id)
                ==> viewers.connections.dom().contains(id),
{
    lemma_without(viewers.order, from);
}

proof fn lemma_with_room(viewers: ViewersView, from: Seq<char>)
    requires
        viewers.consistent(),
    ensures
        viewers.with_room_for(from).consistent(),
        viewers.with_room_for(from).order.len() < MAX_VIEWERS,
        !viewers.with_room_for(from).connections.dom().contains(from),
{
    lemma_without(viewers.order, from);
    let others = viewers.others(from);
    let k = viewers.surplus(from);
    lemma_room_consistent(viewers, others, k);
    if others.skip(k).contains(from) {
        let i = others.skip(k).index_of(from);
        assert(others[i + k] == from);
        assert(others.contains(from));
    }
}

/// A change of state of one connection.
pub struct StateChange {
    pub from: Seq<char>,
    pub connection: u64,
    pub state: ConnectionState,
}

/// What can happen to the viewers: a connection changes its state, or a viewer offers a
/// session. Between making room for a viewer and letting it in, connections may change state.
pub enum ViewerEvent {
    Changed { change: StateChange },
    Offered { from: Seq<char>, meanwhile: Seq<StateChange>, connection: u64 },
}

/// The viewers after some changes of state.
pub open spec fn after_changes(viewers: ViewersView, changes: Seq<StateChange>) -> ViewersView
    decreases changes.len(),
{
    if changes.len() == 0 {
        viewers
    } else {
        let last = changes.last();
        after_changes(viewers, changes.drop_last()).after_state(
            last.from,
            last.connection,
            last.state,
        )
    }
}

/// The viewers after an event.
pub open spec fn after_event(viewers: ViewersView, event: ViewerEvent) -> ViewersView {
    match event {
        ViewerEvent::Changed { change } => viewers.after_state(
            change.from,
            change.connection,
            change.state,
        ),
        ViewerEvent::Offered { from, meanwhile, connection } => after_changes(
            viewers.with_room_for(from),
            meanwhile,
        ).with_viewer(from, connection),
    }
}

/// The viewers after some events.
pub open spec fn after_events(viewers: ViewersView, events: Seq<ViewerEvent>) -> ViewersView
    decreases events.len(),
{
    if events.len() == 0 {
        viewers
    } else {
        after_event(after_events(viewers, events.drop_last()), events.last())
    }
}

proof fn lemma_after_changes(viewers: ViewersView, changes: Seq<StateChange>)
    requires
        viewers.consistent(),
    ensures
        after_changes(viewers, changes).consistent(),
        after_changes(viewers, changes).order.len() <= viewers.order.len(),
        forall|id: Seq<char>|
            #[trigger] after_changes(viewers, changes).connections.dom().contains(id)
                ==> viewers.connections.dom().contains(id),
    decreases changes.len(),
{
    if changes.len() > 0 {
        lemma_after_changes(viewers, changes.drop_last());
        let last = changes.last();
        lemma_after_state_consistent(
            after_changes(viewers, changes.drop_last()),
            last.from,
            last.connection,
            last.state,
        );
    }
}

/// Viewers in a valid state are consistent and no more than [`MAX_VIEWERS`].
pub proof fn served_viewers_are_bounded(viewers: &Viewers)
    requires
        viewers.wf(),
    ensures
        viewers@.consistent(),
        viewers@.order.len() <= MAX_VIEWERS,
{
}

/// Whatever happens, and in whatever order, at most [`MAX_VIEWERS`] viewers are served, each
/// with one connection and one place in the order.
pub proof fn viewers_stay_bounded(viewers: ViewersView, events: Seq<ViewerEvent>)
    requires
        viewers.consistent(),
        viewers.order.len() <= MAX_VIEWERS,
    ensures
        after_events(viewers, events).consistent(),
        after_events(viewers, events).order.len() <= MAX_VIEWERS,
        after_events(viewers, events).connections.dom().finite(),
        after_events(viewers, events).connections.dom().len() <= MAX_VIEWERS,
        MAX_VIEWERS == 2,
    decreases events.len(),
{
    if events.len() > 0 {
        let before = after_events(viewers, events.drop_last());
        viewers_stay_bounded(viewers, events.drop_last());
        match events.last() {
            ViewerEvent::Changed { change } => {
                lemma_after_state_consistent(
                    before,
                    change.from,
                    change.connection,
                    change.state,
                );
            },
            ViewerEvent::Offered { from, meanwhile, connection } => {
                lemma_with_room(before, from);
                let room = before.with_room_for(from);
                lemma_after_changes(room, meanwhile);
                lemma_with_viewer_consistent(after_changes(room, meanwhile), from, connection);
            },
        }
    }
    lemma_consistent_len(after_events(viewers, events));
}

/// A viewer that offers a session is served on the connection made for it, as the last in the
/// order.
pub proof fn offering_viewer_is_served(
    viewers: ViewersView,
    from: Seq<char>,
    meanwhile: Seq<StateChange>,
    connection: u64,
)
    ensures
        ({
            let after = after_event(
                viewers,
                ViewerEvent::Offered { from, meanwhile, connection },
            );
            &&& after.order.last() == from
            &&& after.connections.dom().contains(from)
            &&& after.connections[from] == connection
        }),
{
}

/// How an offer settles who is served, where the bound is kept. A returning viewer gives up its
/// own place and connection. A newcomer at a full table costs the viewer served longest its place
/// and connection. A newcomer with room costs nobody anything. Either way the connections that
/// are closed are those of the viewers that are taken out, all of them and no others.
pub proof fn room_is_made(viewers: ViewersView, from: Seq<char>)
    requires
        viewers.consistent(),
        viewers.order.len() <= MAX_VIEWERS,
    ensures
        viewers.connections.dom().contains(from) ==> {
            &&& viewers.closed_for(from) == seq![viewers.connections[from]]
            &&& viewers.with_room_for(from).connections == viewers.connections.remove(from)
            &&& viewers.with_room_for(from).order == viewers.order.remove(
                viewers.order.index_of(from),
            )
        },
        !viewers.connections.dom().contains(from) && viewers.order.len() == MAX_VIEWERS ==> {
            &&& viewers.closed_for(from) == seq![viewers.connections[viewers.order[0]]]
            &&& viewers.with_room_for(from).connections == viewers.connections.remove(
                viewers.order[0],
            )
            &&& viewers.with_room_for(from).order == viewers.order.remove(0)
        },
        !viewers.connections.dom().contains(from) && viewers.order.len() < MAX_VIEWERS ==> {
            &&& viewers.closed_for(from) == Seq::<u64>::empty()
            &&& viewers.with_room_for(from) == viewers
        },
        forall|id: Seq<char>| #[trigger]
            viewers.connections.dom().contains(id) && !viewers.with_room_for(
                from,
            ).connections.dom().contains(id) ==> viewers.closed_for(from).contains(
                viewers.connections[id],
            ),
        forall|c: u64| #[trigger]
            viewers.closed_for(from).contains(c) ==> exists|id: Seq<char>| #[trigger]
                viewers.connections.dom().contains(id) && !viewers.with_room_for(
                    from,
                ).connections.dom().contains(id) && viewers.connections[id] == c,
{
    let after = viewers.with_room_for(from);
    let closed = viewers.closed_for(from);
    lemma_without(viewers.order, from);
    assert forall|id: Seq<char>| viewers.order.contains(id) == viewers.connections.dom().contains(
        id,
    ) by {}
    if viewers.connections.dom().contains(from) {
        returning_viewer_replaces_itself(viewers, from);
        lemma_without_one(viewers.order, from);
        assert(after.connections =~= viewers.connections.remove(from)) by {
            assert forall|id: Seq<char>|
                after.connections.dom().contains(id) == viewers.connections.remove(
                    from,
                ).dom().contains(id) by {
                assert(viewers.order.contains(id) == viewers.connections.dom().contains(id));
                assert(without(viewers.order, from).contains(id) == (viewers.order.contains(id)
                    && id != from));
            }
        }
        assert(closed[0] == viewers.connections[from]);
    } else if viewers.order.len() == MAX_VIEWERS {
        newcomer_replaces_the_oldest(viewers, from);
        let oldest = viewers.order[0];
        assert(viewers.order.contains(oldest));
        assert(viewers.order.skip(1) =~= viewers.order.remove(0));
        assert(after.connections =~= viewers.connections.remove(oldest)) by {
            assert forall|id: Seq<char>|
                after.connections.dom().contains(id) == viewers.connections.remove(
                    oldest,
                ).dom().contains(id) by {
                assert(viewers.order.contains(id) == viewers.connections.dom().contains(id));
                lemma_skip_one(viewers.order, 0, id);
                assert(viewers.order.skip(0) =~= viewers.order);
            }
        }
        assert(closed[0] == viewers.connections[oldest]);
    } else {
        newcomer_with_room_replaces_nobody(viewers, from);
    }
}

/// A connection that is over takes its viewer out, wherever the viewer stands in the order, and
/// nobody else.
pub proof fn ended_connection_takes_its_viewer_out(
    viewers: ViewersView,
    id: Seq<char>,
    state: ConnectionState,
)
    requires
        viewers.consistent(),
        viewers.connections.dom().contains(id),
        state is Closed || state is Failed,
    ensures
        viewers.ends(id, viewers.connections[id], state),
        viewers.after_state(id, viewers.connections[id], state).connections
            == viewers.connections.remove(id),
        viewers.after_state(id, viewers.connections[id], state).order == viewers.order.remove(
            viewers.order.index_of(id),
        ),
{
    assert(viewers.order.contains(id));
    lemma_without_one(viewers.order, id);
}

/// A connection that is not over takes nobody out, and neither does one of somebody who is not
/// served.
pub proof fn living_connection_takes_nobody_out(
    viewers: ViewersView,
    id: Seq<char>,
    connection: u64,
    state: ConnectionState,
)
    requires
        !(state is Closed || state is Failed) || !viewers.connections.dom().contains(id),
    ensures
        !viewers.ends(id, connection, state),
        viewers.after_state(id, connection, state) == viewers,
{
}

/// Letting a viewer in adds that viewer, as the last, and changes nothing for the others.
pub proof fn letting_in_adds_the_last(viewers: ViewersView, from: Seq<char>, connection: u64)
    ensures
        viewers.with_viewer(from, connection).order == viewers.order.push(from),
        viewers.with_viewer(from, connection).connections == viewers.connections.insert(
            from,
            connection,
        ),
{
}

/// Where the bound is kept, a viewer that offers a session again takes nobody's place but its
/// own: only its earlier connection is closed, and the others stay in their order.
pub proof fn returning_viewer_replaces_itself(viewers: ViewersView, from: Seq<char>)
    requires
        viewers.consistent(),
        viewers.order.len() <= MAX_VIEWERS,
        viewers.connections.dom().contains(from),
    ensures
        viewers.closed_for(from) == seq![viewers.connections[from]],
        viewers.with_room_for(from).order == without(viewers.order, from),
{
    assert(viewers.order.contains(from));
    lemma_without(viewers.order, from);
    assert(viewers.evicted(from) =~= Seq::<Seq<char>>::empty());
    assert(viewers.closed_for(from) =~= seq![viewers.connections[from]]);
    assert(viewers.staying(from) =~= without(viewers.order, from));
}

/// A new viewer at a full table takes the place of the one that has been served longest, and
/// of no other.
pub proof fn newcomer_replaces_the_oldest(viewers: ViewersView, from: Seq<char>)
    requires
        viewers.consistent(),
        viewers.order.len() == MAX_VIEWERS,
        !viewers.connections.dom().contains(from),
    ensures
        viewers.closed_for(from) == seq![viewers.connections[viewers.order[0]]],
        viewers.with_room_for(from).order == viewers.order.skip(1),
{
    assert(!viewers.order.contains(from));
    lemma_without(viewers.order, from);
    assert(viewers.surplus(from) == 1);
    assert(viewers.evicted(from) =~= seq![viewers.order[0]]);
    assert(viewers.closed_for(from) =~= seq![viewers.connections[viewers.order[0]]]);
}

/// While there is room, a new viewer costs nobody a place.
pub proof fn newcomer_with_room_replaces_nobody(viewers: ViewersView, from: Seq<char>)
    requires
        viewers.consistent(),
        viewers.order.len() < MAX_VIEWERS,
        !viewers.connections.dom().contains(from),
    ensures
        viewers.closed_for(from) == Seq::<u64>::empty(),
        viewers.with_room_for(from) == viewers,
{
    assert(!viewers.order.contains(from));
    lemma_without(viewers.order, from);
    assert(viewers.evicted(from) =~= Seq::<Seq<char>>::empty());
    assert(viewers.closed_for(from) =~= Seq::<u64>::empty());
    assert(viewers.staying(from) =~= viewers.order);
    assert(viewers.with_room_for(from).connections =~= viewers.connections) by {
        assert forall|id: Seq<char>|
            viewers.connections.dom().contains(id) implies viewers.order.to_set().contains(id) by {
            assert(viewers.order.contains(id));
        }
    }
    assert(viewers.with_room_for(from) =~= viewers);
}

/// Whether each connection that is made for an offer differs from all the others.
pub open spec fn connections_differ(events: Seq<ViewerEvent>) -> bool {
    forall|a: int, b: int|
        0 <= a < b < events.len() && (#[trigger] events[a]) is Offered && (
        #[trigger] events[b]) is Offered ==> events[a]->connection != events[b]->connection
}

/// Connections that are given their handles by one counter, one after the other, differ.
/// `counts` says how many handles were out at each event.
pub proof fn fresh_connections_differ(events: Seq<ViewerEvent>, counts: Seq<nat>)
    requires
        counts.len() == events.len(),
        forall|k: int|
            0 <= k < events.len() && (#[trigger] events[k]) is Offered ==> next_handle(counts[k])
                == Some(events[k]->connection),
        forall|a: int, b: int|
            0 <= a < b < events.len() && (#[trigger] events[a]) is Offered && (
            #[trigger] events[b]) is Offered ==> counts[a] < counts[b],
    ensures
        connections_differ(events),
{
    assert forall|a: int, b: int|
        0 <= a < b < events.len() && (#[trigger] events[a]) is Offered && (
        #[trigger] events[b]) is Offered implies events[a]->connection != events[b]->connection by {
        handles_never_repeat(counts[a], counts[b]);
    }
}

/// The viewers that changes of state leave keep their connections.
proof fn lemma_after_changes_keeps(
    viewers: ViewersView,
    changes: Seq<StateChange>,
    id: Seq<char>,
)
    ensures
        after_changes(viewers, changes).connections.dom().contains(id)
            ==> viewers.connections.dom().contains(id) && after_changes(
            viewers,
            changes,
        ).connections[id] == viewers.connections[id],
    decreases changes.len(),
{
    if changes.len() > 0 {
        lemma_after_changes_keeps(viewers, changes.drop_last(), id);
    }
}

/// The end of a connection never takes out the connection that has replaced it, whatever
/// happened before and since: once event `i` has made a connection for a viewer and the later
/// event `j` another one for the same viewer, the first reaching any state changes nothing.
pub proof fn replacement_outlives_the_replaced(
    viewers: ViewersView,
    events: Seq<ViewerEvent>,
    i: int,
    j: int,
    state: ConnectionState,
)
    requires
        connections_differ(events),
        0 <= i < j < events.len(),
        events[i] is Offered,
        events[j] is Offered,
        events[i]->from == events[j]->from,
    ensures
        after_events(viewers, events).after_state(events[i]->from, events[i]->connection, state)
            == after_events(viewers, events),
{
    lemma_replaced_is_gone(viewers, events, i, j);
}

proof fn lemma_replaced_is_gone(
    viewers: ViewersView,
    events: Seq<ViewerEvent>,
    i: int,
    j: int,
)
    requires
        connections_differ(events),
        0 <= i < j < events.len(),
        events[i] is Offered,
        events[j] is Offered,
        events[i]->from == events[j]->from,
    ensures
        after_events(viewers, events).connections.dom().contains(events[i]->from)
            ==> after_events(viewers, events).connections[events[i]->from]
            != events[i]->connection,
    decreases events.len(),
{
    let init = events.drop_last();
    let last = events.last();
    let before = after_events(viewers, init);
    let from = events[i]->from;
    assert(last == events[events.len() - 1]);
    if j < init.len() {
        assert(init[i] == events[i] && init[j] == events[j]);
        assert(connections_differ(init)) by {
            assert forall|a: int, b: int|
                0 <= a < b < init.len() && (#[trigger] init[a]) is Offered && (
                #[trigger] init[b]) is Offered implies init[a]->connection
                != init[b]->connection by {
                assert(init[a] == events[a] && init[b] == events[b]);
            }
        }
        lemma_replaced_is_gone(viewers, init, i, j);
    }
    match last {
        ViewerEvent::Changed { .. } => {},
        ViewerEvent::Offered { from: id, meanwhile, connection } => {
            assert(events[i]->connection != events[events.len() - 1]->connection);
            lemma_after_changes_keeps(before.with_room_for(id), meanwhile, from);
        },
    }
}

/// The end of a connection that has been replaced does not take the replacement out.
pub proof fn stale_connection_is_ignored(
    viewers: ViewersView,
    from: Seq<char>,
    stale: u64,
    state: ConnectionState,
)
    requires
        viewers.connections.dom().contains(from),
        viewers.connections[from] != stale,
    ensures
        viewers.after_state(from, stale, state) == viewers,
{
}

/// No connection is forgotten: a viewer that making room for `from` takes out has its
/// connection closed.
pub proof fn removed_connections_are_closed(viewers: ViewersView, from: Seq<char>, id: Seq<char>)
    requires
        viewers.consistent(),
        viewers.connections.dom().contains(id),
        !viewers.with_room_for(from).connections.dom().contains(id),
    ensures
        viewers.closed_for(from).contains(viewers.connections[id]),
{
    lemma_without(viewers.order, from);
    let others = viewers.others(from);
    let k = viewers.surplus(from);
    let evicted = viewers.evicted(from);
    let ended = evicted.map_values(|id: Seq<char>| viewers.connections[id]);
    let closed = viewers.closed_for(from);
    let replaced = viewers.replaced(from);
    if id == from {
        assert(closed[0] == viewers.connections[id]);
    } else {
        assert(viewers.order.contains(id));
        assert(others.contains(id));
        let i = others.index_of(id);
        if i >= k {
            assert(viewers.staying(from)[i - k] == id);
            assert(viewers.staying(from).contains(id));
        }
        assert(evicted[i] == id);
        assert(ended[i] == viewers.connections[id]);
        assert(closed[replaced.len() + i] == ended[i]);
    }
}

} // verus!
