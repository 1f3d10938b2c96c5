use crate::address::addressable;
use crate::address::Address;
use crate::address::AddressText;
use crate::error::Error;
use crate::key::is_simple;
use crate::key::KeyExpr;
use crate::update::admitted_all;
use crate::update::ahead_of;
use crate::update::applied_all;
use crate::update::is_ahead;
use crate::update::lemma_admitted_all_concat;
use crate::update::lemma_ahead_of_numbers;
use crate::update::lemma_applied_all_concat;
use crate::update::lemma_number_after_add;
use crate::update::number_after;
use crate::update::numbered;
use crate::update::Update;
use vstd::prelude::*;

verus! {

/// What a view is, as contracts speak of it.
pub struct ViewState<DATA: Update> {
    /// The mirrored value.
    pub state: DATA,
    /// The number of the last command that is part of `state`.
    pub version: u64,
    /// Whether the snapshot has arrived.
    pub ready: bool,
    /// The numbered commands that arrived before the snapshot, in the order
    /// of their arrival.
    pub pending: Seq<(u64, DATA::Command)>,
    /// How many messages were dropped because they could not be read.
    pub dropped: u64,
    /// Where the mirrored owner is found.
    pub address: AddressText,
}

/// What `view` becomes when the command numbered `number` reaches it. A
/// view that waits for its snapshot keeps the command for later. A view
/// that is ready leaves aside a command that is no news to it, which is
/// part of its value already; it applies any other that its value admits,
/// and takes its number for its version; it counts and drops one that its
/// value does not admit.
pub open spec fn updated<DATA: Update>(
    view: ViewState<DATA>,
    number: u64,
    command: DATA::Command,
) -> ViewState<DATA> {
    if !view.ready {
        ViewState { pending: view.pending.push((number, command)), ..view }
    } else if !is_ahead(number, view.version) {
        view
    } else if view.state.admits(command) {
        ViewState { state: view.state.applied(command), version: number, ..view }
    } else {
        dropped_one(view)
    }
}

/// What `view` becomes when the numbered commands of `messages` reach it in
/// order.
pub open spec fn updated_all<DATA: Update>(
    view: ViewState<DATA>,
    messages: Seq<(u64, DATA::Command)>,
) -> ViewState<DATA>
    decreases messages.len(),
{
    if messages.len() == 0 {
        view
    } else {
        updated(updated_all(view, messages.drop_last()), messages.last().0, messages.last().1)
    }
}

/// What `view` becomes when it drops a message that it cannot use.
pub open spec fn dropped_one<DATA: Update>(view: ViewState<DATA>) -> ViewState<DATA> {
    ViewState {
        dropped: if view.dropped < u64::MAX {
            (view.dropped + 1) as u64
        } else {
            u64::MAX
        },
        ..view
    }
}

/// What `view` becomes when `message` reaches it.
pub open spec fn received<DATA: Update>(
    view: ViewState<DATA>,
    message: Option<(u64, DATA::Command)>,
) -> ViewState<DATA> {
    match message {
        Some((number, command)) => updated(view, number, command),
        None => dropped_one(view),
    }
}

/// What a view that waits becomes at the moment at which the snapshot
/// `state`, taken at `version`, reaches it: it holds `state` at `version`,
/// is ready, and keeps nothing.
pub open spec fn started<DATA: Update>(
    view: ViewState<DATA>,
    version: u64,
    state: DATA,
) -> ViewState<DATA> {
    ViewState { state, version, ready: true, pending: Seq::empty(), ..view }
}

/// What `view` becomes when the snapshot `state`, taken at `version`,
/// reaches it: a view that waits for it starts from `state` and then takes
/// the commands that it has kept as if they arrived now, in the same order;
/// a view that is ready already stays as it is.
pub open spec fn bootstrapped<DATA: Update>(
    view: ViewState<DATA>,
    version: u64,
    state: DATA,
) -> ViewState<DATA> {
    if view.ready {
        view
    } else {
        updated_all(started(view, version, state), view.pending)
    }
}

/// A read-only mirror of the value of one owner.
///
/// A view starts out waiting for a snapshot. Commands that reach it while
/// it waits are kept, not applied. The snapshot brings a value and the
/// version at which the owner held it; of the commands kept, those numbered
/// above that version are then applied in the order of their arrival, and
/// the view is ready. From then on each command is applied as it arrives,
/// unless its number shows that it is part of the value already. A command
/// that the value does not admit is counted and dropped, as a message that
/// could not be read is.
pub struct ZSharedView<DATA: Update> {
    data: DATA,
    version: u64,
    ready: bool,
    pending: Vec<(u64, DATA::Command)>,
    dropped: u64,
    address: Address,
}

impl<DATA: Update> View for ZSharedView<DATA> {
    type V = ViewState<DATA>;

    closed spec fn view(&self) -> ViewState<DATA> {
        ViewState {
            state: self.data,
            version: self.version,
            ready: self.ready,
            pending: self.pending@,
            dropped: self.dropped,
            address: self.address@,
        }
    }
}

impl<DATA: Update> ZSharedView<DATA> {
    /// A view of the owner at `(workspace, instance, name)` that waits for
    /// its snapshot and holds meanwhile what `DATA::default` gives. Fails with
    /// `Error::Address` exactly where the transport does not accept one of
    /// the topics of that address, which is never so where the three texts
    /// are simple.
    pub fn new(workspace: &KeyExpr, instance: KeyExpr, name: KeyExpr) -> (r: Result<Self, Error>)
        where DATA: Default
        ensures
            match r {
                Ok(view) => {
                    &&& call_ensures(DATA::default, (), view@.state)
                    &&& view@.version == 0
                    &&& !view@.ready
                    &&& view@.pending == Seq::<(u64, DATA::Command)>::empty()
                    &&& view@.dropped == 0
                    &&& view@.address == (AddressText {
                        workspace: workspace@,
                        instance: instance@,
                        name: name@,
                    })
                    &&& addressable(view@.address)
                },
                Err(e) => e == Error::Address && !addressable(
                    AddressText { workspace: workspace@, instance: instance@, name: name@ },
                ),
            },
            is_simple(workspace@) && is_simple(instance@) && is_simple(name@) ==> r is Ok,
    {
        Self::with_state(DATA::default(), workspace, instance, name)
    }

    /// A view of the owner at `(workspace, instance, name)` that waits for
    /// its snapshot and holds `initial` meanwhile. Fails with
    /// `Error::Address` exactly where the transport does not accept one of
    /// the topics of that address, which is never so where the three texts
    /// are simple.
    pub fn with_state(initial: DATA, workspace: &KeyExpr, instance: KeyExpr, name: KeyExpr) -> (r:
        Result<Self, Error>)
        ensures
            match r {
                Ok(view) => {
                    &&& view@ == (ViewState {
                        state: initial,
                        version: 0,
                        ready: false,
                        pending: Seq::empty(),
                        dropped: 0,
                        address: AddressText {
                            workspace: workspace@,
                            instance: instance@,
                            name: name@,
                        },
                    })
                    &&& addressable(view@.address)
                },
                Err(e) => e == Error::Address && !addressable(
                    AddressText { workspace: workspace@, instance: instance@, name: name@ },
                ),
            },
            is_simple(workspace@) && is_simple(instance@) && is_simple(name@) ==> r is Ok,
    {
        match Address::new(workspace, instance, name) {
            Ok(address) => Ok(
                ZSharedView {
                    data: initial,
                    version: 0,
                    ready: false,
                    pending: Vec::new(),
                    dropped: 0,
                    address,
                },
            ),
            Err(e) => Err(e),
        }
    }

    /// The mirrored value as it is now.
    pub fn read(&self) -> (r: &DATA)
        ensures
            *r == self@.state,
    {
        &self.data
    }

    /// The name under which the value is shared.
    pub fn name(&self) -> (r: &KeyExpr)
        ensures
            r@ == self@.address.name,
    {
        self.address.name()
    }

    /// The identifier of the owner that this view mirrors.
    pub fn instance(&self) -> (r: &KeyExpr)
        ensures
            r@ == self@.address.instance,
    {
        self.address.instance()
    }

    /// Where the mirrored owner is found, with its topics.
    pub fn address(&self) -> (r: &Address)
        ensures
            r@ == self@.address,
    {
        &self.address
    }

    /// The number of the last command that is part of the mirrored value.
    pub fn version(&self) -> (r: u64)
        ensures
            r == self@.version,
    {
        self.version
    }

    /// Whether the snapshot has arrived.
    pub fn is_ready(&self) -> (r: bool)
        ensures
            r == self@.ready,
    {
        self.ready
    }

    /// How many messages this view has dropped because they could not be
    /// read.
    pub fn dropped(&self) -> (r: u64)
        ensures
            r == self@.dropped,
    {
        self.dropped
    }

    /// Takes the command numbered `number` from the update topic. A view
    /// that waits for its snapshot keeps it for later. A view that is ready
    /// applies it, unless it is part of the value already; where the value
    /// does not admit it, the view counts and drops it.
    pub fn on_update(&mut self, number: u64, command: DATA::Command)
        ensures
            final(self)@ == updated(old(self)@, number, command),
    {
        if !self.ready {
            self.pending.push((number, command));
        } else if ahead_of(number, self.version) {
            if self.data.can_apply(&command) {
                self.data.update(command);
                self.version = number;
            } else {
                self.on_malformed();
            }
        }
    }

    /// Takes note of a message that could not be used, and leaves the value
    /// as it is. The count stays at the largest number once it is reached.
    pub fn on_malformed(&mut self)
        ensures
            final(self)@ == dropped_one(old(self)@),
    {
        if self.dropped < u64::MAX {
            self.dropped = self.dropped + 1;
        }
    }

    /// Takes the snapshot `state`, which the owner held at `version`. A
    /// view that waits for it starts from `state`, takes the commands that
    /// it has kept as if they arrived now, in the same order, and is ready.
    /// A view that is ready already ignores the snapshot.
    pub fn on_snapshot(&mut self, version: u64, state: DATA)
        ensures
            final(self)@ == bootstrapped(old(self)@, version, state),
            !old(self)@.ready && old(self)@.pending.len() == 0 ==> final(self)@ == started(
                old(self)@,
                version,
                state,
            ),
    {
        if self.ready {
            return ;
        }
        let ghost start = started(self@, version, state);
        let mut kept: Vec<(u64, DATA::Command)> = Vec::new();
        core::mem::swap(&mut self.pending, &mut kept);
        let ghost all = kept@;
        self.data = state;
        self.version = version;
        self.ready = true;
        assert(self@ == start);
        for message in it: kept
            invariant
                it.seq() == all,
                self@ == updated_all(start, all.take(it.index() as int)),
        {
            proof {
                assert(all.take(it.index() + 1).drop_last() =~= all.take(it.index() as int));
            }
            let (number, command) = message;
            self.on_update(number, command);
        }
        proof {
            assert(all.take(all.len() as int) =~= all);
        }
    }

    /// Takes one message from the update topic as far as it could be read:
    /// the numbered command that it held, or `None` for a message that
    /// could not be taken apart or decoded. A command goes the way of
    /// `on_update`; a message that could not be read is counted and dropped,
    /// and the value stays as it is.
    pub fn on_message(&mut self, message: Option<(u64, DATA::Command)>)
        ensures
            final(self)@ == received(old(self)@, message),
    {
        match message {
            Some((number, command)) => self.on_update(number, command),
            None => self.on_malformed(),
        }
    }

    /// Takes one reply to the snapshot query as far as it could be read:
    /// `None` for a reply that reports an error, `Some(None)` for one that
    /// could not be taken apart or decoded, and else the version and the
    /// value that it held. An error reply changes nothing and the wait goes
    /// on, which `Ok(false)` says. A reply that could not be read changes
    /// nothing and fails with `Error::Codec`. A snapshot goes the way of
    /// `on_snapshot` and ends the wait, which `Ok(true)` says.
    pub fn on_query_reply(&mut self, reply: Option<Option<(u64, DATA)>>) -> (r: Result<
        bool,
        Error,
    >)
        ensures
            match reply {
                None => r == Ok::<bool, Error>(false) && final(self)@ == old(self)@,
                Some(None) => r == Err::<bool, Error>(Error::Codec) && final(self)@ == old(
                    self,
                )@,
                Some(Some((version, state))) => r == Ok::<bool, Error>(true) && final(self)@
                    == bootstrapped(old(self)@, version, state),
            },
    {
        match reply {
            None => Ok(false),
            Some(None) => Err(Error::Codec),
            Some(Some((version, state))) => {
                self.on_snapshot(version, state);
                Ok(true)
            },
        }
    }

    /// Says whether the bounded wait for the snapshot ended well: fails with
    /// `Error::BootstrapTimeout` exactly where the view is not ready.
    pub fn check_ready(&self) -> (r: Result<(), Error>)
        ensures
            match r {
                Ok(_) => self@.ready,
                Err(e) => e == Error::BootstrapTimeout && !self@.ready,
            },
    {
        if self.ready {
            Ok(())
        } else {
            Err(Error::BootstrapTimeout)
        }
    }
}

/// Taking `first ++ second` is taking `second` after `first`.
pub proof fn lemma_updated_all_concat<DATA: Update>(
    view: ViewState<DATA>,
    first: Seq<(u64, DATA::Command)>,
    second: Seq<(u64, DATA::Command)>,
)
    ensures
        updated_all(view, first + second) == updated_all(updated_all(view, first), second),
    decreases second.len(),
{
    if second.len() == 0 {
        assert(first + second =~= first);
    } else {
        lemma_updated_all_concat(view, first, second.drop_last());
        assert((first + second).drop_last() =~= first + second.drop_last());
    }
}

/// A view that waits for its snapshot keeps what reaches it, in the order of
/// arrival, and is otherwise unchanged.
pub proof fn lemma_waiting_view_keeps<DATA: Update>(
    view: ViewState<DATA>,
    messages: Seq<(u64, DATA::Command)>,
)
    requires
        !view.ready,
    ensures
        updated_all(view, messages) == (ViewState {
            pending: view.pending + messages,
            ..view
        }),
    decreases messages.len(),
{
    if messages.len() == 0 {
        assert(view.pending + messages =~= view.pending);
    } else {
        lemma_waiting_view_keeps(view, messages.drop_last());
        assert((view.pending + messages.drop_last()).push(messages.last()) =~= view.pending
            + messages);
    }
}

/// A ready view leaves aside what is part of its value already: commands
/// that are no news to it change nothing.
pub proof fn lemma_ready_view_skips_stale<DATA: Update>(
    view: ViewState<DATA>,
    messages: Seq<(u64, DATA::Command)>,
)
    requires
        view.ready,
        forall|i: int|
            0 <= i < messages.len() ==> !is_ahead((#[trigger] messages[i]).0, view.version),
    ensures
        updated_all(view, messages) == view,
    decreases messages.len(),
{
    if messages.len() > 0 {
        lemma_ready_view_skips_stale(view, messages.drop_last());
    }
}

/// A view that is ready stays ready whatever reaches it, and every view is
/// ready once a snapshot has reached it.
pub proof fn lemma_ready_view_stays_ready<DATA: Update>(
    view: ViewState<DATA>,
    messages: Seq<(u64, DATA::Command)>,
    message: Option<(u64, DATA::Command)>,
    version: u64,
    state: DATA,
)
    ensures
        view.ready ==> updated_all(view, messages).ready,
        view.ready ==> received(view, message).ready,
        bootstrapped(view, version, state).ready,
    decreases messages.len(),
{
    if messages.len() > 0 {
        lemma_ready_view_stays_ready(view, messages.drop_last(), message, version, state);
    }
    lemma_started_view_stays_ready(started(view, version, state), view.pending);
}

/// A ready view is ready after any commands.
proof fn lemma_started_view_stays_ready<DATA: Update>(
    view: ViewState<DATA>,
    messages: Seq<(u64, DATA::Command)>,
)
    requires
        view.ready,
    ensures
        updated_all(view, messages).ready,
    decreases messages.len(),
{
    if messages.len() > 0 {
        lemma_started_view_stays_ready(view, messages.drop_last());
    }
}

/// A ready view applies commands in the order of their publication: when
/// `commands`, which its value admits in that order, reach it as their
/// owner publishes them, numbered from the number after its version on, it
/// ends in the state that applying them in that order gives, at the number
/// of the last one, and has dropped none. This holds of any number of
/// commands.
pub proof fn lemma_ready_view_applies_in_order<DATA: Update>(
    view: ViewState<DATA>,
    commands: Seq<DATA::Command>,
)
    requires
        view.ready,
        admitted_all(view.state, commands),
    ensures
        updated_all(view, numbered::<DATA>(view.version, commands)) == (ViewState {
            state: applied_all(view.state, commands),
            version: number_after(view.version, commands.len()),
            ..view
        }),
    decreases commands.len(),
{
    if commands.len() > 0 {
        lemma_ready_view_applies_in_order(view, commands.drop_last());
        assert(numbered::<DATA>(view.version, commands).drop_last() =~= numbered::<DATA>(
            view.version,
            commands.drop_last(),
        ));
        let before = (commands.len() - 1) as nat;
        lemma_ahead_of_numbers(view.version, before, before);
    }
}

/// A view ends where its owner is, whenever the snapshot arrives.
///
/// Take an owner that held `base` at version `version` when a new view
/// subscribed, and that then applied and published `commands`. The owner
/// answered the snapshot query after the first `taken` of them, which are
/// no more than half of all numbers; the answer reached the view after the
/// first `arrived` of them had. Once all of `commands` have reached the
/// view, it is ready and holds what the owner holds, at the owner's
/// version: no command is lost, none is applied twice and none is dropped.
pub proof fn lemma_view_tracks_owner<DATA: Update>(
    view: ViewState<DATA>,
    base: DATA,
    version: u64,
    commands: Seq<DATA::Command>,
    taken: int,
    arrived: int,
)
    requires
        !view.ready,
        view.pending.len() == 0,
        admitted_all(base, commands),
        0 <= taken <= commands.len(),
        taken <= 0x8000_0000_0000_0000,
        0 <= arrived <= commands.len(),
    ensures
        ({
            let stream = numbered::<DATA>(version, commands);
            let waiting = updated_all(view, stream.take(arrived));
            let snapshot = applied_all(base, commands.take(taken));
            let ready = bootstrapped(waiting, number_after(version, taken as nat), snapshot);
            let end = updated_all(ready, stream.skip(arrived));
            end == (ViewState {
                state: applied_all(base, commands),
                version: number_after(version, commands.len()),
                ready: true,
                pending: Seq::empty(),
                ..view
            })
        }),
{
    let stream = numbered::<DATA>(version, commands);
    let early = stream.take(arrived);
    let late = stream.skip(arrived);
    let waiting = updated_all(view, early);
    let snapshot = applied_all(base, commands.take(taken));
    let at = number_after(version, taken as nat);
    let start = started(waiting, at, snapshot);
    lemma_waiting_view_keeps(view, early);
    assert(view.pending + early =~= early);
    assert(start == started(view, at, snapshot));
    lemma_updated_all_concat(start, early, late);
    assert(early + late =~= stream);
    let stale = numbered::<DATA>(version, commands.take(taken));
    let fresh = numbered::<DATA>(at, commands.skip(taken));
    assert(stream =~= stale + fresh) by {
        assert forall|i: int| 0 <= i < stream.len() implies #[trigger] stream[i] == (stale
            + fresh)[i] by {
            if i >= taken {
                lemma_number_after_add(version, taken as nat, (i - taken + 1) as nat);
            }
        }
    }
    lemma_updated_all_concat(start, stale, fresh);
    assert forall|i: int| 0 <= i < stale.len() implies !is_ahead(
        (#[trigger] stale[i]).0,
        start.version,
    ) by {
        lemma_ahead_of_numbers(version, (i + 1) as nat, taken as nat);
    }
    lemma_ready_view_skips_stale(start, stale);
    assert(commands.take(taken) + commands.skip(taken) =~= commands);
    lemma_admitted_all_concat(base, commands.take(taken), commands.skip(taken));
    lemma_applied_all_concat(base, commands.take(taken), commands.skip(taken));
    lemma_ready_view_applies_in_order(start, commands.skip(taken));
    lemma_number_after_add(version, taken as nat, (commands.len() - taken) as nat);
}

} // verus!
