use crate::address::addressable;
use crate::address::Address;
use crate::address::AddressText;
use crate::error::Error;
use crate::frame::frame;
use crate::frame::framed;
use crate::frame::lemma_frame_read_as_written;
use crate::frame::read_frame;
use crate::identity::fresh_uuid;
use crate::identity::is_hyphenated_uuid;
use crate::identity::lemma_uuid_simply_parted;
use crate::key::is_simple;
use crate::key::KeyExpr;
use crate::update::applied_all;
use crate::update::next_number;
use crate::update::number_after;
use crate::update::numbered;
use crate::update::Update;
use vstd::prelude::*;
use vstd::string::StrSliceExecFns;
use vstd::utf8::encode_utf8;

verus! {

/// What an owner is, as contracts speak of it.
pub struct ValueState<DATA> {
    /// The value that the owner holds.
    pub state: DATA,
    /// The number of the last command that the owner has applied: how
    /// many it has applied, counted round.
    pub version: u64,
    /// Whether the owner still answers and publishes.
    pub live: bool,
    /// Where the owner is found.
    pub address: AddressText,
}

/// The authoritative copy of a shared value.
///
/// The owner applies commands to its value and numbers them as it goes.
/// It hands out what the transport is to send: the numbered command for the
/// update topic, the numbered snapshot for a query on the data topic, and
/// its instance identifier for a query on the instance topic. Once closed it
/// hands out nothing more.
pub struct ZSharedValue<DATA: Update> {
    data: DATA,
    version: u64,
    live: bool,
    address: Address,
}

impl<DATA: Update> View for ZSharedValue<DATA> {
    type V = ValueState<DATA>;

    closed spec fn view(&self) -> ValueState<DATA> {
        ValueState {
            state: self.data,
            version: self.version,
            live: self.live,
            address: self.address@,
        }
    }
}

impl<DATA: Update> ZSharedValue<DATA> {
    /// An owner of `data` under `name` in `workspace`, with a new random
    /// instance identifier, at version 0. Fails with `Error::Address` where
    /// the transport does not accept one of the three topics that the new
    /// identifier gives, which is never so where `workspace` and `name` are
    /// simple.
    pub fn new(data: DATA, workspace: &KeyExpr, name: KeyExpr) -> (r: Result<Self, Error>)
        ensures
            match r {
                Ok(value) => {
                    &&& value@.state == data
                    &&& value@.version == 0
                    &&& value@.live
                    &&& value@.address.workspace == workspace@
                    &&& value@.address.name == name@
                    &&& is_hyphenated_uuid(value@.address.instance)
                    &&& addressable(value@.address)
                },
                Err(e) => {
                    &&& e == Error::Address
                    &&& exists|id: Seq<char>|
                        is_hyphenated_uuid(id) && !#[trigger] addressable(
                            AddressText { workspace: workspace@, instance: id, name: name@ },
                        )
                },
            },
            is_simple(workspace@) && is_simple(name@) ==> r is Ok,
    {
        let id = fresh_uuid();
        proof {
            lemma_uuid_simply_parted(id@);
        }
        match KeyExpr::new(id.as_str()) {
            Ok(instance) => Self::with_instance(data, workspace, instance, name),
            Err(e) => Err(e),
        }
    }

    /// An owner of `data` at the address `(workspace, instance, name)`, at
    /// version 0. Fails with `Error::Address` exactly where the transport
    /// does not accept one of the three topics of that address, which is
    /// never so where the three texts are simple.
    pub fn with_instance(data: DATA, workspace: &KeyExpr, instance: KeyExpr, name: KeyExpr) -> (r:
        Result<Self, Error>)
        ensures
            match r {
                Ok(value) => {
                    &&& value@ == (ValueState {
                        state: data,
                        version: 0,
                        live: true,
                        address: AddressText {
                            workspace: workspace@,
                            instance: instance@,
                            name: name@,
                        },
                    })
                    &&& addressable(value@.address)
                },
                Err(e) => e == Error::Address && !addressable(
                    AddressText { workspace: workspace@, instance: instance@, name: name@ },
                ),
            },
            is_simple(workspace@) && is_simple(instance@) && is_simple(name@) ==> r is Ok,
    {
        match Address::new(workspace, instance, name) {
            Ok(address) => Ok(ZSharedValue { data, version: 0, live: true, address }),
            Err(e) => Err(e),
        }
    }

    /// The value as it is now.
    pub fn read(&self) -> (r: &DATA)
        ensures
            *r == self@.state,
    {
        &self.data
    }

    /// The name under which the value is shared.
    pub fn name(&self) -> (r: &KeyExpr)
        ensures
            r@ == self@.address.name,
    {
        self.address.name()
    }

    /// Where this owner is found, with its three topics.
    pub fn address(&self) -> (r: &Address)
        ensures
            r@ == self@.address,
    {
        &self.address
    }

    /// How many commands this owner has applied.
    pub fn version(&self) -> (r: u64)
        ensures
            r == self@.version,
    {
        self.version
    }

    /// Whether this owner still answers queries and publishes commands.
    pub fn is_live(&self) -> (r: bool)
        ensures
            r == self@.live,
    {
        self.live
    }

    /// The reply to a snapshot query: `encoded`, which the caller has made
    /// of `read()`, framed under the version that it was read at. A closed
    /// owner does not reply.
    pub fn snapshot(&self, encoded: &[u8]) -> (r: Option<Vec<u8>>)
        ensures
            match r {
                Some(reply) => snapshot_reply(self@, encoded@) == Some(reply@),
                None => snapshot_reply(self@, encoded@) is None,
            },
    {
        if self.live {
            Some(frame(self.version, encoded))
        } else {
            None
        }
    }

    /// The reply to a query on the instance topic: the instance identifier
    /// in UTF-8. A closed owner does not reply.
    pub fn instance_reply(&self) -> (r: Option<Vec<u8>>)
        ensures
            match r {
                Some(reply) => instance_answer(self@) == Some(reply@),
                None => instance_answer(self@) is None,
            },
    {
        if self.live {
            Some(self.address.instance().as_str().as_bytes_vec())
        } else {
            None
        }
    }

    /// The message to publish for the next command, of which `encoded` is
    /// the encoding: the command framed under the number after this owner's
    /// version. Fails with `Error::Transport` exactly where nothing can be
    /// published any more: where the owner is closed.
    pub fn command_message(&self, encoded: &[u8]) -> (r: Result<Vec<u8>, Error>)
        ensures
            match r {
                Ok(message) => next_message(self@, encoded@) == Some(message@),
                Err(e) => e == Error::Transport && next_message(self@, encoded@) is None,
            },
    {
        if self.live {
            Ok(frame(self.version.wrapping_add(1), encoded))
        } else {
            Err(Error::Transport)
        }
    }

    /// Whether the value admits `command` as it is now.
    pub fn admits(&self, command: &DATA::Command) -> (r: bool)
        ensures
            r == self@.state.admits(*command),
    {
        self.data.can_apply(command)
    }

    /// Applies `command`, which the value admits, and takes the next number
    /// for its version.
    pub fn update(&mut self, command: DATA::Command)
        requires
            old(self)@.state.admits(command),
        ensures
            final(self)@ == stepped(old(self)@, command),
            final(self)@.state == old(self)@.state.applied(command),
    {
        self.data.update(command);
        self.version = self.version.wrapping_add(1);
    }

    /// Closes the owner: from now on it answers no query and publishes no
    /// command. Its value stays readable.
    pub fn close(&mut self)
        ensures
            final(self)@ == closed(old(self)@),
    {
        self.live = false;
    }
}

/// What `value` replies to a snapshot query, where `encoded` is the encoding
/// of its state: `encoded` framed under its version, or nothing once it is
/// closed.
pub open spec fn snapshot_reply<DATA>(value: ValueState<DATA>, encoded: Seq<u8>) -> Option<
    Seq<u8>,
> {
    if value.live {
        Some(framed(value.version, encoded))
    } else {
        None
    }
}

/// What `value` replies to a query on its instance topic: its instance
/// identifier in UTF-8, or nothing once it is closed.
pub open spec fn instance_answer<DATA>(value: ValueState<DATA>) -> Option<Seq<u8>> {
    if value.live {
        Some(encode_utf8(value.address.instance))
    } else {
        None
    }
}

/// What `value` publishes for its next command, where `encoded` is the
/// encoding of that command: `encoded` framed under the number after its
/// version, or nothing once it is closed.
pub open spec fn next_message<DATA>(value: ValueState<DATA>, encoded: Seq<u8>) -> Option<Seq<u8>> {
    if value.live {
        Some(framed(next_number(value.version), encoded))
    } else {
        None
    }
}

/// What `value` becomes when it is closed.
pub open spec fn closed<DATA>(value: ValueState<DATA>) -> ValueState<DATA> {
    ValueState { live: false, ..value }
}

/// What `value` becomes when it applies `command`: the command is applied
/// to the state and the version goes on to the next number, the rest stays.
pub open spec fn stepped<DATA: Update>(value: ValueState<DATA>, command: DATA::Command) -> ValueState<
    DATA,
> {
    ValueState {
        state: value.state.applied(command),
        version: next_number(value.version),
        ..value
    }
}

/// What `value` becomes when it applies `commands` in order.
pub open spec fn stepped_all<DATA: Update>(
    value: ValueState<DATA>,
    commands: Seq<DATA::Command>,
) -> ValueState<DATA>
    decreases commands.len(),
{
    if commands.len() == 0 {
        value
    } else {
        stepped(stepped_all(value, commands.drop_last()), commands.last())
    }
}

/// An owner applies its commands in the order in which it was given them,
/// and numbers them: after `commands` it holds what applying them in order
/// gives, at the number of the last of them. This holds of any number of
/// commands.
pub proof fn lemma_owner_applies_in_order<DATA: Update>(
    value: ValueState<DATA>,
    commands: Seq<DATA::Command>,
)
    ensures
        stepped_all(value, commands) == (ValueState {
            state: applied_all(value.state, commands),
            version: number_after(value.version, commands.len()),
            ..value
        }),
    decreases commands.len(),
{
    if commands.len() > 0 {
        lemma_owner_applies_in_order(value, commands.drop_last());
    }
}

/// What `value` publishes while it applies `commands` in order, where
/// `encode` is the encoding of commands: for each command the message that
/// it has to publish just before it applies that command, or nothing where
/// it has none to publish.
pub open spec fn published<DATA: Update>(
    value: ValueState<DATA>,
    commands: Seq<DATA::Command>,
    encode: spec_fn(DATA::Command) -> Seq<u8>,
) -> Seq<Option<Seq<u8>>> {
    Seq::new(
        commands.len(),
        |i: int| next_message(stepped_all(value, commands.take(i)), encode(commands[i])),
    )
}

/// An owner publishes its commands in the order in which it applies them:
/// a live owner has a message for each of `commands`, however many they
/// are. Where the codec gives back what it was given, a reader reads from
/// these messages the commands in the same order, numbered from the number
/// after `value.version` on.
pub proof fn lemma_owner_publishes_in_order<DATA: Update>(
    value: ValueState<DATA>,
    commands: Seq<DATA::Command>,
    encode: spec_fn(DATA::Command) -> Seq<u8>,
    decode: spec_fn(Seq<u8>) -> Option<DATA::Command>,
)
    requires
        value.live,
        forall|i: int|
            0 <= i < commands.len() ==> decode(encode(#[trigger] commands[i])) == Some(
                commands[i],
            ),
    ensures
        forall|i: int|
            0 <= i < commands.len() ==> {
                &&& (#[trigger] published(value, commands, encode)[i]) is Some
                &&& read_frame(published(value, commands, encode)[i].unwrap(), decode) == Some(
                    numbered::<DATA>(value.version, commands)[i],
                )
            },
{
    assert forall|i: int| 0 <= i < commands.len() implies {
        &&& (#[trigger] published(value, commands, encode)[i]) is Some
        &&& read_frame(published(value, commands, encode)[i].unwrap(), decode) == Some(
            numbered::<DATA>(value.version, commands)[i],
        )
    } by {
        lemma_owner_applies_in_order(value, commands.take(i));
        lemma_frame_read_as_written(
            number_after(value.version, (i + 1) as nat),
            commands[i],
            encode,
            decode,
        );
    }
}

/// A snapshot goes over the wire unchanged: where the codec gives back the
/// state that it was given, a reader reads from the reply of a live owner
/// the owner's version and state.
pub proof fn lemma_snapshot_read_as_written<DATA: Update>(
    value: ValueState<DATA>,
    encode: spec_fn(DATA) -> Seq<u8>,
    decode: spec_fn(Seq<u8>) -> Option<DATA>,
)
    requires
        value.live,
        decode(encode(value.state)) == Some(value.state),
    ensures
        snapshot_reply(value, encode(value.state)) is Some,
        read_frame(snapshot_reply(value, encode(value.state)).unwrap(), decode) == Some(
            (value.version, value.state),
        ),
{
    lemma_frame_read_as_written(value.version, value.state, encode, decode);
}

/// A command goes over the wire unchanged: where the codec gives back the
/// command that it was given, a reader reads from the message that a live
/// owner publishes for it the command and the number after the owner's
/// version.
pub proof fn lemma_command_read_as_written<DATA: Update>(
    value: ValueState<DATA>,
    command: DATA::Command,
    encode: spec_fn(DATA::Command) -> Seq<u8>,
    decode: spec_fn(Seq<u8>) -> Option<DATA::Command>,
)
    requires
        value.live,
        decode(encode(command)) == Some(command),
    ensures
        next_message(value, encode(command)) is Some,
        read_frame(next_message(value, encode(command)).unwrap(), decode) == Some(
            (next_number(value.version), command),
        ),
{
    lemma_frame_read_as_written(next_number(value.version), command, encode, decode);
}

/// A closed owner is silent, and stays so: it replies to no query and
/// publishes no command, whatever it applies afterwards.
pub proof fn lemma_closed_owner_is_silent<DATA: Update>(
    value: ValueState<DATA>,
    commands: Seq<DATA::Command>,
    encoded: Seq<u8>,
)
    ensures
        snapshot_reply(stepped_all(closed(value), commands), encoded) is None,
        instance_answer(stepped_all(closed(value), commands)) is None,
        next_message(stepped_all(closed(value), commands), encoded) is None,
    decreases commands.len(),
{
    if commands.len() > 0 {
        lemma_closed_owner_is_silent(value, commands.drop_last(), encoded);
    }
}

} // verus!
