use vstd::prelude::*;

verus! {

/// A value that changes only by applying commands to it, one at a time.
///
/// Commands need not commute, nor be idempotent: what a command means is
/// what `applied` says of it. A value need not admit every command in every
/// state: `admits` says which it does, and `update` is for those alone.
/// What this crate proves of owners and views holds of every implementation
/// whose `can_apply` and `update` do what `admits` and `applied` say, as
/// they promise here.
pub trait Update: Sized {
    /// One change to the value.
    type Command;

    /// Whether `command` can be applied to `self` as it is.
    spec fn admits(self, command: Self::Command) -> bool;

    /// The value that `self` becomes when `command`, which it admits, is
    /// applied to it.
    spec fn applied(self, command: Self::Command) -> Self;

    /// Whether `command` can be applied to `self` as it is.
    fn can_apply(&self, command: &Self::Command) -> (r: bool)
        ensures
            r == self.admits(*command),
    ;

    /// Applies `command`, which `self` admits, in place.
    fn update(&mut self, command: Self::Command)
        requires
            old(self).admits(command),
        ensures
            *final(self) == old(self).applied(command),
    ;
}

/// The value that `state` becomes when `commands` are applied to it in
/// order, the first one first.
pub open spec fn applied_all<DATA: Update>(state: DATA, commands: Seq<DATA::Command>) -> DATA
    decreases commands.len(),
{
    if commands.len() == 0 {
        state
    } else {
        applied_all(state, commands.drop_last()).applied(commands.last())
    }
}

/// Whether `commands` can be applied to `state` in order: whether each of
/// them is admitted by what the commands before it have made of `state`.
pub open spec fn admitted_all<DATA: Update>(state: DATA, commands: Seq<DATA::Command>) -> bool
    decreases commands.len(),
{
    if commands.len() == 0 {
        true
    } else {
        &&& admitted_all(state, commands.drop_last())
        &&& applied_all(state, commands.drop_last()).admits(commands.last())
    }
}

/// The number after `number`. Numbers go round: after the largest comes
/// zero.
pub open spec fn next_number(number: u64) -> u64 {
    if number == u64::MAX {
        0
    } else {
        (number + 1) as u64
    }
}

/// The number that comes `steps` numbers after `version`.
pub open spec fn number_after(version: u64, steps: nat) -> u64
    decreases steps,
{
    if steps == 0 {
        version
    } else {
        next_number(number_after(version, (steps - 1) as nat))
    }
}

/// How many numbers `number` comes after `version`, counted round.
pub open spec fn distance(number: u64, version: u64) -> int {
    if number >= version {
        number - version
    } else {
        number - version + 0x1_0000_0000_0000_0000
    }
}

/// Whether the command numbered `number` is news to a mirror at `version`:
/// whether it comes after `version` by less than half of all numbers. Any
/// other number is that of a command which is part of the mirror's value
/// already.
pub open spec fn is_ahead(number: u64, version: u64) -> bool {
    0 < distance(number, version) < 0x8000_0000_0000_0000
}

/// Whether the command numbered `number` is news to a mirror at `version`.
pub fn ahead_of(number: u64, version: u64) -> (r: bool)
    ensures
        r == is_ahead(number, version),
{
    let gap: u64 = number.wrapping_sub(version);
    gap != 0 && gap < 0x8000_0000_0000_0000
}

/// The stream that an owner at `version` publishes for `commands`: each
/// command with the number after its predecessor's, the first with the
/// number after `version`.
pub open spec fn numbered<DATA: Update>(version: u64, commands: Seq<DATA::Command>) -> Seq<
    (u64, DATA::Command),
> {
    Seq::new(commands.len(), |i: int| (number_after(version, (i + 1) as nat), commands[i]))
}

/// Going `first` numbers on and then `second` more is going `first +
/// second` numbers on.
pub proof fn lemma_number_after_add(version: u64, first: nat, second: nat)
    ensures
        number_after(number_after(version, first), second) == number_after(
            version,
            first + second,
        ),
    decreases second,
{
    if second > 0 {
        lemma_number_after_add(version, first, (second - 1) as nat);
    }
}

/// A number that comes `later - sooner` numbers after another is that far
/// from it, as long as that is less than all numbers there are.
pub proof fn lemma_distance_of_numbers(version: u64, sooner: nat, later: nat)
    requires
        sooner <= later,
        later - sooner < 0x1_0000_0000_0000_0000,
    ensures
        distance(number_after(version, later), number_after(version, sooner)) == later - sooner,
    decreases later - sooner,
{
    if later > sooner {
        lemma_distance_of_numbers(version, sooner, (later - 1) as nat);
    }
}

/// A command is news to a mirror at the version before it, and is part of
/// the value of every mirror at its own version or at one of fewer than
/// half of all numbers after it.
pub proof fn lemma_ahead_of_numbers(version: u64, sooner: nat, later: nat)
    requires
        sooner <= later,
        later - sooner <= 0x8000_0000_0000_0000,
    ensures
        is_ahead(number_after(version, sooner + 1), number_after(version, sooner)),
        !is_ahead(number_after(version, sooner), number_after(version, later)),
{
    lemma_distance_of_numbers(version, sooner, later);
    lemma_distance_of_numbers(version, sooner, sooner + 1);
}

/// Applying `first ++ second` is applying `second` to the result of `first`.
pub proof fn lemma_applied_all_concat<DATA: Update>(
    state: DATA,
    first: Seq<DATA::Command>,
    second: Seq<DATA::Command>,
)
    ensures
        applied_all(state, first + second) == applied_all(applied_all(state, first), second),
    decreases second.len(),
{
    if second.len() == 0 {
        assert(first + second =~= first);
    } else {
        lemma_applied_all_concat(state, first, second.drop_last());
        assert((first + second).drop_last() =~= first + second.drop_last());
    }
}

/// `first ++ second` can be applied exactly if `first` can, and `second` to
/// the result of `first`.
pub proof fn lemma_admitted_all_concat<DATA: Update>(
    state: DATA,
    first: Seq<DATA::Command>,
    second: Seq<DATA::Command>,
)
    ensures
        admitted_all(state, first + second) <==> admitted_all(state, first) && admitted_all(
            applied_all(state, first),
            second,
        ),
    decreases second.len(),
{
    if second.len() == 0 {
        assert(first + second =~= first);
    } else {
        lemma_admitted_all_concat(state, first, second.drop_last());
        lemma_applied_all_concat(state, first, second.drop_last());
        assert((first + second).drop_last() =~= first + second.drop_last());
    }
}

} // verus!
