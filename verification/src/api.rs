//! The ports through which a wallet reaches what it does not hold itself.

use vstd::prelude::*;
use crate::primitives::Note;
use crate::MAX_MONEY;

verus! {

/// Why a backend could not answer.
#[derive(Clone, Copy, Debug, PartialEq, Eq)]
pub struct BackendError;

/// The place of a note: the transaction that holds it, and its place among
/// the outputs of that transaction.
#[derive(Clone, Copy, Debug, PartialEq, Eq)]
pub struct NoteRef {
    pub txid: [u8; 32],
    pub n: usize,
}

/// A store of the wallet's accounts and notes.
pub trait PersistenceBackend {
    /// The address of an account.
    fn get_address(&self, account: u32) -> Result<String, BackendError>;

    /// The note at a place.
    fn get_note(&self, note: NoteRef) -> Result<Note, BackendError>;

    /// The places of the notes that have not been spent.
    fn get_unspent_notes(&self) -> Result<Vec<NoteRef>, BackendError>;

    /// Keeps notes from being selected again while a transaction that
    /// spends them is under way.
    fn lock_notes(&mut self, notes: &[NoteRef]) -> Result<(), BackendError>;
}

/// A policy by which the notes to spend are chosen, such as: the oldest
/// first, until the value is reached.
pub trait NoteSelection {
    /// The places, among the unspent notes given, of the notes to spend for
    /// `value` zatoshis; `None` where the notes do not make up the value.
    fn select_notes(&self, unspent: &[Note], value: u64) -> Option<Vec<usize>>;
}

/// What the wallet tells its client of.
pub trait ClientCallbacks {
}

/// A wallet over a store, which tells a client. The store and the client
/// are of any kind that serves as such; where none is named, they are held
/// as trait objects.
pub struct WalletBackend<
    S: PersistenceBackend + ?Sized = dyn PersistenceBackend,
    C: ClientCallbacks + ?Sized = dyn ClientCallbacks,
> {
    storage: Box<S>,
    callbacks: Box<C>,
}

impl<S: PersistenceBackend + ?Sized, C: ClientCallbacks + ?Sized> WalletBackend<S, C> {
    /// The store of the wallet.
    pub closed spec fn store(&self) -> &S {
        &*self.storage
    }

    /// The client of the wallet.
    pub closed spec fn client(&self) -> &C {
        &*self.callbacks
    }

    /// A wallet over the given store, which tells the given client.
    pub fn init(storage: Box<S>, callbacks: Box<C>) -> (wallet: Self)
        ensures
            wallet.store() == &*storage,
            wallet.client() == &*callbacks,
    {
        WalletBackend { storage, callbacks }
    }

    /// The address of an account, as the store gives it.
    pub fn get_address(&self, account: u32) -> (address: Result<String, BackendError>)
        ensures
            call_ensures(S::get_address, (self.store(), account), address),
    {
        self.storage.get_address(account)
    }

    /// The notes that have not been spent, as the store gives them: the
    /// store is asked for their places, and then for the note at each place
    /// in turn. The first answer of the store that is an error ends the
    /// reading, and is the result.
    pub fn get_unspent_notes(&self) -> (listed: Result<Vec<Note>, BackendError>)
        ensures
            store_lists_notes(self.store(), listed),
    {
        let asked = self.storage.get_unspent_notes();
        let places = match asked {
            Ok(places) => places,
            Err(reason) => {
                let listed = Err(reason);
                assert(lists_as(self.store(), asked, listed));
                return listed;
            },
        };
        let mut notes: Vec<Note> = Vec::new();
        let mut i: usize = 0;
        while i < places.len()
            invariant
                i <= places@.len(),
                notes@.len() == i,
                asked == Ok::<Vec<NoteRef>, BackendError>(places),
                call_ensures(S::get_unspent_notes, (self.store(),), asked),
                store_gives_notes(self.store(), places@, notes@, i as int),
            decreases places@.len() - i,
        {
            let ghost read = notes@;
            match self.storage.get_note(places[i]) {
                Ok(note) => {
                    notes.push(note);
                    assert forall|k: int| 0 <= k < i + 1 implies #[trigger] call_ensures(
                        S::get_note,
                        (self.store(), places@[k]),
                        Ok::<Note, BackendError>(notes@[k]),
                    ) by {
                        if k < i {
                            assert(notes@[k] == read[k]);
                        }
                    }
                },
                Err(reason) => {
                    let listed = Err(reason);
                    assert(reading_stops(self.store(), places@, read, i as int, reason));
                    assert(asked->Ok_0@ == places@);
                    assert(lists_as(self.store(), asked, listed));
                    return listed;
                },
            }
            i += 1;
        }
        let listed = Ok(notes);
        assert(lists_as(self.store(), asked, listed));
        listed
    }

    /// The balance of the wallet: the sum of the values of the notes that
    /// have not been spent, as `get_unspent_notes` reads them. Where the
    /// notes cannot be read, or their sum is beyond the largest amount,
    /// there is no balance.
    pub fn get_balance(&self) -> (balance: Result<u64, BackendError>)
        ensures
            is_balance_of(self.store(), balance),
    {
        let listed = self.get_unspent_notes();
        let balance = match &listed {
            Ok(notes) => match sum_values(notes) {
                Some(total) => Ok(total),
                None => Err(BackendError),
            },
            Err(reason) => Err(*reason),
        };
        assert(store_lists_notes(self.store(), listed) && balance == balance_of(listed));
        balance
    }
}

/// Whether `notes` holds, at each of the first `upto` of `places`, the note
/// that a store gives for the place.
pub open spec fn store_gives_notes<S: PersistenceBackend + ?Sized>(
    store: &S,
    places: Seq<NoteRef>,
    notes: Seq<Note>,
    upto: int,
) -> bool {
    forall|k: int|
        0 <= k < upto ==> #[trigger] call_ensures(
            S::get_note,
            (store, places[k]),
            Ok::<Note, BackendError>(notes[k]),
        )
}

/// Whether the reading of notes stops at `at` for `reason`: the store has
/// given the notes `read` for the places before, and gives `reason` there.
pub open spec fn reading_stops<S: PersistenceBackend + ?Sized>(
    store: &S,
    places: Seq<NoteRef>,
    read: Seq<Note>,
    at: int,
    reason: BackendError,
) -> bool {
    &&& 0 <= at < places.len()
    &&& store_gives_notes(store, places, read, at)
    &&& call_ensures(S::get_note, (store, places[at]), Err::<Note, BackendError>(reason))
}

/// Whether `listed` is what the reading of the unspent notes comes to, once
/// a store has answered `asked` for their places: the error of the store;
/// or the notes that the store gives for the places, one for each in order;
/// or the first error that the store gives for a place.
pub open spec fn lists_as<S: PersistenceBackend + ?Sized>(
    store: &S,
    asked: Result<Vec<NoteRef>, BackendError>,
    listed: Result<Vec<Note>, BackendError>,
) -> bool {
    match asked {
        Err(reason) => listed == Err::<Vec<Note>, BackendError>(reason),
        Ok(places) => match listed {
            Ok(notes) => notes@.len() == places@.len() && store_gives_notes(
                store,
                places@,
                notes@,
                places@.len() as int,
            ),
            Err(reason) => exists|at: int, read: Seq<Note>|
                #[trigger] reading_stops(store, places@, read, at, reason),
        },
    }
}

/// Whether `listed` is what the reading of the unspent notes of a store
/// comes to, for some answer of the store to the question for their places.
pub open spec fn store_lists_notes<S: PersistenceBackend + ?Sized>(
    store: &S,
    listed: Result<Vec<Note>, BackendError>,
) -> bool {
    exists|asked: Result<Vec<NoteRef>, BackendError>|
        call_ensures(S::get_unspent_notes, (store,), asked) && #[trigger] lists_as(
            store,
            asked,
            listed,
        )
}

/// The balance that a reading of the unspent notes comes to: the sum of
/// the values of the notes, where it is no more than the largest amount.
pub open spec fn balance_of(listed: Result<Vec<Note>, BackendError>) -> Result<u64, BackendError> {
    match listed {
        Err(reason) => Err(reason),
        Ok(notes) => if total_value(notes@, notes@.len()) <= MAX_MONEY {
            Ok(total_value(notes@, notes@.len()) as u64)
        } else {
            Err(BackendError)
        },
    }
}

/// Whether `balance` is the balance of some reading of the unspent notes of
/// a store.
pub open spec fn is_balance_of<S: PersistenceBackend + ?Sized>(
    store: &S,
    balance: Result<u64, BackendError>,
) -> bool {
    exists|listed: Result<Vec<Note>, BackendError>|
        #[trigger] store_lists_notes(store, listed) && balance == balance_of(listed)
}

/// The sum of the values of the first `upto` notes.
pub open spec fn total_value(notes: Seq<Note>, upto: nat) -> nat
    decreases upto,
{
    if upto == 0 {
        0
    } else {
        total_value(notes, (upto - 1) as nat) + notes[upto - 1].value as nat
    }
}

/// The sum grows with the number of notes.
pub proof fn lemma_total_value_grows(notes: Seq<Note>, fewer: nat, more: nat)
    requires
        fewer <= more,
    ensures
        total_value(notes, fewer) <= total_value(notes, more),
    decreases more,
{
    if fewer < more {
        lemma_total_value_grows(notes, fewer, (more - 1) as nat);
    }
}

/// The sum of the values of notes, where it is no more than the largest
/// amount.
pub fn sum_values(notes: &Vec<Note>) -> (total: Option<u64>)
    ensures
        match total {
            Some(sum) => sum == total_value(notes@, notes@.len()) && sum <= MAX_MONEY,
            None => total_value(notes@, notes@.len()) > MAX_MONEY,
        },
{
    let mut sum: u64 = 0;
    let mut i: usize = 0;
    while i < notes.len()
        invariant
            i <= notes@.len(),
            sum == total_value(notes@, i as nat),
            sum <= MAX_MONEY,
        decreases notes@.len() - i,
    {
        let value = notes[i].value;
        if value > MAX_MONEY as u64 || sum > MAX_MONEY as u64 - value {
            proof {
                lemma_total_value_grows(notes@, (i + 1) as nat, notes@.len());
            }
            return None;
        }
        sum = sum + value;
        i += 1;
    }
    Some(sum)
}

/// A wallet on a handheld device.
pub struct AndroidWalletBackend(pub WalletBackend);

} // verus!
