//! Confirmations that only their owner can give, once, and within a time.

use vstd::prelude::*;

use crate::ordered::lookup;
use crate::text::{decimal, decimal_round_trip, decimal_text, text2};

verus! {

/// How long a confirmation can be given, in milliseconds.
pub const CONFIRMATION_TTL: u64 = 300_000;

/// What identifies a confirmation.
#[derive(Clone, Debug)]
pub struct ConfirmationToken {
    value: String,
}

impl View for ConfirmationToken {
    type V = Seq<char>;

    closed spec fn view(&self) -> Seq<char> {
        self.value@
    }
}

/// The identifier of the button that gives the confirmation with a token.
pub open spec fn button_id(token: Seq<char>) -> Seq<char> {
    "discord-management:role-apply:"@ + token
}

impl ConfirmationToken {
    /// The identifier of the button that gives the confirmation.
    pub fn custom_id(&self) -> (id: String)
        ensures
            id@ == button_id(self@),
    {
        text2("discord-management:role-apply:", self.value.as_str())
    }

    /// The same token.
    pub fn copy(&self) -> (copied: Self)
        ensures
            copied@ == self@,
    {
        ConfirmationToken { value: self.value.clone() }
    }
}

/// Why a confirmation is refused.
#[derive(Clone, Copy, Debug, PartialEq, Eq, Structural)]
pub enum ConfirmationError {
    Unknown,
    WrongOwner,
    Expired,
    AlreadyConsumed,
}

/// A confirmation that was asked for.
pub struct PendingConfirmation<T> {
    pub owner_id: u64,
    pub expires_at: u64,
    pub payload: Option<T>,
}

struct Entry<T> {
    token: String,
    pending: PendingConfirmation<T>,
}

/// The confirmations that were asked for.
pub struct ConfirmationStore<T> {
    entries: Vec<Entry<T>>,
}

/// What a store of confirmations holds: each of them under its token.
pub struct StoreView<T> {
    pub entries: Seq<(Seq<char>, PendingConfirmation<T>)>,
}

impl<T> StoreView<T> {
    /// A store of which nothing was asked yet.
    pub open spec fn empty() -> StoreView<T> {
        StoreView { entries: Seq::empty() }
    }
}

impl<T> View for ConfirmationStore<T> {
    type V = StoreView<T>;

    closed spec fn view(&self) -> StoreView<T> {
        StoreView { entries: self.entries@.map_values(|entry: Entry<T>| (entry.token@, entry.pending)) }
    }
}

/// Confirmations with one more, in place of one with the same token.
pub open spec fn with_pending<T>(
    entries: Seq<(Seq<char>, PendingConfirmation<T>)>,
    token: Seq<char>,
    pending: PendingConfirmation<T>,
) -> Seq<(Seq<char>, PendingConfirmation<T>)>
    decreases entries.len(),
{
    if entries.len() == 0 {
        seq![(token, pending)]
    } else if entries[0].0 == token {
        seq![(token, pending)] + entries.drop_first()
    } else {
        seq![entries[0]] + with_pending(entries.drop_first(), token, pending)
    }
}

/// A confirmation that was put under a token is found there, and all others as before.
pub proof fn pending_is_found<T>(
    entries: Seq<(Seq<char>, PendingConfirmation<T>)>,
    token: Seq<char>,
    pending: PendingConfirmation<T>,
    asked: Seq<char>,
)
    ensures
        lookup(with_pending(entries, token, pending), asked) == if asked == token {
            Some(pending)
        } else {
            lookup(entries, asked)
        },
    decreases entries.len(),
{
    let after = with_pending(entries, token, pending);
    if entries.len() == 0 {
        assert(after.drop_first() =~= Seq::empty());
        assert(lookup(after.drop_first(), asked) is None);
    } else if entries[0].0 == token {
        assert(after.drop_first() =~= entries.drop_first());
    } else {
        pending_is_found(entries.drop_first(), token, pending, asked);
        assert(after.drop_first() =~= with_pending(entries.drop_first(), token, pending));
    }
}

/// What comes of giving a confirmation.
pub open spec fn consumed<T>(store: StoreView<T>, token: Seq<char>, owner_id: u64, now: u64) -> Result<
    T,
    ConfirmationError,
> {
    match lookup(store.entries, token) {
        None => Err(ConfirmationError::Unknown),
        Some(pending) => if pending.owner_id != owner_id {
            Err(ConfirmationError::WrongOwner)
        } else if now >= pending.expires_at {
            Err(ConfirmationError::Expired)
        } else {
            match pending.payload {
                None => Err(ConfirmationError::AlreadyConsumed),
                Some(payload) => Ok(payload),
            }
        },
    }
}

/// The store after a confirmation was given.
pub open spec fn after_consumed<T>(store: StoreView<T>, token: Seq<char>, owner_id: u64, now: u64) -> StoreView<T> {
    if consumed(store, token, owner_id, now) is Ok {
        let pending = lookup(store.entries, token)->0;
        StoreView {
            entries: with_pending(store.entries, token, PendingConfirmation { payload: None, ..pending }),
        }
    } else {
        store
    }
}

/// The store after a confirmation was asked for under a number.
pub open spec fn after_issued<T>(store: StoreView<T>, number: u64, owner_id: u64, payload: T, now: u64) -> StoreView<T> {
    StoreView {
        entries: with_pending(
            store.entries,
            decimal(number as nat),
            PendingConfirmation {
                owner_id,
                expires_at: (now + CONFIRMATION_TTL) as u64,
                payload: Some(payload),
            },
        ),
    }
}

proof fn with_pending_past<T>(
    entries: Seq<(Seq<char>, PendingConfirmation<T>)>,
    token: Seq<char>,
    pending: PendingConfirmation<T>,
    n: int,
)
    requires
        0 <= n <= entries.len(),
        forall|k: int| 0 <= k < n ==> (#[trigger] entries[k]).0 != token,
        n < entries.len() ==> entries[n].0 == token,
    ensures
        with_pending(entries, token, pending) == if n < entries.len() {
            entries.update(n, (token, pending))
        } else {
            entries.push((token, pending))
        },
        lookup(entries, token) == if n < entries.len() {
            Some(entries[n].1)
        } else {
            None
        },
    decreases n,
{
    if n == 0 {
        if entries.len() == 0 {
            assert(entries.push((token, pending)) =~= seq![(token, pending)]);
        } else {
            assert(entries.update(0, (token, pending)) =~= seq![(token, pending)] + entries.drop_first());
        }
    } else {
        assert(entries[0].0 != token);
        let rest = entries.drop_first();
        assert forall|k: int| 0 <= k < n - 1 implies (#[trigger] rest[k]).0 != token by {
            assert(rest[k] == entries[k + 1]);
        }
        with_pending_past(rest, token, pending, n - 1);
        if n < entries.len() {
            assert(seq![entries[0]] + rest.update(n - 1, (token, pending)) =~= entries.update(
                n,
                (token, pending),
            ));
        } else {
            assert(seq![entries[0]] + rest.push((token, pending)) =~= entries.push((token, pending)));
        }
    }
}

impl<T> Default for ConfirmationStore<T> {
    fn default() -> (store: Self)
        ensures
            store@ == StoreView::<T>::empty(),
    {
        let store = ConfirmationStore { entries: Vec::new() };
        assert(store@.entries =~= Seq::empty());
        store
    }
}

impl<T> ConfirmationStore<T> {
    fn find(&self, token: &String) -> (place: usize)
        ensures
            place <= self.entries@.len(),
            self@.entries.len() == self.entries@.len(),
            forall|k: int| 0 <= k < place ==> (#[trigger] self@.entries[k]).0 != token@,
            place < self.entries@.len() ==> self@.entries[place as int].0 == token@,
    {
        let mut i: usize = 0;
        while i < self.entries.len() && self.entries[i].token != *token
            invariant
                i <= self.entries@.len(),
                self@.entries == self.entries@.map_values(|entry: Entry<T>| (entry.token@, entry.pending)),
                forall|k: int| 0 <= k < i ==> (#[trigger] self@.entries[k]).0 != token@,
            decreases self.entries@.len() - i,
        {
            i += 1;
        }
        i
    }

    /// Asks for a confirmation: only the owner can give it, and for five minutes from `now`.
    /// The number makes the token; a caller draws it from a counter that all stores share,
    /// so that no two confirmations have one token.
    pub fn issue(&mut self, number: u64, owner_id: u64, payload: T, now: u64) -> (token: ConfirmationToken)
        requires
            now + CONFIRMATION_TTL <= u64::MAX,
        ensures
            token@ == decimal(number as nat),
            final(self)@ == after_issued(old(self)@, number, owner_id, payload, now),
    {
        let ghost before = self@;
        let value: String = decimal_text(number);
        let pending = PendingConfirmation { owner_id, expires_at: now + CONFIRMATION_TTL, payload: Some(payload) };
        let place: usize = self.find(&value);
        proof {
            with_pending_past(before.entries, value@, pending, place as int);
        }
        let entry = Entry { token: value.clone(), pending };
        if place < self.entries.len() {
            self.entries.set(place, entry);
            assert(self@.entries =~= before.entries.update(place as int, (value@, pending)));
        } else {
            self.entries.push(entry);
            assert(self@.entries =~= before.entries.push((value@, pending)));
        }
        ConfirmationToken { value }
    }

    /// Gives a confirmation, and hands out what it was asked for.
    pub fn consume(&mut self, token: &ConfirmationToken, owner_id: u64, now: u64) -> (result: Result<
        T,
        ConfirmationError,
    >)
        ensures
            result == consumed(old(self)@, token@, owner_id, now),
            final(self)@ == after_consumed(old(self)@, token@, owner_id, now),
    {
        let ghost before = self@;
        let place: usize = self.find(&token.value);
        proof {
            let p = PendingConfirmation::<T> { owner_id: 0, expires_at: 0, payload: None };
            with_pending_past(before.entries, token@, p, place as int);
        }
        if place == self.entries.len() {
            return Err(ConfirmationError::Unknown);
        }
        if self.entries[place].pending.owner_id != owner_id {
            return Err(ConfirmationError::WrongOwner);
        }
        if now >= self.entries[place].pending.expires_at {
            return Err(ConfirmationError::Expired);
        }
        let entry: &mut Entry<T> = &mut self.entries[place];
        let payload: Option<T> = entry.pending.payload.take();
        match payload {
            None => {
                assert(self@.entries =~= before.entries);
                Err(ConfirmationError::AlreadyConsumed)
            },
            Some(payload) => {
                proof {
                    let p = before.entries[place as int].1;
                    let taken = PendingConfirmation { payload: None, ..p };
                    with_pending_past(before.entries, token@, taken, place as int);
                    assert(self@.entries =~= before.entries.update(place as int, (token@, taken)));
                }
                Ok(payload)
            },
        }
    }
}

/// A confirmation can be given by its owner before it expires, by nobody else,
/// and not after it has expired.
pub proof fn only_the_owner_in_time<T>(
    store: StoreView<T>,
    number: u64,
    owner_id: u64,
    payload: T,
    issued: u64,
    by: u64,
    now: u64,
)
    requires
        issued + CONFIRMATION_TTL <= u64::MAX,
    ensures
        consumed(after_issued(store, number, owner_id, payload, issued), decimal(number as nat), by, now) == if by
            != owner_id {
            Err::<T, ConfirmationError>(ConfirmationError::WrongOwner)
        } else if now >= issued + CONFIRMATION_TTL {
            Err(ConfirmationError::Expired)
        } else {
            Ok(payload)
        },
{
    let token = decimal(number as nat);
    let pending = PendingConfirmation {
        owner_id,
        expires_at: (issued + CONFIRMATION_TTL) as u64,
        payload: Some(payload),
    };
    pending_is_found(store.entries, token, pending, token);
}

/// A confirmation that was given cannot be given again.
pub proof fn only_once<T>(store: StoreView<T>, token: Seq<char>, owner_id: u64, now: u64, by: u64, later: u64)
    requires
        consumed(store, token, owner_id, now) is Ok,
    ensures
        consumed(after_consumed(store, token, owner_id, now), token, by, later) is Err,
        consumed(after_consumed(store, token, owner_id, now), token, owner_id, now) == Err::<T, ConfirmationError>(
            ConfirmationError::AlreadyConsumed,
        ),
{
    let pending = lookup(store.entries, token)->0;
    pending_is_found(store.entries, token, PendingConfirmation { payload: None, ..pending }, token);
}

/// Different numbers give different tokens, and different tokens have different buttons.
pub proof fn different_numbers_give_different_tokens(a: u64, b: u64)
    requires
        a != b,
    ensures
        decimal(a as nat) != decimal(b as nat),
        button_id(decimal(a as nat)) != button_id(decimal(b as nat)),
{
    let prefix = "discord-management:role-apply:"@;
    decimal_round_trip(a as nat);
    decimal_round_trip(b as nat);
    assert(button_id(decimal(a as nat)).skip(prefix.len() as int) =~= decimal(a as nat));
    assert(button_id(decimal(b as nat)).skip(prefix.len() as int) =~= decimal(b as nat));
}

/// Asking for a confirmation changes nothing for those that were asked for under other numbers.
pub proof fn other_tokens_keep_their_answer<T>(
    store: StoreView<T>,
    number: u64,
    owner_id: u64,
    payload: T,
    issued: u64,
    other: u64,
    by: u64,
    now: u64,
)
    requires
        other != number,
    ensures
        consumed(after_issued(store, number, owner_id, payload, issued), decimal(other as nat), by, now) == consumed(
            store,
            decimal(other as nat),
            by,
            now,
        ),
{
    different_numbers_give_different_tokens(number, other);
    let pending = PendingConfirmation {
        owner_id,
        expires_at: (issued + CONFIRMATION_TTL) as u64,
        payload: Some(payload),
    };
    pending_is_found(store.entries, decimal(number as nat), pending, decimal(other as nat));
}

/// A call of a store.
pub enum Call<T> {
    Issue { number: u64, owner_id: u64, payload: T, now: u64 },
    Consume { token: Seq<char>, owner_id: u64, now: u64 },
}

impl<T> Call<T> {
    /// Whether the call asks for the confirmation with a token.
    pub open spec fn issues(self, token: Seq<char>) -> bool {
        match self {
            Call::Issue { number, .. } => decimal(number as nat) == token,
            Call::Consume { .. } => false,
        }
    }

    /// Whether the time of the call leaves room for that at which a confirmation expires.
    pub open spec fn is_timely(self) -> bool {
        match self {
            Call::Issue { now, .. } => now + CONFIRMATION_TTL <= u64::MAX,
            Call::Consume { .. } => true,
        }
    }

    /// Whether the call gives the confirmation with a token, in a store as it is before it.
    pub open spec fn gives(self, store: StoreView<T>, asked: Seq<char>) -> bool {
        match self {
            Call::Issue { .. } => false,
            Call::Consume { token, owner_id, now } => token == asked && consumed(store, token, owner_id, now) is Ok,
        }
    }
}

/// A store after calls, from the first to the last.
pub open spec fn after_calls<T>(calls: Seq<Call<T>>) -> StoreView<T>
    decreases calls.len(),
{
    if calls.len() == 0 {
        StoreView::empty()
    } else {
        let before = after_calls(calls.drop_last());
        match calls.last() {
            Call::Issue { number, owner_id, payload, now } => after_issued(before, number, owner_id, payload, now),
            Call::Consume { token, owner_id, now } => after_consumed(before, token, owner_id, now),
        }
    }
}

/// Whether some call asked for the confirmation with a token.
pub open spec fn was_issued<T>(calls: Seq<Call<T>>, token: Seq<char>) -> bool {
    exists|i: int| 0 <= i < calls.len() && (#[trigger] calls[i]).issues(token)
}

/// Whether some call from a place on gave the confirmation with a token.
pub open spec fn was_given<T>(calls: Seq<Call<T>>, from: int, token: Seq<char>) -> bool {
    exists|j: int| from <= j < calls.len() && (#[trigger] calls[j]).gives(after_calls(calls.take(j)), token)
}

/// Whether no number was used for two confirmations.
pub open spec fn numbers_differ<T>(calls: Seq<Call<T>>) -> bool {
    forall|i: int, j: int|
        0 <= i < j < calls.len() && (#[trigger] calls[i]) is Issue && (#[trigger] calls[j]) is Issue
            ==> calls[i]->number != calls[j]->number
}

/// What giving the confirmation that a call asked for comes to, unless it was given before.
pub open spec fn answer<T>(asked: Call<T>, given: bool, by: u64, now: u64) -> Result<T, ConfirmationError> {
    match asked {
        Call::Issue { owner_id, payload, now: issued, .. } => if by != owner_id {
            Err(ConfirmationError::WrongOwner)
        } else if now >= issued + CONFIRMATION_TTL {
            Err(ConfirmationError::Expired)
        } else if given {
            Err(ConfirmationError::AlreadyConsumed)
        } else {
            Ok(payload)
        },
        Call::Consume { .. } => Err(ConfirmationError::Unknown),
    }
}

/// What a store holds of a confirmation that a call asked for.
spec fn recorded<T>(asked: Call<T>, given: bool) -> Option<PendingConfirmation<T>> {
    match asked {
        Call::Issue { owner_id, payload, now, .. } => Some(
            PendingConfirmation {
                owner_id,
                expires_at: (now + CONFIRMATION_TTL) as u64,
                payload: if given {
                    None
                } else {
                    Some(payload)
                },
            },
        ),
        Call::Consume { .. } => None,
    }
}

proof fn given_after_one_more<T>(calls: Seq<Call<T>>, from: int, token: Seq<char>)
    requires
        0 <= from < calls.len(),
    ensures
        was_given(calls, from, token) == (was_given(calls.drop_last(), from, token) || calls.last().gives(
            after_calls(calls.drop_last()),
            token,
        )),
{
    let before = calls.drop_last();
    let last = calls.len() - 1;
    assert(calls.take(last) =~= before);
    assert forall|j: int| 0 <= j < last implies #[trigger] before.take(j) == calls.take(j) by {
        assert(before.take(j) =~= calls.take(j));
    }
    if was_given(before, from, token) {
        let j = choose|j: int|
            from <= j < before.len() && (#[trigger] before[j]).gives(after_calls(before.take(j)), token);
        assert(before.take(j) == calls.take(j));
        assert(calls[j].gives(after_calls(calls.take(j)), token));
    }
    if calls.last().gives(after_calls(before), token) {
        assert(calls[last].gives(after_calls(calls.take(last)), token));
    }
    if was_given(calls, from, token) {
        let j = choose|j: int|
            from <= j < calls.len() && (#[trigger] calls[j]).gives(after_calls(calls.take(j)), token);
        if j < last {
            assert(before.take(j) == calls.take(j));
            assert(before[j].gives(after_calls(before.take(j)), token));
        }
    }
}

proof fn calls_are_recorded<T>(calls: Seq<Call<T>>, i: int, token: Seq<char>)
    requires
        0 <= i < calls.len(),
        calls[i].issues(token),
        forall|j: int| i < j < calls.len() ==> !(#[trigger] calls[j]).issues(token),
    ensures
        lookup(after_calls(calls).entries, token) == recorded(calls[i], was_given(calls, i, token)),
    decreases calls.len(),
{
    let before = calls.drop_last();
    let store = after_calls(before);
    given_after_one_more(calls, i, token);
    match calls.last() {
        Call::Issue { number, owner_id, payload, now } => {
            let pending = PendingConfirmation {
                owner_id,
                expires_at: (now + CONFIRMATION_TTL) as u64,
                payload: Some(payload),
            };
            pending_is_found(store.entries, decimal(number as nat), pending, token);
            if i == calls.len() - 1 {
                assert(!was_given(before, i, token));
            } else {
                assert(!calls[calls.len() - 1].issues(token));
                calls_are_recorded(before, i, token);
            }
        },
        Call::Consume { token: asked, owner_id, now } => {
            assert(before[i] == calls[i]);
            calls_are_recorded(before, i, token);
            if consumed(store, asked, owner_id, now) is Ok {
                let pending = lookup(store.entries, asked)->0;
                pending_is_found(store.entries, asked, PendingConfirmation { payload: None, ..pending }, token);
            }
        },
    }
}

/// A token that no call asked for is unknown, whatever else was asked for and given.
pub proof fn unissued_tokens_are_unknown<T>(calls: Seq<Call<T>>, token: Seq<char>, by: u64, now: u64)
    requires
        !was_issued(calls, token),
    ensures
        consumed(after_calls(calls), token, by, now) == Err::<T, ConfirmationError>(ConfirmationError::Unknown),
    decreases calls.len(),
{
    if calls.len() > 0 {
        let before = calls.drop_last();
        let store = after_calls(before);
        assert(!calls[calls.len() - 1].issues(token));
        if was_issued(before, token) {
            let i = choose|i: int| 0 <= i < before.len() && (#[trigger] before[i]).issues(token);
            assert(calls[i].issues(token));
        }
        unissued_tokens_are_unknown(before, token, by, now);
        match calls.last() {
            Call::Issue { number, owner_id, payload, now } => {
                let pending = PendingConfirmation {
                    owner_id,
                    expires_at: (now + CONFIRMATION_TTL) as u64,
                    payload: Some(payload),
                };
                pending_is_found(store.entries, decimal(number as nat), pending, token);
            },
            Call::Consume { token: asked, owner_id, now } => {
                if consumed(store, asked, owner_id, now) is Ok {
                    let pending = lookup(store.entries, asked)->0;
                    pending_is_found(store.entries, asked, PendingConfirmation { payload: None, ..pending }, token);
                }
            },
        }
    }
}

/// What a store answers after any calls. A token that it did not issue is unknown. Else
/// nobody but the owner can give the confirmation, not once it has expired, and not once
/// it was given; then what it was asked for is handed out.
pub proof fn answers_follow_the_calls<T>(calls: Seq<Call<T>>, token: Seq<char>, by: u64, now: u64)
    requires
        numbers_differ(calls),
        forall|k: int| 0 <= k < calls.len() ==> (#[trigger] calls[k]).is_timely(),
    ensures
        consumed(after_calls(calls), token, by, now) == Err::<T, ConfirmationError>(ConfirmationError::Unknown)
            <==> !was_issued(calls, token),
        forall|i: int|
            0 <= i < calls.len() && (#[trigger] calls[i]).issues(token) ==> consumed(
                after_calls(calls),
                token,
                by,
                now,
            ) == answer(calls[i], was_given(calls, 0, token), by, now),
{
    if !was_issued(calls, token) {
        unissued_tokens_are_unknown(calls, token, by, now);
    }
    assert forall|i: int| 0 <= i < calls.len() && (#[trigger] calls[i]).issues(token) implies consumed(
        after_calls(calls),
        token,
        by,
        now,
    ) == answer(calls[i], was_given(calls, 0, token), by, now) by {
        assert(calls[i].is_timely());
        assert forall|j: int| 0 <= j < calls.len() && j != i implies !(#[trigger] calls[j]).issues(token) by {
            if calls[j] is Issue {
                different_numbers_give_different_tokens(calls[i]->number, calls[j]->number);
            }
        }
        calls_are_recorded(calls, i, token);
        if was_given(calls, 0, token) {
            let j = choose|j: int|
                0 <= j < calls.len() && (#[trigger] calls[j]).gives(after_calls(calls.take(j)), token);
            if j < i {
                if was_issued(calls.take(j), token) {
                    let k = choose|k: int| 0 <= k < j && (#[trigger] calls.take(j)[k]).issues(token);
                    assert(calls[k].issues(token));
                }
                unissued_tokens_are_unknown(calls.take(j), token, calls[j]->Consume_owner_id, calls[j]->Consume_now);
            }
        }
        if was_given(calls, i, token) {
            let j = choose|j: int|
                i <= j < calls.len() && (#[trigger] calls[j]).gives(after_calls(calls.take(j)), token);
            assert(calls[j].gives(after_calls(calls.take(j)), token));
        }
    }
}

/// Two stores that draw their numbers from one counter do not know each other's tokens.
pub proof fn tokens_of_other_stores_are_unknown<T, U>(
    calls: Seq<Call<T>>,
    others: Seq<Call<U>>,
    i: int,
    by: u64,
    now: u64,
)
    requires
        0 <= i < others.len(),
        others[i] is Issue,
        forall|k: int|
            0 <= k < calls.len() && (#[trigger] calls[k]) is Issue ==> calls[k]->number != others[i]->number,
    ensures
        consumed(after_calls(calls), decimal(others[i]->number as nat), by, now) == Err::<T, ConfirmationError>(
            ConfirmationError::Unknown,
        ),
{
    let token = decimal(others[i]->number as nat);
    assert forall|k: int| 0 <= k < calls.len() implies !(#[trigger] calls[k]).issues(token) by {
        if calls[k] is Issue {
            different_numbers_give_different_tokens(calls[k]->number, others[i]->number);
        }
    }
    unissued_tokens_are_unknown(calls, token, by, now);
}

} // verus!
