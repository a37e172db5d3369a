//! Accounts and the world state: who holds how much, and how value moves.

use crate::encoding::same_text;
use crate::error::Error;
use vstd::prelude::*;
use vstd::string::*;

verus! {

/// One account of the ledger.
#[derive(Debug)]
pub struct Account {
    pub address: String,
    pub balance: u64,
    pub nonce: u64,
}

/// What an account is, mathematically.
pub struct AccountView {
    pub address: Seq<char>,
    pub balance: nat,
    pub nonce: nat,
}

impl View for Account {
    type V = AccountView;

    open spec fn view(&self) -> AccountView {
        AccountView {
            address: self.address@,
            balance: self.balance as nat,
            nonce: self.nonce as nat,
        }
    }
}

impl Clone for Account {
    fn clone(&self) -> (copy: Self)
        ensures
            copy == *self,
    {
        Account { address: self.address.clone(), balance: self.balance, nonce: self.nonce }
    }
}

/// No two accounts share an address.
pub open spec fn distinct(s: Seq<AccountView>) -> bool {
    forall|i: int, j: int|
        0 <= i < j < s.len() ==> (#[trigger] s[i]).address != (#[trigger] s[j]).address
}

/// Whether some account of `s` has this address.
pub open spec fn holds(s: Seq<AccountView>, address: Seq<char>) -> bool {
    exists|i: int| 0 <= i < s.len() && (#[trigger] s[i]).address == address
}

/// Where the account with this address stands in `s`, if `s` holds one.
pub open spec fn position(s: Seq<AccountView>, address: Seq<char>) -> int {
    choose|i: int| 0 <= i < s.len() && (#[trigger] s[i]).address == address
}

/// The balance of an address; an address without an account has balance 0.
pub open spec fn balance_of(s: Seq<AccountView>, address: Seq<char>) -> nat {
    if holds(s, address) {
        s[position(s, address)].balance
    } else {
        0
    }
}

/// The nonce of an address; an address without an account has nonce 0.
pub open spec fn nonce_of(s: Seq<AccountView>, address: Seq<char>) -> nat {
    if holds(s, address) {
        s[position(s, address)].nonce
    } else {
        0
    }
}

/// The sum of all balances.
pub open spec fn total_balance(s: Seq<AccountView>) -> nat
    decreases s.len(),
{
    if s.len() == 0 {
        0
    } else {
        total_balance(s.drop_last()) + s.last().balance
    }
}

/// The state after `account` was put in: in the place of the account that its
/// address had, or else behind all others.
pub open spec fn placed(s: Seq<AccountView>, account: AccountView) -> Seq<AccountView> {
    if holds(s, account.address) {
        s.update(position(s, account.address), account)
    } else {
        s.push(account)
    }
}

/// The state after an account was created, or replaced, with nonce 0.
pub open spec fn created(s: Seq<AccountView>, address: Seq<char>, balance: nat) -> Seq<
    AccountView,
> {
    placed(s, AccountView { address, balance, nonce: 0 })
}

/// Why a transfer of `value` out of `from` is refused, if it is.
pub open spec fn refusal(s: Seq<AccountView>, from: Seq<char>, value: nat) -> Option<Error> {
    if !holds(s, from) {
        Some(Error::SenderNotFound)
    } else if balance_of(s, from) < value {
        Some(Error::InsufficientBalance { balance: balance_of(s, from) as u64, needed: value as u64 })
    } else {
        None
    }
}

/// The sender gives up `value` and its nonce moves on by one.
pub open spec fn debited(s: Seq<AccountView>, from: Seq<char>, value: nat) -> Seq<AccountView> {
    let i = position(s, from);
    s.update(
        i,
        AccountView {
            address: s[i].address,
            balance: (s[i].balance - value) as nat,
            nonce: s[i].nonce + 1,
        },
    )
}

/// The address has an account: its own if there was one, else an empty one.
pub open spec fn opened(s: Seq<AccountView>, address: Seq<char>) -> Seq<AccountView> {
    if holds(s, address) {
        s
    } else {
        s.push(AccountView { address, balance: 0, nonce: 0 })
    }
}

/// The receiver gains `value`.
pub open spec fn credited(s: Seq<AccountView>, to: Seq<char>, value: nat) -> Seq<AccountView> {
    let j = position(s, to);
    s.update(
        j,
        AccountView { address: s[j].address, balance: s[j].balance + value, nonce: s[j].nonce },
    )
}

/// The state after a transfer that is not refused: debit and nonce bump of the
/// sender, an account for the receiver if it had none, credit of the receiver.
pub open spec fn transferred(
    s: Seq<AccountView>,
    from: Seq<char>,
    to: Seq<char>,
    value: nat,
) -> Seq<AccountView> {
    credited(opened(debited(s, from, value), to), to, value)
}

/// Whether the transfer stays within `u64`: if it is not refused, the sender's
/// nonce has room for one more and the receiver's balance for `value`.
pub open spec fn transfer_fits(
    s: Seq<AccountView>,
    from: Seq<char>,
    to: Seq<char>,
    value: nat,
) -> bool {
    refusal(s, from, value) is None ==> {
        &&& nonce_of(s, from) < u64::MAX
        &&& from != to ==> balance_of(s, to) + value <= u64::MAX
    }
}

/// Whether `steps` transfers, whatever they are, stay within `u64`: the total
/// of all balances fits, and every nonce can move on `steps` times.
pub open spec fn has_room(s: Seq<AccountView>, steps: nat) -> bool {
    &&& steps <= u64::MAX
    &&& total_balance(s) <= u64::MAX
    &&& forall|i: int| 0 <= i < s.len() ==> (#[trigger] s[i]).nonce + steps <= u64::MAX
}

/// The mathematical content of a list of accounts.
pub open spec fn model(accounts: Seq<Account>) -> Seq<AccountView> {
    accounts.map_values(|a: Account| a@)
}

/// Looks the address up in a list of accounts without duplicates.
fn locate(accounts: &Vec<Account>, address: &str) -> (found: Option<usize>)
    requires
        distinct(model(accounts@)),
    ensures
        match found {
            Some(i) => i < accounts@.len() && holds(model(accounts@), address@) && position(
                model(accounts@),
                address@,
            ) == i,
            None => !holds(model(accounts@), address@),
        },
{
    let ghost s = model(accounts@);
    let mut i: usize = 0;
    while i < accounts.len()
        invariant
            s == model(accounts@),
            distinct(s),
            i <= accounts@.len(),
            forall|k: int| 0 <= k < i ==> (#[trigger] s[k]).address != address@,
        decreases accounts@.len() - i,
    {
        if same_text(accounts[i].address.as_str(), address) {
            proof {
                lemma_position(s, address@, i as int);
            }
            return Some(i);
        }
        i += 1;
    }
    None
}

/// The accounts of the ledger, each address at most once.
#[derive(Debug)]
pub struct WorldState {
    accounts: Vec<Account>,
}

impl View for WorldState {
    type V = Seq<AccountView>;

    closed spec fn view(&self) -> Seq<AccountView> {
        model(self.accounts@)
    }
}

impl Clone for WorldState {
    fn clone(&self) -> (copy: Self)
        ensures
            copy@ == self@,
    {
        proof {
            use_type_invariant(self);
        }
        let accounts = self.accounts.clone();
        WorldState { accounts }
    }
}

impl WorldState {
    /// Holds of every state: no address has two accounts.
    #[verifier::type_invariant]
    pub open spec fn unique_addresses(self) -> bool {
        distinct(self@)
    }

    /// A state without accounts.
    pub fn new() -> (state: Self)
        ensures
            state@ == Seq::<AccountView>::empty(),
    {
        let state = WorldState { accounts: Vec::new() };
        state
    }

    fn find(&self, address: &str) -> (found: Option<usize>)
        ensures
            match found {
                Some(i) => i < self.accounts@.len() && holds(self@, address@) && position(
                    self@,
                    address@,
                ) == i,
                None => !holds(self@, address@),
            },
    {
        proof {
            use_type_invariant(self);
        }
        locate(&self.accounts, address)
    }

    /// The account of `address`, if it has one.
    pub fn get_account(&self, address: &str) -> (account: Option<&Account>)
        ensures
            match account {
                Some(a) => holds(self@, address@) && a@ == self@[position(self@, address@)],
                None => !holds(self@, address@),
            },
    {
        match self.find(address) {
            Some(i) => Some(&self.accounts[i]),
            None => None,
        }
    }

    /// The balance of `address`, 0 if it has no account.
    pub fn get_balance(&self, address: &str) -> (balance: u64)
        ensures
            balance == balance_of(self@, address@),
    {
        match self.find(address) {
            Some(i) => self.accounts[i].balance,
            None => 0,
        }
    }

    /// The nonce of `address`, 0 if it has no account.
    pub fn get_nonce(&self, address: &str) -> (nonce: u64)
        ensures
            nonce == nonce_of(self@, address@),
    {
        match self.find(address) {
            Some(i) => self.accounts[i].nonce,
            None => 0,
        }
    }

    /// A copy of every account, in the order in which the addresses first
    /// got one.
    pub fn all_accounts(&self) -> (list: Vec<Account>)
        ensures
            model(list@) == self@,
    {
        let list = self.accounts.clone();
        list
    }

    /// Tests [`has_room`]: whether any `steps` transfers stay within `u64`.
    pub fn has_room_for(&self, steps: usize) -> (ok: bool)
        ensures
            ok == has_room(self@, steps as nat),
    {
        let ghost s = self@;
        let mut total: u64 = 0;
        let mut i: usize = 0;
        while i < self.accounts.len()
            invariant
                s == model(self.accounts@),
                i <= s.len(),
                total == total_balance(s.take(i as int)),
                forall|k: int| 0 <= k < i ==> (#[trigger] s[k]).nonce + steps <= u64::MAX,
            decreases s.len() - i,
        {
            let account = &self.accounts[i];
            proof {
                assert(s.take(i + 1).drop_last() =~= s.take(i as int));
                lemma_total_of_prefix(s, i + 1);
            }
            if account.balance > u64::MAX - total {
                return false;
            }
            if steps as u64 > u64::MAX - account.nonce {
                return false;
            }
            total = total + account.balance;
            i += 1;
        }
        assert(s.take(i as int) =~= s);
        true
    }

    /// Puts `account` in, in the place of the account that its address
    /// had, if it had one.
    pub fn set_account(&mut self, account: Account)
        ensures
            final(self)@ == placed(old(self)@, account@),
    {
        proof {
            use_type_invariant(&*self);
            lemma_placed_distinct(self@, account@);
        }
        let mut accounts: Vec<Account> = Vec::new();
        std::mem::swap(&mut accounts, &mut self.accounts);
        match locate(&accounts, account.address.as_str()) {
            Some(i) => {
                accounts[i] = account;
            },
            None => {
                accounts.push(account);
            },
        }
        assert(model(accounts@) =~= placed(old(self)@, account@));
        self.accounts = accounts;
    }

    /// Gives `address` an account with this balance and nonce 0. An account
    /// that it already had is replaced, not added to.
    pub fn create_account(&mut self, address: String, balance: u64)
        ensures
            final(self)@ == created(old(self)@, address@, balance as nat),
    {
        self.set_account(Account { address, balance, nonce: 0 });
    }

    /// Moves `value` from `from` to `to`. A sender without an account, or with
    /// too small a balance, is refused and nothing changes. Otherwise the
    /// sender is debited and its nonce moves on, the receiver gets an account
    /// if it had none, and the receiver is credited, all in one step.
    ///
    /// The limits of `u64` are the caller's to respect, see [`transfer_fits`].
    pub fn transfer(&mut self, from: &str, to: &str, value: u64) -> (result: Result<(), Error>)
        requires
            transfer_fits(old(self)@, from@, to@, value as nat),
        ensures
            match refusal(old(self)@, from@, value as nat) {
                Some(e) => result == Err::<(), Error>(e) && final(self)@ == old(self)@,
                None => result is Ok && final(self)@ == transferred(
                    old(self)@,
                    from@,
                    to@,
                    value as nat,
                ),
            },
            total_balance(final(self)@) == total_balance(old(self)@),
    {
        proof {
            use_type_invariant(&*self);
            if refusal(self@, from@, value as nat) is None {
                lemma_transfer_effect(self@, from@, to@, value as nat);
            }
        }
        let ghost s0 = self@;
        let mut accounts: Vec<Account> = Vec::new();
        std::mem::swap(&mut accounts, &mut self.accounts);
        let result = match locate(&accounts, from) {
            None => Err(Error::SenderNotFound),
            Some(i) => {
                let balance = accounts[i].balance;
                if balance < value {
                    Err(Error::InsufficientBalance { balance, needed: value })
                } else {
                    let nonce = accounts[i].nonce;
                    accounts[i].balance = balance - value;
                    accounts[i].nonce = nonce + 1;
                    let ghost s1 = model(accounts@);
                    proof {
                        assert(s1 =~= debited(s0, from@, value as nat));
                        lemma_same_addresses(s0, s1);
                    }
                    let j = match locate(&accounts, to) {
                        Some(j) => j,
                        None => {
                            accounts.push(Account { address: to.to_owned(), balance: 0, nonce: 0 });
                            accounts.len() - 1
                        },
                    };
                    let ghost s2 = model(accounts@);
                    proof {
                        assert(s2 =~= opened(s1, to@));
                        lemma_opened(s1, to@);
                    }
                    let held = accounts[j].balance;
                    accounts[j].balance = held + value;
                    proof {
                        let s3 = model(accounts@);
                        assert(s3 =~= credited(s2, to@, value as nat));
                        lemma_same_addresses(s2, s3);
                    }
                    Ok(())
                }
            },
        };
        self.accounts = accounts;
        result
    }
}

/// In a state without duplicates, an account found at `k` is the account of
/// its address.
pub proof fn lemma_position(s: Seq<AccountView>, address: Seq<char>, k: int)
    requires
        distinct(s),
        0 <= k < s.len(),
        s[k].address == address,
    ensures
        holds(s, address),
        position(s, address) == k,
{
}

/// Putting an account in keeps the addresses distinct.
pub proof fn lemma_placed_distinct(s: Seq<AccountView>, account: AccountView)
    requires
        distinct(s),
    ensures
        distinct(placed(s, account)),
{
}

/// Changing balances and nonces in place leaves every address where it was.
pub proof fn lemma_same_addresses(s: Seq<AccountView>, t: Seq<AccountView>)
    requires
        distinct(s),
        s.len() == t.len(),
        forall|k: int| 0 <= k < s.len() ==> (#[trigger] t[k]).address == s[k].address,
    ensures
        distinct(t),
        forall|a: Seq<char>| #[trigger] holds(t, a) == holds(s, a),
        forall|a: Seq<char>| holds(s, a) ==> #[trigger] position(t, a) == position(s, a),
{
    assert forall|a: Seq<char>| #[trigger] holds(t, a) == holds(s, a) by {
        if holds(s, a) {
            assert(t[position(s, a)].address == a);
        }
    }
    assert forall|a: Seq<char>| holds(s, a) implies #[trigger] position(t, a) == position(
        s,
        a,
    ) by {
        lemma_position(t, a, position(s, a));
    }
}

/// After `opened`, the address has an account and every other account is
/// where it was.
pub proof fn lemma_opened(s: Seq<AccountView>, address: Seq<char>)
    requires
        distinct(s),
    ensures
        distinct(opened(s, address)),
        holds(opened(s, address), address),
        !holds(s, address) ==> position(opened(s, address), address) == s.len(),
        forall|a: Seq<char>|
            holds(s, a) ==> #[trigger] position(opened(s, address), a) == position(s, a),
        forall|a: Seq<char>|
            #[trigger] holds(opened(s, address), a) == (holds(s, a) || a == address),
{
    let t = opened(s, address);
    if !holds(s, address) {
        lemma_position(t, address, s.len() as int);
        assert forall|a: Seq<char>| holds(s, a) implies #[trigger] position(t, a) == position(
            s,
            a,
        ) by {
            lemma_position(t, a, position(s, a));
        }
        assert forall|a: Seq<char>| #[trigger] holds(t, a) == (holds(s, a) || a == address) by {
            if holds(s, a) {
                assert(t[position(s, a)].address == a);
            }
        }
    }
}

/// Appending an account adds its balance to the total.
pub proof fn lemma_total_push(s: Seq<AccountView>, account: AccountView)
    ensures
        total_balance(s.push(account)) == total_balance(s) + account.balance,
{
    assert(s.push(account).drop_last() =~= s);
}

/// Replacing an account changes the total by the difference of the balances.
pub proof fn lemma_total_update(s: Seq<AccountView>, i: int, account: AccountView)
    requires
        0 <= i < s.len(),
    ensures
        total_balance(s.update(i, account)) + s[i].balance == total_balance(s) + account.balance,
    decreases s.len(),
{
    let t = s.update(i, account);
    if i == s.len() - 1 {
        assert(t.drop_last() =~= s.drop_last());
    } else {
        assert(t.drop_last() =~= s.drop_last().update(i, account));
        lemma_total_update(s.drop_last(), i, account);
    }
}

/// No balance exceeds the total.
pub proof fn lemma_balance_within_total(s: Seq<AccountView>, i: int)
    requires
        0 <= i < s.len(),
    ensures
        s[i].balance <= total_balance(s),
    decreases s.len(),
{
    if i < s.len() - 1 {
        lemma_balance_within_total(s.drop_last(), i);
    }
}

/// The first `k` accounts together hold no more than the total.
pub proof fn lemma_total_of_prefix(s: Seq<AccountView>, k: int)
    requires
        0 <= k <= s.len(),
    ensures
        total_balance(s.take(k)) <= total_balance(s),
    decreases s.len(),
{
    if k == s.len() {
        assert(s.take(k) =~= s);
    } else {
        assert(s.take(k) =~= s.drop_last().take(k));
        lemma_total_of_prefix(s.drop_last(), k);
    }
}

/// Two different accounts together hold no more than the total.
pub proof fn lemma_pair_within_total(s: Seq<AccountView>, i: int, j: int)
    requires
        0 <= i < j < s.len(),
    ensures
        s[i].balance + s[j].balance <= total_balance(s),
    decreases s.len(),
{
    if j < s.len() - 1 {
        lemma_pair_within_total(s.drop_last(), i, j);
    } else {
        lemma_balance_within_total(s.drop_last(), i);
    }
}

/// A state whose total fits in `u64` has room for every transfer between its
/// accounts: only the sender's nonce can still be in the way.
pub proof fn lemma_total_bounds_transfers(
    s: Seq<AccountView>,
    from: Seq<char>,
    to: Seq<char>,
    value: nat,
)
    requires
        distinct(s),
        total_balance(s) <= u64::MAX,
        nonce_of(s, from) < u64::MAX,
    ensures
        transfer_fits(s, from, to, value),
{
    if refusal(s, from, value) is None && from != to {
        let i = position(s, from);
        lemma_balance_within_total(s, i);
        if holds(s, to) {
            let j = position(s, to);
            if i < j {
                lemma_pair_within_total(s, i, j);
            } else {
                lemma_pair_within_total(s, j, i);
            }
        }
    }
}

/// What `created` does to each address: the named one gets the balance and
/// nonce 0, all others keep what they had.
pub proof fn lemma_created_effect(s: Seq<AccountView>, address: Seq<char>, balance: nat)
    requires
        distinct(s),
    ensures
        ({
            let t = created(s, address, balance);
            &&& distinct(t)
            &&& holds(t, address)
            &&& balance_of(t, address) == balance
            &&& nonce_of(t, address) == 0
            &&& total_balance(t) + balance_of(s, address) == total_balance(s) + balance
            &&& forall|a: Seq<char>|
                a != address ==> #[trigger] holds(t, a) == holds(s, a)
            &&& forall|a: Seq<char>|
                a != address ==> #[trigger] balance_of(t, a) == balance_of(s, a)
            &&& forall|a: Seq<char>| a != address ==> #[trigger] nonce_of(t, a) == nonce_of(s, a)
        }),
{
    let t = created(s, address, balance);
    let fresh = AccountView { address, balance, nonce: 0 };
    lemma_placed_distinct(s, fresh);
    if holds(s, address) {
        lemma_same_addresses(s, t);
        lemma_total_update(s, position(s, address), fresh);
    } else {
        lemma_opened(s, address);
        lemma_same_addresses(opened(s, address), t);
        lemma_total_push(s, fresh);
        lemma_position(t, address, s.len() as int);
    }
}

/// What a transfer that is not refused does to each address. The sender pays
/// `value` and its nonce moves on by one; the receiver gains `value`; a
/// transfer to oneself changes the nonce only; every other address keeps its
/// balance and nonce; and the total of all balances stays what it was.
pub proof fn lemma_transfer_effect(
    s: Seq<AccountView>,
    from: Seq<char>,
    to: Seq<char>,
    value: nat,
)
    requires
        distinct(s),
        refusal(s, from, value) is None,
    ensures
        ({
            let t = transferred(s, from, to, value);
            &&& distinct(t)
            &&& total_balance(t) == total_balance(s)
            &&& nonce_of(t, from) == nonce_of(s, from) + 1
            &&& from == to ==> balance_of(t, from) == balance_of(s, from)
            &&& from != to ==> balance_of(t, from) == balance_of(s, from) - value
            &&& from != to ==> balance_of(t, to) == balance_of(s, to) + value
            &&& from != to ==> nonce_of(t, to) == nonce_of(s, to)
            &&& forall|a: Seq<char>| #[trigger] holds(t, a) == (holds(s, a) || a == to)
            &&& forall|a: Seq<char>|
                a != from && a != to ==> #[trigger] balance_of(t, a) == balance_of(s, a)
            &&& forall|a: Seq<char>|
                a != from && a != to ==> #[trigger] nonce_of(t, a) == nonce_of(s, a)
        }),
{
    let i = position(s, from);
    let d = debited(s, from, value);
    lemma_same_addresses(s, d);
    let o = opened(d, to);
    lemma_opened(d, to);
    let j = position(o, to);
    let t = credited(o, to, value);
    lemma_same_addresses(o, t);
    assert(total_balance(t) == total_balance(s)) by {
        lemma_total_update(s, i, d[i]);
        if !holds(d, to) {
            lemma_total_push(d, AccountView { address: to, balance: 0, nonce: 0 });
        }
        lemma_total_update(o, j, t[j]);
    }
}

} // verus!
