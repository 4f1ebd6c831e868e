//! The two passes over a ledger: discovery of disputed ids, then replay in log order.

use crate::account::{fresh_account, Account};
use crate::amount::{lemma_sum_exact, lemma_within_smaller_scale, max_scale, within};
use crate::transaction::{placeholder, valid_amount, Transaction, TransactionType};
use std::collections::HashMap;
use vstd::prelude::*;

verus! {

broadcast use vstd::std_specs::hash::group_hash_axioms;

/// Accounts by client, and the dispute index by transaction id.
pub type ReplayState = (Map<u16, Account>, Map<u32, Transaction>);

/// Discovery of one record: a dispute opens a placeholder for the id it refers to.
pub open spec fn index_step(index: Map<u32, Transaction>, r: Transaction) -> Map<u32, Transaction> {
    if r.kind == TransactionType::Dispute {
        index.insert(r.tx, placeholder(r.client, r.tx))
    } else {
        index
    }
}

/// The dispute index that the first pass builds.
pub open spec fn dispute_index(log: Seq<Transaction>) -> Map<u32, Transaction>
    decreases log.len(),
{
    if log.len() == 0 {
        Map::empty()
    } else {
        index_step(dispute_index(log.drop_last()), log.last())
    }
}

/// The ids that some dispute record of the log refers to.
pub open spec fn disputed_ids(log: Seq<Transaction>) -> Set<u32> {
    Set::new(|t: u32| exists|i: int| 0 <= i < log.len() && log[i].kind == TransactionType::Dispute && log[i].tx == t)
}

/// A deposit or withdrawal fills the placeholder of its id, if one is open.
pub open spec fn fill_spec(index: Map<u32, Transaction>, r: Transaction) -> Map<u32, Transaction> {
    if r.moves_funds() && index.contains_key(r.tx) {
        index.insert(r.tx, Transaction { kind: r.kind, amount: r.amount, ..index[r.tx] })
    } else {
        index
    }
}

/// The original transaction that `tx` refers to, once it is known.
pub open spec fn reference(index: Map<u32, Transaction>, tx: u32) -> Option<Transaction> {
    if index.contains_key(tx) && index[tx].kind != TransactionType::Unknown {
        Some(index[tx])
    } else {
        None
    }
}

/// Every filled entry of the index holds an amount that may be applied.
pub open spec fn index_sound(index: Map<u32, Transaction>) -> bool {
    forall|t: u32| #[trigger]
        index.contains_key(t) ==> (index[t].kind == TransactionType::Unknown || (
        index[t].amount matches Some(a) && valid_amount(a)))
}

/// The effect of one record on its account, given the index.
pub open spec fn apply_spec(acc: Account, r: Transaction, index: Map<u32, Transaction>) -> Account {
    match r.kind {
        TransactionType::Deposit => acc.deposit_spec(r.amount.unwrap()),
        TransactionType::Withdrawal => acc.withdraw_spec(r.amount.unwrap()),
        TransactionType::Dispute => match reference(index, r.tx) {
            Some(d) => acc.dispute_spec(d.amount.unwrap()),
            None => acc,
        },
        TransactionType::Resolve => match reference(index, r.tx) {
            Some(d) => acc.resolve_spec(d.amount.unwrap()),
            None => acc,
        },
        TransactionType::Chargeback => match reference(index, r.tx) {
            Some(d) => acc.chargeback_spec(d.amount.unwrap()),
            None => acc,
        },
        TransactionType::Unknown => acc,
    }
}

/// The account of a client, or a fresh one on its first reference.
pub open spec fn account_of(accounts: Map<u16, Account>, client: u16) -> Account {
    if accounts.contains_key(client) {
        accounts[client]
    } else {
        fresh_account(client)
    }
}

/// Replay of one record: fill the index, then apply the record to its account.
pub open spec fn replay_step(st: ReplayState, r: Transaction) -> ReplayState {
    let index = fill_spec(st.1, r);
    (st.0.insert(r.client, apply_spec(account_of(st.0, r.client), r, index)), index)
}

/// Replay of a log from no accounts and the given index.
pub open spec fn replay(log: Seq<Transaction>, index: Map<u32, Transaction>) -> ReplayState
    decreases log.len(),
{
    if log.len() == 0 {
        (Map::empty(), index)
    } else {
        replay_step(replay(log.drop_last(), index), log.last())
    }
}

/// The final accounts of a ledger: both passes.
pub open spec fn final_accounts(log: Seq<Transaction>) -> Map<u16, Account> {
    replay(log, dispute_index(log)).0
}

pub open spec fn log_well_formed(log: Seq<Transaction>) -> bool {
    forall|i: int| 0 <= i < log.len() ==> #[trigger] log[i].well_formed()
}

/// First pass: a placeholder for each id that a dispute refers to.
pub fn read_disputes(log: &Vec<Transaction>) -> (r: HashMap<u32, Transaction>)
    ensures
        r@ == dispute_index(log@),
{
    let mut result: HashMap<u32, Transaction> = HashMap::new();
    let mut i: usize = 0;
    while i < log.len()
        invariant
            i <= log@.len(),
            result@ == dispute_index(log@.take(i as int)),
        decreases log@.len() - i,
    {
        let t = log[i];
        if t.kind == TransactionType::Dispute {
            result.insert(t.tx, Transaction::default(t.client, t.tx));
        }
        assert(log@.take(i + 1).drop_last() == log@.take(i as int));
        i = i + 1;
    }
    assert(log@.take(log@.len() as int) == log@);
    result
}

/// Copies kind and amount of a deposit or withdrawal into the placeholder of its id, if any.
pub fn try_to_fill_dispute_with_transaction(transaction: &Transaction, disputes: &mut HashMap<u32, Transaction>)
    ensures
        final(disputes)@ == fill_spec(old(disputes)@, *transaction),
{
    match transaction.kind {
        TransactionType::Deposit | TransactionType::Withdrawal => {
            match disputes.get(&transaction.tx) {
                Some(d) => {
                    let mut filled = *d;
                    filled.kind = transaction.kind;
                    filled.amount = transaction.amount;
                    disputes.insert(transaction.tx, filled);
                },
                None => {},
            }
        },
        _ => {},
    }
}

/// The original transaction that a dispute, resolve or chargeback refers to, if it is known.
pub fn find_dispute_for_transaction(transaction: &Transaction, disputes: &HashMap<u32, Transaction>) -> (r:
    Option<Transaction>)
    ensures
        r == reference(disputes@, transaction.tx),
{
    match disputes.get(&transaction.tx) {
        Some(d) => {
            if d.kind == TransactionType::Unknown {
                None
            } else {
                Some(*d)
            }
        },
        None => None,
    }
}

/// Applies one record to its account.
pub fn commit_transaction(account: &mut Account, transaction: &Transaction, disputes: &HashMap<u32, Transaction>)
    requires
        old(account).wf(),
        transaction.well_formed(),
        index_sound(disputes@),
    ensures
        *final(account) == apply_spec(*old(account), *transaction, disputes@),
        final(account).wf(),
{
    match transaction.kind {
        TransactionType::Deposit => {
            account.deposit(transaction.amount.unwrap());
        },
        TransactionType::Withdrawal => {
            account.withdraw(transaction.amount.unwrap());
        },
        TransactionType::Dispute => {
            match find_dispute_for_transaction(transaction, disputes) {
                Some(d) => {
                    account.dispute(d.amount.unwrap());
                },
                None => {},
            }
        },
        TransactionType::Resolve => {
            match find_dispute_for_transaction(transaction, disputes) {
                Some(d) => {
                    account.resolve(d.amount.unwrap());
                },
                None => {},
            }
        },
        TransactionType::Chargeback => {
            match find_dispute_for_transaction(transaction, disputes) {
                Some(d) => {
                    account.chargeback(d.amount.unwrap());
                },
                None => {},
            }
        },
        TransactionType::Unknown => {},
    }
}

/// Second pass: replays the log in order, filling the index and applying each record.
pub fn read_data(log: &Vec<Transaction>, disputes: &mut HashMap<u32, Transaction>) -> (r: HashMap<u16, Account>)
    requires
        log_well_formed(log@),
        index_sound(old(disputes)@),
    ensures
        (r@, final(disputes)@) == replay(log@, old(disputes)@),
        index_sound(final(disputes)@),
        forall|c: u16| #[trigger] r@.contains_key(c) ==> r@[c].wf(),
{
    let mut accounts: HashMap<u16, Account> = HashMap::new();
    let ghost start = disputes@;
    let mut i: usize = 0;
    while i < log.len()
        invariant
            i <= log@.len(),
            log_well_formed(log@),
            (accounts@, disputes@) == replay(log@.take(i as int), start),
            index_sound(disputes@),
            forall|c: u16| #[trigger] accounts@.contains_key(c) ==> accounts@[c].wf(),
        decreases log@.len() - i,
    {
        let tx_data = log[i];
        assert(tx_data.well_formed());
        let mut account = match accounts.get(&tx_data.client) {
            Some(a) => *a,
            None => Account::default(tx_data.client),
        };
        try_to_fill_dispute_with_transaction(&tx_data, disputes);
        commit_transaction(&mut account, &tx_data, &*disputes);
        accounts.insert(tx_data.client, account);
        assert(log@.take(i + 1).drop_last() == log@.take(i as int));
        i = i + 1;
    }
    assert(log@.take(log@.len() as int) == log@);
    accounts
}

/// Replays a ledger: discovers the disputed ids, then applies every record in order.
pub fn process(log: &Vec<Transaction>) -> (r: HashMap<u16, Account>)
    requires
        log_well_formed(log@),
    ensures
        r@ == final_accounts(log@),
        forall|c: u16| #[trigger] r@.contains_key(c) ==> r@[c].wf(),
{
    let mut disputes = read_disputes(log);
    proof {
        lemma_dispute_index_sound(log@);
    }
    read_data(log, &mut disputes)
}

/// The first pass opens placeholders only.
pub proof fn lemma_dispute_index_sound(log: Seq<Transaction>)
    ensures
        index_sound(dispute_index(log)),
    decreases log.len(),
{
    if log.len() > 0 {
        lemma_dispute_index_sound(log.drop_last());
    }
}


/// The clients of a log, each once, in order of first appearance.
pub open spec fn clients_in_order(log: Seq<Transaction>) -> Seq<u16>
    decreases log.len(),
{
    if log.len() == 0 {
        Seq::empty()
    } else {
        let prev = clients_in_order(log.drop_last());
        if prev.contains(log.last().client) {
            prev
        } else {
            prev.push(log.last().client)
        }
    }
}

/// Every client that the log names has an account after the replay.
pub proof fn lemma_clients_have_accounts(log: Seq<Transaction>, index: Map<u32, Transaction>)
    ensures
        forall|c: u16| #[trigger] clients_in_order(log).contains(c) ==> replay(log, index).0.contains_key(c),
    decreases log.len(),
{
    if log.len() > 0 {
        lemma_clients_have_accounts(log.drop_last(), index);
        let prev = clients_in_order(log.drop_last());
        assert forall|c: u16| #[trigger] clients_in_order(log).contains(c) implies replay(log, index).0.contains_key(c) by {
            if !prev.contains(c) {
                assert(c == log.last().client) by {
                    let j = choose|j: int| 0 <= j < clients_in_order(log).len() && clients_in_order(log)[j] == c;
                    assert(j == prev.len());
                }
            }
        }
    }
}

fn contains_client(clients: &Vec<u16>, c: u16) -> (r: bool)
    ensures
        r == clients@.contains(c),
{
    let mut i: usize = 0;
    while i < clients.len()
        invariant
            i <= clients@.len(),
            forall|j: int| 0 <= j < i ==> clients@[j] != c,
        decreases clients@.len() - i,
    {
        if clients[i] == c {
            return true;
        }
        i = i + 1;
    }
    false
}

/// Replays a ledger and lists the final account of each client that it names, once each,
/// in the order in which the clients first appear.
pub fn process_file(log: &Vec<Transaction>) -> (r: Vec<Account>)
    requires
        log_well_formed(log@),
    ensures
        r@ == clients_in_order(log@).map_values(|c: u16| final_accounts(log@)[c]),
        forall|i: int| 0 <= i < r@.len() ==> (#[trigger] r@[i]).wf(),
{
    let accounts = process(log);
    let mut order: Vec<u16> = Vec::new();
    let mut i: usize = 0;
    while i < log.len()
        invariant
            i <= log@.len(),
            order@ == clients_in_order(log@.take(i as int)),
        decreases log@.len() - i,
    {
        assert(log@.take(i + 1).drop_last() == log@.take(i as int));
        let c = log[i].client;
        if !contains_client(&order, c) {
            order.push(c);
        }
        i = i + 1;
    }
    assert(log@.take(log@.len() as int) == log@);
    proof {
        lemma_clients_have_accounts(log@, dispute_index(log@));
    }
    let mut result: Vec<Account> = Vec::new();
    let mut k: usize = 0;
    while k < order.len()
        invariant
            k <= order@.len(),
            order@ == clients_in_order(log@),
            accounts@ == final_accounts(log@),
            forall|c: u16| #[trigger] accounts@.contains_key(c) ==> accounts@[c].wf(),
            forall|c: u16| #[trigger] clients_in_order(log@).contains(c) ==> accounts@.contains_key(c),
            result@ == order@.take(k as int).map_values(|c: u16| final_accounts(log@)[c]),
            forall|j: int| 0 <= j < result@.len() ==> (#[trigger] result@[j]).wf(),
        decreases order@.len() - k,
    {
        let c = order[k];
        assert(order@.contains(c));
        let a = *accounts.get(&c).unwrap();
        result.push(a);
        assert(order@.take(k + 1) == order@.take(k as int).push(c));
        assert(result@ =~= order@.take(k + 1).map_values(|c: u16| final_accounts(log@)[c]));
        k = k + 1;
    }
    assert(order@.take(order@.len() as int) == order@);
    result
}

/// A dispute, resolve or chargeback whose id has no known original transaction leaves the
/// account as it is, balances and lock alike.
pub proof fn lemma_unknown_reference_is_noop(acc: Account, r: Transaction, index: Map<u32, Transaction>)
    requires
        r.kind == TransactionType::Dispute || r.kind == TransactionType::Resolve || r.kind
            == TransactionType::Chargeback,
        reference(index, r.tx) is None,
    ensures
        apply_spec(acc, r, index) == acc,
{
}

/// The dispute index holds exactly one entry per id that some dispute refers to, however
/// often it is disputed: so building it again over the same log gives the same keys.
pub proof fn lemma_dispute_index_keys(log: Seq<Transaction>)
    ensures
        dispute_index(log).dom() == disputed_ids(log),
    decreases log.len(),
{
    if log.len() > 0 {
        let prev = log.drop_last();
        lemma_dispute_index_keys(prev);
        assert forall|t: u32| disputed_ids(log).contains(t) implies #[trigger] dispute_index(log).dom().contains(t) by {
            let i = choose|i: int| 0 <= i < log.len() && log[i].kind == TransactionType::Dispute && log[i].tx == t;
            if i < log.len() - 1 {
                assert(prev[i] == log[i]);
                assert(disputed_ids(prev).contains(t));
            }
        }
        assert forall|t: u32| dispute_index(log).dom().contains(t) implies #[trigger] disputed_ids(log).contains(t) by {
            if !(log.last().kind == TransactionType::Dispute && log.last().tx == t) {
                assert(disputed_ids(prev).contains(t));
                let i = choose|i: int| 0 <= i < prev.len() && prev[i].kind == TransactionType::Dispute && prev[i].tx == t;
                assert(log[i] == prev[i]);
            } else {
                assert(log[log.len() - 1] == log.last());
            }
        }
        assert(dispute_index(log).dom() =~= disputed_ids(log));
    } else {
        assert(dispute_index(log).dom() =~= disputed_ids(log));
    }
}

/// A log of deposits to one client, all well formed.
pub open spec fn deposits_of(log: Seq<Transaction>, c: u16) -> bool {
    forall|i: int|
        0 <= i < log.len() ==> (#[trigger] log[i]).kind == TransactionType::Deposit && log[i].client == c
            && log[i].well_formed()
}

/// The exact sum of the amounts of a log, in units of 10^-28.
pub open spec fn amount_sum(log: Seq<Transaction>) -> int
    decreases log.len(),
{
    if log.len() == 0 {
        0
    } else {
        amount_sum(log.drop_last()) + log.last().amount.unwrap().units()
    }
}

/// The largest scale among the amounts of a log, and that of a fresh balance.
pub open spec fn scale_bound(log: Seq<Transaction>) -> nat
    decreases log.len(),
{
    if log.len() == 0 {
        1
    } else {
        let s = scale_bound(log.drop_last());
        let t = log.last().amount.unwrap().scale as nat;
        if s >= t {
            s
        } else {
            t
        }
    }
}

proof fn lemma_amount_sum_nonneg(log: Seq<Transaction>, c: u16)
    requires
        deposits_of(log, c),
    ensures
        amount_sum(log) >= 0,
    decreases log.len(),
{
    if log.len() > 0 {
        assert(log[log.len() - 1] == log.last());
        assert(deposits_of(log.drop_last(), c)) by {
            assert forall|i: int| 0 <= i < log.len() - 1 implies #[trigger] log.drop_last()[i] == log[i] by {}
        }
        lemma_amount_sum_nonneg(log.drop_last(), c);
    }
}

proof fn lemma_deposit_replay(log: Seq<Transaction>, c: u16)
    requires
        deposits_of(log, c),
        within(amount_sum(log), scale_bound(log)),
    ensures
        replay(log, Map::empty()).1 == Map::<u32, Transaction>::empty(),
        log.len() > 0 ==> replay(log, Map::empty()).0.contains_key(c),
        account_of(replay(log, Map::empty()).0, c).available.units() == amount_sum(log),
        account_of(replay(log, Map::empty()).0, c).available.scale <= scale_bound(log),
        account_of(replay(log, Map::empty()).0, c).wf(),
        !account_of(replay(log, Map::empty()).0, c).locked,
    decreases log.len(),
{
    if log.len() > 0 {
        let prev = log.drop_last();
        let r = log.last();
        assert(log[log.len() - 1] == r);
        assert(deposits_of(prev, c)) by {
            assert forall|i: int| 0 <= i < prev.len() implies #[trigger] prev[i] == log[i] by {}
        }
        let v = r.amount.unwrap();
        lemma_amount_sum_nonneg(prev, c);
        assert(r.well_formed());
        let p = crate::amount::pow10((crate::amount::MAX_SCALE - scale_bound(log)) as nat);
        crate::amount::lemma_pow10_positive((crate::amount::MAX_SCALE - scale_bound(log)) as nat);
        let k = crate::amount::mantissa_span();
        assert(k * p > 0 && -k * p < 0) by (nonlinear_arith)
            requires
                k > 0,
                p >= 1,
        ;
        assert(v.units() >= 0);
        assert(amount_sum(log) == amount_sum(prev) + v.units());
        assert(within(amount_sum(prev), scale_bound(log)));
        lemma_within_smaller_scale(amount_sum(prev), scale_bound(log), scale_bound(prev));
        lemma_deposit_replay(prev, c);
        let acc = account_of(replay(prev, Map::empty()).0, c);
        lemma_within_smaller_scale(amount_sum(log), scale_bound(log), max_scale(acc.available, v));
        lemma_sum_exact(acc.available, v);
    }
}

/// Deposits alone to one client add up exactly: the final available balance is the sum of
/// the amounts, wherever that sum fits in 96 bits at the largest scale of the amounts.
pub proof fn lemma_deposits_add_up(log: Seq<Transaction>, c: u16)
    requires
        log.len() > 0,
        deposits_of(log, c),
        within(amount_sum(log), scale_bound(log)),
    ensures
        final_accounts(log).contains_key(c),
        final_accounts(log)[c].available.units() == amount_sum(log),
{
    lemma_no_disputes_no_index(log, c);
    lemma_deposit_replay(log, c);
}

proof fn lemma_no_disputes_no_index(log: Seq<Transaction>, c: u16)
    requires
        deposits_of(log, c),
    ensures
        dispute_index(log) == Map::<u32, Transaction>::empty(),
    decreases log.len(),
{
    if log.len() > 0 {
        assert(log[log.len() - 1] == log.last());
        assert(deposits_of(log.drop_last(), c)) by {
            assert forall|i: int| 0 <= i < log.len() - 1 implies #[trigger] log.drop_last()[i] == log[i] by {}
        }
        lemma_no_disputes_no_index(log.drop_last(), c);
    }
}

} // verus!
