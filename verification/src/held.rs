//! The law that held funds never go negative, for logs in which amounts are
//! not negative, no transaction identifier is used twice, and disputes are
//! raised and settled by the client of the disputed transaction.

use crate::books::Books;
use crate::record::{Outcome, Record, TransactionType};
use vstd::prelude::*;

verus! {

/// Whether `record` is a deposit or a withdrawal: the kinds that can enter
/// an amount in the ledger.
pub open spec fn is_payment(record: Record) -> bool {
    record.transaction_type == TransactionType::Deposit || record.transaction_type
        == TransactionType::Withdrawal
}

/// Whether `record` is a dispute, a resolve or a chargeback.
pub open spec fn is_claim(record: Record) -> bool {
    record.transaction_type == TransactionType::Dispute || record.transaction_type
        == TransactionType::Resolve || record.transaction_type == TransactionType::Chargeback
}

/// Whether entry `i` of `log` is a deposit or withdrawal with identifier `tx`.
pub open spec fn pays(log: Seq<Record>, i: int, tx: u32) -> bool {
    0 <= i < log.len() && is_payment(log[i]) && log[i].tx == tx
}

/// Whether entry `j` of `log` is a dispute, resolve or chargeback of `tx`.
pub open spec fn claims(log: Seq<Record>, j: int, tx: u32) -> bool {
    0 <= j < log.len() && is_claim(log[j]) && log[j].tx == tx
}

/// A log is orderly if no deposit or withdrawal has a negative amount, no
/// two of them share a transaction identifier, and every dispute, resolve
/// and chargeback names the client of the deposit or withdrawal it refers to.
pub open spec fn orderly(log: Seq<Record>) -> bool {
    &&& forall|i: int, tx: u32| #[trigger] pays(log, i, tx) ==> log[i].amount >= 0
    &&& forall|i: int, j: int, tx: u32| #[trigger]
        pays(log, i, tx) && #[trigger] pays(log, j, tx) ==> i == j
    &&& forall|i: int, j: int, tx: u32| #[trigger]
        pays(log, i, tx) && #[trigger] claims(log, j, tx) ==> log[i].client == log[j].client
}

/// Whether the deposit or withdrawal with identifier `tx` is one of `client`.
spec fn owned_by(log: Seq<Record>, tx: u32, client: u16) -> bool {
    exists|i: int| pays(log, i, tx) && log[i].client == client
}

/// What the open dispute of `tx`, if there is one, holds of the funds of `client`.
spec fn owed(books: Books, log: Seq<Record>, client: u16, tx: u32) -> int {
    if books.disputes.contains(tx) && owned_by(log, tx, client) {
        books.ledger[tx] as int
    } else {
        0
    }
}

/// What the open disputes of transactions below `n` hold of the funds of `client`.
spec fn owed_below(books: Books, log: Seq<Record>, client: u16, n: nat) -> int
    decreases n,
{
    if n == 0 {
        0
    } else {
        owed_below(books, log, client, (n - 1) as nat) + owed(books, log, client, (n - 1) as u32)
    }
}

/// The held funds of `client`, zero where the client has no account.
spec fn held_of(books: Books, client: u16) -> int {
    if books.accounts.contains_key(client) {
        books.accounts[client].held as int
    } else {
        0
    }
}

/// What holds of the state after the first `k` records of an orderly log.
spec fn inv(books: Books, log: Seq<Record>, k: int) -> bool {
    &&& books.wf()
    &&& forall|tx: u32| #[trigger]
        books.ledger.contains_key(tx) ==> exists|i: int|
            pays(log, i, tx) && i < k && log[i].amount == books.ledger[tx]
    &&& forall|client: u16|
        owed_below(books, log, client, 0x1_0000_0000) <= #[trigger] held_of(books, client)
}

/// Two states that hold the same for every transaction hold the same in sum.
proof fn lemma_owed_below_same(a: Books, b: Books, log: Seq<Record>, client: u16, n: nat)
    requires
        n <= 0x1_0000_0000,
        forall|tx: u32| owed(a, log, client, tx) == owed(b, log, client, tx),
    ensures
        owed_below(a, log, client, n) == owed_below(b, log, client, n),
    decreases n,
{
    if n > 0 {
        lemma_owed_below_same(a, b, log, client, (n - 1) as nat);
    }
}

/// Two states that differ in what they hold for one transaction only differ
/// by as much in sum.
proof fn lemma_owed_below_one_change(
    a: Books,
    b: Books,
    log: Seq<Record>,
    client: u16,
    t: u32,
    n: nat,
)
    requires
        n <= 0x1_0000_0000,
        forall|tx: u32| tx != t ==> owed(a, log, client, tx) == owed(b, log, client, tx),
    ensures
        owed_below(b, log, client, n) == owed_below(a, log, client, n) + if t < n {
            owed(b, log, client, t) - owed(a, log, client, t)
        } else {
            0
        },
    decreases n,
{
    if n > 0 {
        lemma_owed_below_one_change(a, b, log, client, t, (n - 1) as nat);
    }
}

/// Where no open dispute holds a negative amount, the sum is not negative.
proof fn lemma_owed_below_not_negative(books: Books, log: Seq<Record>, client: u16, n: nat)
    requires
        n <= 0x1_0000_0000,
        forall|tx: u32| owed(books, log, client, tx) >= 0,
    ensures
        owed_below(books, log, client, n) >= 0,
    decreases n,
{
    if n > 0 {
        lemma_owed_below_not_negative(books, log, client, (n - 1) as nat);
    }
}

} // verus!

verus! {

/// A deposit or withdrawal that is applied enters a fresh transaction in the
/// ledger and leaves every held amount and every open dispute as it was.
proof fn lemma_payment_keeps_inv(books: Books, log: Seq<Record>, k: int)
    requires
        orderly(log),
        0 <= k < log.len(),
        inv(books, log, k),
        is_payment(log[k]),
        books.outcome(log[k]) == Outcome::Applied,
    ensures
        inv(books.step(log[k]), log, k + 1),
{
    let r = log[k];
    let after = books.step(r);
    crate::laws::lemma_step_keeps_wf(books, r);
    assert(pays(log, k, r.tx));
    assert(!books.ledger.contains_key(r.tx));
    assert(!books.disputes.contains(r.tx));
    assert(after.ledger == books.ledger.insert(r.tx, r.amount));
    assert(after.disputes == books.disputes);
    assert forall|tx: u32| #[trigger] after.ledger.contains_key(tx) implies exists|i: int|
        pays(log, i, tx) && i < k + 1 && log[i].amount == after.ledger[tx] by {
        if tx != r.tx {
            assert(books.ledger.contains_key(tx));
            let i = choose|i: int| pays(log, i, tx) && i < k && log[i].amount == books.ledger[tx];
            assert(pays(log, i, tx) && i < k + 1 && log[i].amount == after.ledger[tx]);
        }
    }
    assert forall|client: u16|
        owed_below(after, log, client, 0x1_0000_0000) <= #[trigger] held_of(
            after,
            client,
        ) by {
        assert(held_of(after, client) == held_of(books, client));
        assert forall|tx: u32| owed(books, log, client, tx) == owed(after, log, client, tx) by {}
        lemma_owed_below_same(books, after, log, client, 0x1_0000_0000);
    }
}

/// A dispute, resolve or chargeback that is applied changes what is held of
/// the funds of its client, and what its client holds, by the same amount.
proof fn lemma_claim_keeps_inv(books: Books, log: Seq<Record>, k: int)
    requires
        orderly(log),
        0 <= k < log.len(),
        inv(books, log, k),
        is_claim(log[k]),
        books.outcome(log[k]) == Outcome::Applied,
    ensures
        inv(books.step(log[k]), log, k + 1),
{
    let r = log[k];
    let t = r.tx;
    let c = r.client;
    let after = books.step(r);
    crate::laws::lemma_step_keeps_wf(books, r);
    assert(claims(log, k, t));
    assert(books.ledger.contains_key(t));
    assert(after.ledger == books.ledger);
    let d = books.ledger[t] as int;
    let p = choose|i: int| pays(log, i, t) && i < k && log[i].amount == books.ledger[t];
    assert(pays(log, p, t));
    assert(log[p].client == c);
    assert(d >= 0);
    assert(owned_by(log, t, c));
    assert forall|tx: u32| #[trigger] after.ledger.contains_key(tx) implies exists|i: int|
        pays(log, i, tx) && i < k + 1 && log[i].amount == after.ledger[tx] by {
        let i = choose|i: int| pays(log, i, tx) && i < k && log[i].amount == books.ledger[tx];
        assert(pays(log, i, tx) && i < k + 1 && log[i].amount == after.ledger[tx]);
    }
    assert forall|client: u16|
        owed_below(after, log, client, 0x1_0000_0000) <= #[trigger] held_of(
            after,
            client,
        ) by {
        assert(owed_below(books, log, client, 0x1_0000_0000) <= held_of(books, client));
        if client == c {
            assert forall|tx: u32| tx != t implies owed(books, log, client, tx) == owed(
                after,
                log,
                client,
                tx,
            ) by {}
            lemma_owed_below_one_change(books, after, log, client, t, 0x1_0000_0000);
            if r.transaction_type == TransactionType::Dispute {
                assert(owed(after, log, c, t) == d);
                assert(owed(books, log, c, t) == d || owed(books, log, c, t) == 0);
                assert(held_of(after, c) == held_of(books, c) + d);
            } else {
                assert(owed(after, log, c, t) == 0);
                assert(owed(books, log, c, t) == d);
                assert(held_of(after, c) == held_of(books, c) - d);
            }
        } else {
            assert(held_of(after, client) == held_of(books, client));
            assert(!owned_by(log, t, client)) by {
                if owned_by(log, t, client) {
                    let i = choose|i: int| pays(log, i, t) && log[i].client == client;
                    assert(pays(log, i, t));
                    assert(i == p);
                }
            }
            assert forall|tx: u32| owed(books, log, client, tx) == owed(
                after,
                log,
                client,
                tx,
            ) by {}
            lemma_owed_below_same(books, after, log, client, 0x1_0000_0000);
        }
    }
}

/// Each record of an orderly log keeps the invariant.
proof fn lemma_step_keeps_inv(books: Books, log: Seq<Record>, k: int)
    requires
        orderly(log),
        0 <= k < log.len(),
        inv(books, log, k),
    ensures
        inv(books.step(log[k]), log, k + 1),
{
    let r = log[k];
    if books.outcome(r) != Outcome::Applied {
        crate::laws::lemma_rejection_changes_nothing(books, r);
        assert forall|tx: u32| #[trigger] books.ledger.contains_key(tx) implies exists|i: int|
            pays(log, i, tx) && i < k + 1 && log[i].amount == books.ledger[tx] by {
            let i = choose|i: int| pays(log, i, tx) && i < k && log[i].amount == books.ledger[tx];
            assert(pays(log, i, tx) && i < k + 1 && log[i].amount == books.ledger[tx]);
        }
    } else if is_payment(r) {
        lemma_payment_keeps_inv(books, log, k);
    } else {
        lemma_claim_keeps_inv(books, log, k);
    }
}

/// The invariant holds after every prefix of an orderly log.
proof fn lemma_run_keeps_inv(log: Seq<Record>, k: int)
    requires
        orderly(log),
        0 <= k <= log.len(),
    ensures
        inv(Books::empty().run(log.take(k)), log, k),
    decreases k,
{
    if k == 0 {
        let start = Books::empty();
        assert(log.take(0).len() == 0);
        assert forall|client: u16|
            owed_below(start, log, client, 0x1_0000_0000) <= #[trigger] held_of(
                start,
                client,
            ) by {
            lemma_owed_below_same(start, start, log, client, 0x1_0000_0000);
            lemma_owed_below_zero(start, log, client, 0x1_0000_0000);
        }
    } else {
        lemma_run_keeps_inv(log, k - 1);
        let shorter = log.take(k - 1);
        assert(log.take(k).drop_last() =~= shorter);
        assert(log.take(k).last() == log[k - 1]);
        lemma_step_keeps_inv(Books::empty().run(shorter), log, k - 1);
    }
}

/// Where no open dispute holds anything, the sum is zero.
proof fn lemma_owed_below_zero(books: Books, log: Seq<Record>, client: u16, n: nat)
    requires
        n <= 0x1_0000_0000,
        forall|tx: u32| owed(books, log, client, tx) == 0,
    ensures
        owed_below(books, log, client, n) == 0,
    decreases n,
{
    if n > 0 {
        lemma_owed_below_zero(books, log, client, (n - 1) as nat);
    }
}

/// At every point of an orderly log, replayed from the empty state, no
/// account holds a negative amount: this is so after the first `k` records,
/// for every `k`, and so after the whole log.
pub proof fn lemma_held_is_never_negative(log: Seq<Record>, k: int)
    requires
        orderly(log),
        0 <= k <= log.len(),
    ensures
        forall|id: u16| #[trigger]
            Books::empty().run(log.take(k)).accounts.contains_key(id) ==> Books::empty().run(
                log.take(k),
            ).accounts[id].held >= 0,
        log.take(log.len() as int) == log,
{
    let end = Books::empty().run(log.take(k));
    lemma_run_keeps_inv(log, k);
    assert(log.take(log.len() as int) =~= log);
    assert forall|id: u16| #[trigger] end.accounts.contains_key(id) implies end.accounts[id].held
        >= 0 by {
        assert(owed_below(end, log, id, 0x1_0000_0000) <= held_of(end, id));
        assert forall|tx: u32| owed(end, log, id, tx) >= 0 by {
            if end.disputes.contains(tx) {
                assert(end.ledger.contains_key(tx));
                let i = choose|i: int| pays(log, i, tx) && i < k && log[i].amount == end.ledger[tx];
                assert(pays(log, i, tx));
            }
        }
        lemma_owed_below_not_negative(end, log, id, 0x1_0000_0000);
    }
}

} // verus!
