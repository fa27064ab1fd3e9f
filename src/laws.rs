//! What holds of the ledger across several requests.
//!
//! A run is a sequence of requests, each an account id, a request and the
//! time stamp it was accepted with, applied one after another by
//! [`Ledger::step`]: this is the order in which the store serialises them.
use crate::model::{
    account_log, direction_of, ids_ascending, lemma_fresh_wf, lemma_log_push, lemma_step_wf,
    recent, seed_ok, seeded, total, Ledger, Transaction, TransactionError, TransactionInfo,
    TransactionResponse, TransactionType, RECENT_LIMIT,
};
use std::time::SystemTime;
use vstd::prelude::*;

verus! {

/// The ledger after every request of a run.
pub open spec fn run(s: Ledger, reqs: Seq<(u64, TransactionInfo, SystemTime)>) -> Ledger
    decreases reqs.len(),
{
    if reqs.len() == 0 {
        s
    } else {
        run(s.step(reqs[0].0, reqs[0].1, reqs[0].2), reqs.drop_first())
    }
}

/// Each request of the run is admitted by the ledger it meets.
pub open spec fn runnable(s: Ledger, reqs: Seq<(u64, TransactionInfo, SystemTime)>) -> bool
    decreases reqs.len(),
{
    if reqs.len() == 0 {
        true
    } else {
        s.admits(reqs[0].0, reqs[0].1) && runnable(
            s.step(reqs[0].0, reqs[0].1, reqs[0].2),
            reqs.drop_first(),
        )
    }
}

/// The records of the accepted requests of a run on account `id`, in order.
pub open spec fn accepted(s: Ledger, reqs: Seq<(u64, TransactionInfo, SystemTime)>, id: u64) -> Seq<
    Transaction,
>
    decreases reqs.len(),
{
    if reqs.len() == 0 {
        Seq::empty()
    } else {
        let (rid, info, when) = reqs[0];
        let first = if s.outcome(rid, info) is Ok && rid == id {
            seq![Ledger::record(rid, info, when)]
        } else {
            Seq::empty()
        };
        first + accepted(s.step(rid, info, when), reqs.drop_first(), id)
    }
}

/// How many requests of a run are accepted, on any account.
pub open spec fn accepted_count(s: Ledger, reqs: Seq<(u64, TransactionInfo, SystemTime)>) -> nat
    decreases reqs.len(),
{
    if reqs.len() == 0 {
        0
    } else {
        let (rid, info, when) = reqs[0];
        (if s.outcome(rid, info) is Ok {
            1nat
        } else {
            0nat
        }) + accepted_count(s.step(rid, info, when), reqs.drop_first())
    }
}

/// The total of two sequences laid end to end is the sum of their totals.
pub proof fn lemma_total_concat(a: Seq<Transaction>, b: Seq<Transaction>)
    ensures
        total(a + b) == total(a) + total(b),
    decreases b.len(),
{
    if b.len() > 0 {
        assert((a + b).drop_last() =~= a + b.drop_last());
        lemma_total_concat(a, b.drop_last());
    } else {
        assert(a + b =~= a);
    }
}

/// A request keeps every account's id and limit where they are.
proof fn lemma_step_keeps_accounts(s: Ledger, id: u64, info: TransactionInfo, when: SystemTime)
    requires
        s.wf(),
    ensures
        s.step(id, info, when).clients.len() == s.clients.len(),
        forall|i: int|
            0 <= i < s.clients.len() ==> (#[trigger] s.step(id, info, when).clients[i]).id
                == s.clients[i].id && s.step(id, info, when).clients[i].limite
                == s.clients[i].limite,
{
}

/// In a well-formed ledger, `client(id)` is the account at any position that
/// holds `id`.
proof fn lemma_index_unique(s: Ledger, id: u64, k: int)
    requires
        ids_ascending(s.clients),
        0 <= k < s.clients.len(),
        s.clients[k].id == id,
    ensures
        s.has_client(id),
        s.index_of(id) == k,
{
}

/// Every ledger that an admitted run reaches from a well-formed one is well
/// formed; in particular no balance is ever below minus its limit.
pub proof fn lemma_run_keeps_floor(s: Ledger, reqs: Seq<(u64, TransactionInfo, SystemTime)>)
    requires
        s.wf(),
        runnable(s, reqs),
    ensures
        run(s, reqs).wf(),
        forall|i: int|
            0 <= i < run(s, reqs).clients.len() ==> (#[trigger] run(s, reqs).clients[i]).saldo
                >= -run(s, reqs).clients[i].limite,
    decreases reqs.len(),
{
    if reqs.len() > 0 {
        lemma_step_wf(s, reqs[0].0, reqs[0].1, reqs[0].2);
        lemma_run_keeps_floor(s.step(reqs[0].0, reqs[0].1, reqs[0].2), reqs.drop_first());
    }
}

/// Over a run, each account's log grows by exactly the records of the
/// requests accepted on it, in the order they were accepted, and the whole
/// log grows by one entry per accepted request.
pub proof fn lemma_run_log(s: Ledger, reqs: Seq<(u64, TransactionInfo, SystemTime)>, id: u64)
    requires
        s.wf(),
        runnable(s, reqs),
    ensures
        account_log(run(s, reqs).log, id) == account_log(s.log, id) + accepted(s, reqs, id),
        run(s, reqs).log.len() == s.log.len() + accepted_count(s, reqs),
        run(s, reqs).clients.len() == s.clients.len(),
        forall|i: int|
            0 <= i < s.clients.len() ==> (#[trigger] run(s, reqs).clients[i]).id
                == s.clients[i].id && run(s, reqs).clients[i].limite == s.clients[i].limite,
    decreases reqs.len(),
{
    if reqs.len() == 0 {
        assert(account_log(s.log, id) + Seq::empty() =~= account_log(s.log, id));
    } else {
        let (rid, info, when) = reqs[0];
        let n = s.step(rid, info, when);
        lemma_step_wf(s, rid, info, when);
        lemma_step_keeps_accounts(s, rid, info, when);
        lemma_run_log(n, reqs.drop_first(), id);
        let rest = accepted(n, reqs.drop_first(), id);
        if s.outcome(rid, info) is Ok {
            let t = Ledger::record(rid, info, when);
            lemma_log_push(s.log, t, id);
            if rid == id {
                assert(account_log(s.log, id).push(t) + rest =~= account_log(s.log, id) + (seq![t]
                    + rest));
            } else {
                assert(Seq::<Transaction>::empty() + rest =~= rest);
            }
        } else {
            assert(Seq::<Transaction>::empty() + rest =~= rest);
        }
    }
}

/// Over a run, an account's balance moves by exactly the signed amounts of
/// the requests accepted on it: credits added, debits taken away, none lost.
pub proof fn lemma_run_balance(s: Ledger, reqs: Seq<(u64, TransactionInfo, SystemTime)>, id: u64)
    requires
        s.wf(),
        runnable(s, reqs),
        s.has_client(id),
    ensures
        run(s, reqs).has_client(id),
        run(s, reqs).client(id).saldo == s.client(id).saldo + total(accepted(s, reqs, id)),
        run(s, reqs).log.len() == s.log.len() + accepted_count(s, reqs),
{
    let e = run(s, reqs);
    let k = s.index_of(id);
    lemma_run_log(s, reqs, id);
    lemma_run_keeps_floor(s, reqs);
    lemma_index_unique(e, id, k);
    lemma_total_concat(account_log(s.log, id), accepted(s, reqs, id));
    assert(e.clients[k].saldo == total(account_log(e.log, e.clients[k].id)));
    assert(s.clients[k].saldo == total(account_log(s.log, s.clients[k].id)));
}

/// From a freshly seeded ledger, after any admitted run, an account's
/// balance is the sum of the signed amounts of the requests accepted on it,
/// and its statement lists exactly those records, newest first, at most
/// `RECENT_LIMIT` of them.
pub proof fn lemma_statement_after_run(
    limits: Seq<(u64, i128)>,
    reqs: Seq<(u64, TransactionInfo, SystemTime)>,
    id: u64,
)
    requires
        seed_ok(limits),
        runnable(seeded(limits), reqs),
        seeded(limits).has_client(id),
    ensures
        ({
            let e = run(seeded(limits), reqs);
            let mine = accepted(seeded(limits), reqs, id);
            &&& e.has_client(id)
            &&& e.client(id).saldo == total(mine)
            &&& recent(e.log, id) == if mine.len() <= RECENT_LIMIT {
                mine.reverse()
            } else {
                mine.reverse().take(RECENT_LIMIT as int)
            }
        }),
{
    let s = seeded(limits);
    assert(ids_ascending(s.clients));
    lemma_fresh_wf(s);
    reveal(Seq::filter);
    assert(account_log(s.log, id) =~= Seq::<Transaction>::empty());
    assert(s.client(id).saldo == 0);
    lemma_run_balance(s, reqs, id);
    lemma_run_log(s, reqs, id);
    let mine = accepted(s, reqs, id);
    assert(Seq::<Transaction>::empty() + mine =~= mine);
}

/// A debit is accepted exactly when it leaves the balance at or above minus
/// the limit: one that lands on minus the limit goes through, one a unit
/// larger is refused and changes nothing.
pub proof fn lemma_debit_boundary(s: Ledger, id: u64, info: TransactionInfo, when: SystemTime)
    requires
        s.wf(),
        s.has_client(id),
        direction_of(info.tipo@) == Some(TransactionType::Debit),
    ensures
        (s.outcome(id, info) is Ok) <==> info.valor <= s.client(id).saldo + s.client(id).limite,
        info.valor == s.client(id).saldo + s.client(id).limite ==> s.step(id, info, when).client(
            id,
        ).saldo == -s.client(id).limite,
        info.valor == s.client(id).saldo + s.client(id).limite + 1 ==> s.outcome(id, info) == Err::<TransactionResponse, TransactionError>(
            TransactionError::BelowAllowedLimite,
        ) && s.step(id, info, when) == s,
{
    let k = s.index_of(id);
    lemma_step_keeps_accounts(s, id, info, when);
    lemma_index_unique(s.step(id, info, when), id, k);
}

/// A credit of an amount followed by a debit of the same amount on the same
/// account are both accepted, leave every balance as it was, and add exactly
/// two entries to the log.
pub proof fn lemma_credit_then_debit(
    s: Ledger,
    id: u64,
    credit: TransactionInfo,
    debit: TransactionInfo,
    w1: SystemTime,
    w2: SystemTime,
)
    requires
        s.wf(),
        s.has_client(id),
        credit.valor > 0,
        debit.valor == credit.valor,
        direction_of(credit.tipo@) == Some(TransactionType::Credit),
        direction_of(debit.tipo@) == Some(TransactionType::Debit),
        s.client(id).saldo + credit.valor <= i128::MAX,
    ensures
        s.outcome(id, credit) is Ok,
        s.step(id, credit, w1).outcome(id, debit) is Ok,
        s.step(id, credit, w1).step(id, debit, w2).clients == s.clients,
        s.step(id, credit, w1).step(id, debit, w2).log.len() == s.log.len() + 2,
{
    let k = s.index_of(id);
    let s1 = s.step(id, credit, w1);
    lemma_step_keeps_accounts(s, id, credit, w1);
    lemma_index_unique(s1, id, k);
    let s2 = s1.step(id, debit, w2);
    assert(s2.clients =~= s.clients);
}

/// A request on an id that no account has is refused with `ClientNotFound`
/// and changes nothing, the log included.
pub proof fn lemma_unknown_account(s: Ledger, id: u64, info: TransactionInfo, when: SystemTime)
    requires
        !s.has_client(id),
    ensures
        s.outcome(id, info) == Err::<TransactionResponse, TransactionError>(
            TransactionError::ClientNotFound,
        ),
        s.step(id, info, when) == s,
{
}

} // verus!
