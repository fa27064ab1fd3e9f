//! The ledger's data and its mathematical model.
use std::time::SystemTime;
use vstd::prelude::*;

verus! {

/// How many of an account's transactions a statement lists, newest first.
pub const RECENT_LIMIT: usize = 10;

/// An account: its id, the most its balance may go below zero, and the
/// balance itself.
#[derive(Clone, Copy, Debug, PartialEq, Eq, Structural)]
pub struct Client {
    pub id: u64,
    pub limite: i128,
    pub saldo: i128,
}

/// The direction of a transaction.
#[derive(Clone, Copy, Debug, PartialEq, Eq, Structural)]
pub enum TransactionType {
    Credit,
    Debit,
}

/// An accepted transaction: a positive magnitude with a direction, the
/// account it was applied to, its description and when it was accepted.
#[derive(Debug)]
pub struct Transaction {
    pub client_id: u64,
    pub value: i128,
    pub kind: TransactionType,
    pub description: String,
    pub when: SystemTime,
}

impl Clone for Transaction {
    fn clone(&self) -> (r: Self)
        ensures
            r == *self,
    {
        Transaction {
            client_id: self.client_id,
            value: self.value,
            kind: self.kind,
            description: self.description.clone(),
            when: self.when,
        }
    }
}

/// A request to move money: the amount, the direction code (`"c"` for a
/// credit, `"d"` for a debit) and a free-text description.
#[derive(Debug)]
pub struct TransactionInfo {
    pub valor: i128,
    pub tipo: String,
    pub descricao: String,
}

/// An account's standing right after a transaction was applied.
#[derive(Clone, Copy, Debug, PartialEq, Eq, Structural)]
pub struct TransactionResponse {
    pub limite: i128,
    pub saldo: i128,
}

/// Why a request was refused. A refused request changes nothing.
#[derive(Clone, Copy, Debug, PartialEq, Eq, Structural)]
pub enum TransactionError {
    /// No account has the given id.
    ClientNotFound,
    /// The direction code is neither `"c"` nor `"d"`.
    InvalidTransactionType,
    /// The debit would take the balance below minus the limit.
    BelowAllowedLimite,
}

/// A statement: the account, and its most recent transactions, newest first.
#[derive(Debug)]
pub struct ExtratoResponse {
    pub cliente: Client,
    pub ultimas_transacoes: Vec<Transaction>,
}

/// The direction that a code names, if any.
pub open spec fn direction_of(code: Seq<char>) -> Option<TransactionType> {
    if code == seq!['c'] {
        Some(TransactionType::Credit)
    } else if code == seq!['d'] {
        Some(TransactionType::Debit)
    } else {
        None
    }
}

/// What a transaction adds to its account's balance.
pub open spec fn signed_amount(t: Transaction) -> int {
    match t.kind {
        TransactionType::Credit => t.value as int,
        TransactionType::Debit => -(t.value as int),
    }
}

/// The sum of the signed amounts of a sequence of transactions.
pub open spec fn total(txs: Seq<Transaction>) -> int
    decreases txs.len(),
{
    if txs.len() == 0 {
        0
    } else {
        total(txs.drop_last()) + signed_amount(txs.last())
    }
}

/// The entries of the log that belong to one account, oldest first.
pub open spec fn account_log(log: Seq<Transaction>, id: u64) -> Seq<Transaction> {
    log.filter(|t: Transaction| t.client_id == id)
}

/// What a statement lists: the account's entries newest first, at most
/// `RECENT_LIMIT` of them.
pub open spec fn recent(log: Seq<Transaction>, id: u64) -> Seq<Transaction> {
    let mine = account_log(log, id).reverse();
    if mine.len() <= RECENT_LIMIT {
        mine
    } else {
        mine.take(RECENT_LIMIT as int)
    }
}

/// Account ids strictly increase along the sequence (so they are unique).
pub open spec fn ids_ascending(clients: Seq<Client>) -> bool {
    forall|i: int, j: int|
        0 <= i < j < clients.len() ==> #[trigger] clients[i].id < #[trigger] clients[j].id
}

/// A seed list of `(id, limit)` pairs is usable: ids strictly increase and
/// no limit is negative.
pub open spec fn seed_ok(limits: Seq<(u64, i128)>) -> bool {
    &&& forall|a: int, b: int|
        0 <= a < b < limits.len() ==> #[trigger] limits[a].0 < #[trigger] limits[b].0
    &&& forall|a: int| 0 <= a < limits.len() ==> #[trigger] limits[a].1 >= 0
}

/// The ledger that a seed list starts: one account per pair, every balance
/// zero, and an empty log.
pub open spec fn seeded(limits: Seq<(u64, i128)>) -> Ledger {
    Ledger {
        clients: limits.map_values(|p: (u64, i128)| Client { id: p.0, limite: p.1, saldo: 0 }),
        log: Seq::empty(),
    }
}

/// The model of a ledger: the accounts, sorted by id, and the log of
/// accepted transactions in the order they were accepted.
pub ghost struct Ledger {
    pub clients: Seq<Client>,
    pub log: Seq<Transaction>,
}

impl Ledger {
    pub open spec fn has_client(self, id: u64) -> bool {
        exists|i: int| 0 <= i < self.clients.len() && #[trigger] self.clients[i].id == id
    }

    /// The position of the account with the given id.
    pub open spec fn index_of(self, id: u64) -> int {
        choose|i: int| 0 <= i < self.clients.len() && #[trigger] self.clients[i].id == id
    }

    /// The account with the given id.
    pub open spec fn client(self, id: u64) -> Client {
        self.clients[self.index_of(id)]
    }

    /// Ids are sorted and unique, no limit is negative, no balance is below
    /// minus its limit, and each balance is the sum of its account's log.
    pub open spec fn wf(self) -> bool {
        &&& ids_ascending(self.clients)
        &&& forall|i: int|
            0 <= i < self.clients.len() ==> {
                let c = #[trigger] self.clients[i];
                &&& c.limite >= 0
                &&& c.saldo >= -c.limite
                &&& c.saldo == total(account_log(self.log, c.id))
            }
    }

    /// The result of applying a request to account `id`.
    pub open spec fn outcome(self, id: u64, info: TransactionInfo) -> Result<
        TransactionResponse,
        TransactionError,
    > {
        let c = self.client(id);
        if !self.has_client(id) {
            Err(TransactionError::ClientNotFound)
        } else {
            match direction_of(info.tipo@) {
                None => Err(TransactionError::InvalidTransactionType),
                Some(TransactionType::Credit) => Ok(
                    TransactionResponse { limite: c.limite, saldo: (c.saldo + info.valor) as i128 },
                ),
                Some(TransactionType::Debit) => if c.saldo - info.valor < -c.limite {
                    Err(TransactionError::BelowAllowedLimite)
                } else {
                    Ok(TransactionResponse { limite: c.limite, saldo: (c.saldo - info.valor) as i128 })
                },
            }
        }
    }

    /// The record that an accepted request appends to the log.
    pub open spec fn record(id: u64, info: TransactionInfo, when: SystemTime) -> Transaction {
        Transaction {
            client_id: id,
            value: info.valor,
            kind: direction_of(info.tipo@).unwrap(),
            description: info.descricao,
            when,
        }
    }

    /// The ledger after a request: on success the account takes the new
    /// balance and the record is appended; on failure nothing changes.
    pub open spec fn step(self, id: u64, info: TransactionInfo, when: SystemTime) -> Ledger {
        match self.outcome(id, info) {
            Ok(resp) => Ledger {
                clients: self.clients.update(
                    self.index_of(id),
                    Client { id, limite: resp.limite, saldo: resp.saldo },
                ),
                log: self.log.push(Ledger::record(id, info, when)),
            },
            Err(_) => self,
        }
    }

    /// The amount is positive, and a credit keeps the balance within `i128`.
    pub open spec fn admits(self, id: u64, info: TransactionInfo) -> bool {
        &&& info.valor > 0
        &&& (self.has_client(id) && direction_of(info.tipo@) == Some(TransactionType::Credit)
            ==> self.client(id).saldo + info.valor <= i128::MAX)
    }
}

/// Appending a record adds its signed amount to its own account's total and
/// leaves the other accounts' logs alone.
pub proof fn lemma_log_push(log: Seq<Transaction>, t: Transaction, id: u64)
    ensures
        account_log(log.push(t), id) == if t.client_id == id {
            account_log(log, id).push(t)
        } else {
            account_log(log, id)
        },
        total(account_log(log.push(t), id)) == total(account_log(log, id)) + if t.client_id
            == id {
            signed_amount(t)
        } else {
            0
        },
{
    log.lemma_filter_push(t, |t: Transaction| t.client_id == id);
    let a = account_log(log, id);
    assert(a.push(t).drop_last() =~= a);
}

/// A ledger with an empty log, sorted ids, non-negative limits and zero
/// balances is well formed.
pub proof fn lemma_fresh_wf(s: Ledger)
    requires
        s.log.len() == 0,
        ids_ascending(s.clients),
        forall|i: int|
            0 <= i < s.clients.len() ==> #[trigger] s.clients[i].limite >= 0
                && s.clients[i].saldo == 0,
    ensures
        s.wf(),
{
    reveal(Seq::filter);
    assert forall|i: int| 0 <= i < s.clients.len() implies total(
        account_log(s.log, #[trigger] s.clients[i].id),
    ) == 0 by {
        assert(account_log(s.log, s.clients[i].id).len() == 0);
    }
}

/// A well-formed ledger stays well formed after any admitted request.
pub proof fn lemma_step_wf(s: Ledger, id: u64, info: TransactionInfo, when: SystemTime)
    requires
        s.wf(),
        s.admits(id, info),
    ensures
        s.step(id, info, when).wf(),
{
    if s.outcome(id, info) is Ok {
        let n = s.step(id, info, when);
        let t = Ledger::record(id, info, when);
        let k = s.index_of(id);
        assert forall|i: int| 0 <= i < n.clients.len() implies {
            let c = #[trigger] n.clients[i];
            &&& c.limite >= 0
            &&& c.saldo >= -c.limite
            &&& c.saldo == total(account_log(n.log, c.id))
        } by {
            lemma_log_push(s.log, t, s.clients[i].id);
            if i != k {
                assert(s.clients[i].id != id);
            }
        }
    }
}

} // verus!
