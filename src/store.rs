//! The ledger store: the accounts and the log, changed only by its methods.
use crate::model::{
    account_log, direction_of, ids_ascending, lemma_log_push, lemma_step_wf, recent, seed_ok, seeded, lemma_fresh_wf, Client, Ledger, Transaction,
    ExtratoResponse, TransactionError, TransactionInfo, RECENT_LIMIT, TransactionResponse, TransactionType,
};
use std::time::SystemTime;
use vstd::prelude::*;

verus! {

/// Finds the position of the account with the given id by binary search.
fn find_client(clients: &Vec<Client>, id: u64) -> (r: Option<usize>)
    requires
        ids_ascending(clients@),
    ensures
        match r {
            Some(i) => i < clients@.len() && clients@[i as int].id == id,
            None => forall|i: int| 0 <= i < clients@.len() ==> #[trigger] clients@[i].id != id,
        },
{
    let mut lo: usize = 0;
    let mut hi: usize = clients.len();
    while lo < hi
        invariant
            lo <= hi <= clients@.len(),
            ids_ascending(clients@),
            forall|i: int| 0 <= i < lo ==> #[trigger] clients@[i].id < id,
            forall|i: int| hi <= i < clients@.len() ==> #[trigger] clients@[i].id > id,
        decreases hi - lo,
    {
        let mid = lo + (hi - lo) / 2;
        let mid_id = clients[mid].id;
        if mid_id == id {
            return Some(mid);
        } else if mid_id < id {
            lo = mid + 1;
        } else {
            hi = mid;
        }
    }
    None
}

/// The direction that a code names: `"c"` a credit, `"d"` a debit.
fn direction(code: &String) -> (r: Option<TransactionType>)
    ensures
        r == direction_of(code@),
{
    proof {
        reveal_strlit("c");
        reveal_strlit("d");
        assert("c"@ =~= seq!['c']);
        assert("d"@ =~= seq!['d']);
    }
    let credit = "c".to_owned();
    let debit = "d".to_owned();
    if *code == credit {
        Some(TransactionType::Credit)
    } else if *code == debit {
        Some(TransactionType::Debit)
    } else {
        None
    }
}

/// The ledger store. It owns the accounts and the log; they change only
/// through [`AppState::apply_transaction`], which keeps every balance at or
/// above minus its limit.
pub struct AppState {
    clients: Vec<Client>,
    transactions: Vec<Transaction>,
}

impl View for AppState {
    type V = Ledger;

    closed spec fn view(&self) -> Ledger {
        Ledger { clients: self.clients@, log: self.transactions@ }
    }
}

impl AppState {
    pub open spec fn wf(&self) -> bool {
        self@.wf()
    }

    /// The ledger as it starts: five accounts with their limits, every
    /// balance zero, and an empty log.
    pub fn new() -> (r: AppState)
        ensures
            r.wf(),
            r@.log.len() == 0,
            r@.clients == seq![
                Client { id: 1, limite: 100000, saldo: 0 },
                Client { id: 2, limite: 80000, saldo: 0 },
                Client { id: 3, limite: 1000000, saldo: 0 },
                Client { id: 4, limite: 10000000, saldo: 0 },
                Client { id: 5, limite: 500000, saldo: 0 },
            ],
    {
        let r = AppState {
            clients: vec![
                Client { id: 1, limite: 100000, saldo: 0 },
                Client { id: 2, limite: 80000, saldo: 0 },
                Client { id: 3, limite: 1000000, saldo: 0 },
                Client { id: 4, limite: 10000000, saldo: 0 },
                Client { id: 5, limite: 500000, saldo: 0 },
            ],
            transactions: Vec::new(),
        };
        proof {
            lemma_fresh_wf(r@);
        }
        r
    }

    /// Applies a request stamped with `when`: a credit raises the balance, a
    /// debit lowers it unless that would take it below minus the limit. On
    /// success the balance and the log change together; on failure nothing
    /// changes.
    pub fn apply_transaction(
        &mut self,
        client_id: u64,
        transaction: &TransactionInfo,
        when: SystemTime,
    ) -> (r: Result<TransactionResponse, TransactionError>)
        requires
            old(self).wf(),
            old(self)@.admits(client_id, *transaction),
        ensures
            final(self).wf(),
            r == old(self)@.outcome(client_id, *transaction),
            final(self)@ == old(self)@.step(client_id, *transaction, when),
    {
        let idx = match find_client(&self.clients, client_id) {
            Some(i) => i,
            None => return Err(TransactionError::ClientNotFound),
        };
        proof {
            assert(self@.has_client(client_id));
            assert(self@.index_of(client_id) == idx);
        }
        let kind = match direction(&transaction.tipo) {
            Some(k) => k,
            None => return Err(TransactionError::InvalidTransactionType),
        };
        let c = self.clients[idx];
        let saldo = match kind {
            TransactionType::Credit => c.saldo + transaction.valor,
            TransactionType::Debit => {
                if c.saldo < transaction.valor - c.limite {
                    return Err(TransactionError::BelowAllowedLimite);
                }
                c.saldo - transaction.valor
            },
        };
        self.clients[idx] = Client { id: c.id, limite: c.limite, saldo };
        self.transactions.push(
            Transaction {
                client_id,
                value: transaction.valor,
                kind,
                description: transaction.descricao.clone(),
                when,
            },
        );
        proof {
            lemma_step_wf(old(self)@, client_id, *transaction, when);
            assert(self@.clients =~= old(self)@.step(client_id, *transaction, when).clients);
        }
        Ok(TransactionResponse { limite: c.limite, saldo })
    }

    /// Applies a request stamped with the current time; see
    /// [`AppState::apply_transaction`]. Only the time stamp of the new record
    /// is left open.
    pub fn handle_transaction(&mut self, client_id: u64, transaction: &TransactionInfo) -> (r:
        Result<TransactionResponse, TransactionError>)
        requires
            old(self).wf(),
            old(self)@.admits(client_id, *transaction),
        ensures
            final(self).wf(),
            r == old(self)@.outcome(client_id, *transaction),
            r is Ok ==> final(self)@ == old(self)@.step(
                client_id,
                *transaction,
                final(self)@.log.last().when,
            ),
            r is Err ==> final(self)@ == old(self)@,
    {
        let when = SystemTime::now();
        self.apply_transaction(client_id, transaction, when)
    }

    /// Whether a request may be handed to [`AppState::handle_transaction`]:
    /// its amount is positive and, for a credit to a known account, the new
    /// balance fits in an `i128`.
    pub fn admits(&self, client_id: u64, transaction: &TransactionInfo) -> (r: bool)
        requires
            self.wf(),
        ensures
            r == self@.admits(client_id, *transaction),
    {
        if transaction.valor <= 0 {
            return false;
        }
        match find_client(&self.clients, client_id) {
            None => true,
            Some(i) => {
                proof {
                    assert(self@.index_of(client_id) == i);
                }
                match direction(&transaction.tipo) {
                    Some(TransactionType::Credit) => self.clients[i].saldo <= i128::MAX
                        - transaction.valor,
                    _ => true,
                }
            },
        }
    }

    /// A statement of one account: its limit and balance, and its most recent
    /// transactions, newest first, both as of the same instant.
    pub fn get_extrato(&self, client_id: u64) -> (r: Result<ExtratoResponse, TransactionError>)
        requires
            self.wf(),
        ensures
            match r {
                Ok(e) => self@.has_client(client_id) && e.cliente == self@.client(client_id)
                    && e.ultimas_transacoes@ == recent(self@.log, client_id),
                Err(err) => !self@.has_client(client_id) && err == TransactionError::ClientNotFound,
            },
    {
        let idx = match find_client(&self.clients, client_id) {
            Some(i) => i,
            None => return Err(TransactionError::ClientNotFound),
        };
        proof {
            assert(self@.index_of(client_id) == idx);
        }
        let cliente = self.clients[idx];
        let ghost log = self.transactions@;
        let mut mine: Vec<Transaction> = Vec::new();
        let mut i: usize = 0;
        while i < self.transactions.len()
            invariant
                i <= log.len(),
                log == self.transactions@,
                mine@ == account_log(log.take(i as int), client_id),
            decreases log.len() - i,
        {
            proof {
                assert(log.take(i + 1) =~= log.take(i as int).push(log[i as int]));
                lemma_log_push(log.take(i as int), log[i as int], client_id);
            }
            if self.transactions[i].client_id == client_id {
                mine.push(self.transactions[i].clone());
            }
            i += 1;
        }
        proof {
            assert(log.take(log.len() as int) =~= log);
        }
        let ghost full = mine@;
        let mut out: Vec<Transaction> = Vec::new();
        while out.len() < RECENT_LIMIT && mine.len() > 0
            invariant
                out.len() <= full.len(),
                out.len() <= RECENT_LIMIT,
                mine@ == full.take(full.len() - out.len()),
                out@ == full.reverse().take(out.len() as int),
            decreases mine.len(),
        {
            match mine.pop() {
                Some(t) => {
                    out.push(t);
                },
                None => {},
            }
            proof {
                assert(mine@ =~= full.take(full.len() - out.len()));
                assert(out@ =~= full.reverse().take(out.len() as int));
            }
        }
        proof {
            assert(full.reverse().take(full.len() as int) =~= full.reverse());
        }
        Ok(ExtratoResponse { cliente, ultimas_transacoes: out })
    }

    /// All accounts, in id order.
    pub fn list_clients(&self) -> (r: Vec<Client>)
        ensures
            r@ == self@.clients,
    {
        let mut r: Vec<Client> = Vec::new();
        let mut i: usize = 0;
        while i < self.clients.len()
            invariant
                i <= self.clients@.len(),
                r@ == self.clients@.take(i as int),
            decreases self.clients@.len() - i,
        {
            r.push(self.clients[i]);
            i += 1;
            proof {
                assert(r@ =~= self.clients@.take(i as int));
            }
        }
        proof {
            assert(self.clients@.take(i as int) =~= self.clients@);
        }
        r
    }

    /// A ledger seeded with the given accounts, as `(id, limit)` pairs with
    /// every balance zero and an empty log; `None` unless the ids strictly
    /// increase and no limit is negative.
    pub fn from_seed(limits: &Vec<(u64, i128)>) -> (r: Option<AppState>)
        ensures
            match r {
                Some(s) => seed_ok(limits@) && s.wf() && s@ == seeded(limits@),
                None => !seed_ok(limits@),
            },
    {
        let mut clients: Vec<Client> = Vec::new();
        let mut i: usize = 0;
        while i < limits.len()
            invariant
                i <= limits@.len(),
                clients@ == seeded(limits@.take(i as int)).clients,
                seed_ok(limits@.take(i as int)),
            decreases limits@.len() - i,
        {
            let (id, limite) = limits[i];
            if limite < 0 {
                proof {
                    assert(limits@.take(i + 1)[i as int] == limits@[i as int]);
                }
                return None;
            }
            if i > 0 && limits[i - 1].0 >= id {
                proof {
                    assert(limits@.take(i + 1)[i - 1] == limits@[i - 1]);
                    assert(limits@.take(i + 1)[i as int] == limits@[i as int]);
                }
                return None;
            }
            proof {
                let n = i + 1;
                assert forall|a: int, b: int| 0 <= a < b < n implies #[trigger] limits@.take(
                    n,
                )[a].0 < #[trigger] limits@.take(n)[b].0 by {
                    assert(limits@.take(n)[a] == limits@[a]);
                    assert(limits@.take(n)[b] == limits@[b]);
                    if b < i {
                        assert(limits@.take(i as int)[a] == limits@[a]);
                        assert(limits@.take(i as int)[b] == limits@[b]);
                    } else if a < i - 1 {
                        assert(limits@.take(i as int)[a] == limits@[a]);
                        assert(limits@.take(i as int)[i - 1] == limits@[i - 1]);
                    }
                }
            }
            clients.push(Client { id, limite, saldo: 0 });
            i += 1;
            proof {
                assert(clients@ =~= seeded(limits@.take(i as int)).clients);
            }
        }
        proof {
            assert(limits@.take(i as int) =~= limits@);
        }
        let r = AppState { clients, transactions: Vec::new() };
        proof {
            assert(r@ =~= seeded(limits@));
            lemma_fresh_wf(r@);
        }
        Some(r)
    }
}

} // verus!
