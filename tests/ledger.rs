use account_ledger::{
    AppState, Client, Transaction, TransactionError, TransactionInfo, TransactionResponse,
    TransactionType, RECENT_LIMIT,
};

fn info(valor: i128, tipo: &str, descricao: &str) -> TransactionInfo {
    TransactionInfo { valor, tipo: tipo.to_string(), descricao: descricao.to_string() }
}

fn apply(state: &mut AppState, id: u64, valor: i128, tipo: &str) -> Result<TransactionResponse, TransactionError> {
    let req = info(valor, tipo, "test");
    assert!(state.admits(id, &req));
    state.handle_transaction(id, &req)
}

fn balance(state: &AppState, id: u64) -> i128 {
    state.get_extrato(id).unwrap().cliente.saldo
}

fn history(state: &AppState, id: u64) -> Vec<Transaction> {
    state.get_extrato(id).unwrap().ultimas_transacoes
}

#[test]
fn new_seeds_five_accounts_at_zero() {
    let state = AppState::new();
    let clients = state.list_clients();
    let expected = vec![
        Client { id: 1, limite: 100000, saldo: 0 },
        Client { id: 2, limite: 80000, saldo: 0 },
        Client { id: 3, limite: 1000000, saldo: 0 },
        Client { id: 4, limite: 10000000, saldo: 0 },
        Client { id: 5, limite: 500000, saldo: 0 },
    ];
    assert_eq!(clients, expected);
    for c in &expected {
        let e = state.get_extrato(c.id).unwrap();
        assert_eq!(e.cliente, *c);
        assert!(e.ultimas_transacoes.is_empty());
    }
}

#[test]
fn scenario_limit_one_thousand() {
    let mut state = AppState::from_seed(&vec![(1, 1000)]).unwrap();
    assert_eq!(apply(&mut state, 1, 1000, "d"), Ok(TransactionResponse { limite: 1000, saldo: -1000 }));
    assert_eq!(apply(&mut state, 1, 1, "d"), Err(TransactionError::BelowAllowedLimite));
    assert_eq!(balance(&state, 1), -1000);
    assert_eq!(apply(&mut state, 1, 500, "c"), Ok(TransactionResponse { limite: 1000, saldo: -500 }));
    let e = state.get_extrato(1).unwrap();
    assert_eq!(e.cliente.limite, 1000);
    assert_eq!(e.cliente.saldo, -500);
    assert_eq!(e.ultimas_transacoes.len(), 2);
    assert_eq!(e.ultimas_transacoes[0].kind, TransactionType::Credit);
    assert_eq!(e.ultimas_transacoes[0].value, 500);
    assert_eq!(e.ultimas_transacoes[1].kind, TransactionType::Debit);
    assert_eq!(e.ultimas_transacoes[1].value, 1000);
}

#[test]
fn debit_to_exact_floor_is_accepted_one_more_is_not() {
    let mut state = AppState::new();
    assert_eq!(apply(&mut state, 2, 300, "c"), Ok(TransactionResponse { limite: 80000, saldo: 300 }));
    assert_eq!(apply(&mut state, 2, 80301, "d"), Err(TransactionError::BelowAllowedLimite));
    assert_eq!(balance(&state, 2), 300);
    assert_eq!(history(&state, 2).len(), 1);
    assert_eq!(apply(&mut state, 2, 80300, "d"), Ok(TransactionResponse { limite: 80000, saldo: -80000 }));
    assert_eq!(balance(&state, 2), -80000);
}

#[test]
fn credit_then_debit_restores_balance() {
    let mut state = AppState::new();
    assert_eq!(apply(&mut state, 3, 250, "d"), Ok(TransactionResponse { limite: 1000000, saldo: -250 }));
    let before = balance(&state, 3);
    let before_len = history(&state, 3).len();
    assert_eq!(apply(&mut state, 3, 777, "c"), Ok(TransactionResponse { limite: 1000000, saldo: 527 }));
    assert_eq!(apply(&mut state, 3, 777, "d"), Ok(TransactionResponse { limite: 1000000, saldo: -250 }));
    assert_eq!(balance(&state, 3), before);
    assert_eq!(history(&state, 3).len(), before_len + 2);
}

#[test]
fn unknown_account_changes_nothing() {
    let mut state = AppState::new();
    assert_eq!(apply(&mut state, 1, 10, "c"), Ok(TransactionResponse { limite: 100000, saldo: 10 }));
    let before = state.list_clients();
    assert_eq!(apply(&mut state, 6, 10, "c"), Err(TransactionError::ClientNotFound));
    assert_eq!(apply(&mut state, 0, 10, "d"), Err(TransactionError::ClientNotFound));
    assert_eq!(apply(&mut state, 6, 10, "x"), Err(TransactionError::ClientNotFound));
    assert_eq!(state.get_extrato(6).err(), Some(TransactionError::ClientNotFound));
    assert_eq!(state.get_extrato(0).err(), Some(TransactionError::ClientNotFound));
    assert_eq!(state.list_clients(), before);
    assert_eq!(history(&state, 1).len(), 1);
}

#[test]
fn invalid_direction_is_refused() {
    let mut state = AppState::new();
    assert_eq!(apply(&mut state, 1, 10, "x"), Err(TransactionError::InvalidTransactionType));
    assert_eq!(apply(&mut state, 1, 10, "C"), Err(TransactionError::InvalidTransactionType));
    assert_eq!(apply(&mut state, 1, 10, ""), Err(TransactionError::InvalidTransactionType));
    assert_eq!(apply(&mut state, 1, 10, "cd"), Err(TransactionError::InvalidTransactionType));
    assert_eq!(balance(&state, 1), 0);
    assert!(history(&state, 1).is_empty());
}

#[test]
fn many_unit_credits_add_up() {
    let mut state = AppState::new();
    let n: i128 = 200;
    for k in 1..=n {
        assert_eq!(apply(&mut state, 4, 1, "c"), Ok(TransactionResponse { limite: 10000000, saldo: k }));
    }
    assert_eq!(balance(&state, 4), n);
    assert_eq!(balance(&state, 5), 0);
}

#[test]
fn balance_is_sum_of_accepted_and_history_is_newest_first() {
    let mut state = AppState::new();
    let amounts: Vec<(i128, &str)> = vec![
        (100, "c"), (40, "d"), (5, "c"), (1000, "d"), (7, "c"), (3, "d"),
        (11, "c"), (13, "d"), (17, "c"), (19, "d"), (23, "c"), (29, "d"),
    ];
    let mut expected: i128 = 0;
    for (i, (v, t)) in amounts.iter().enumerate() {
        let id = if i % 3 == 2 { 2 } else { 1 };
        let req = info(*v, t, &format!("op{}", i));
        state.handle_transaction(id, &req).unwrap();
        if id == 1 {
            expected += if *t == "c" { *v } else { -*v };
        }
    }
    assert_eq!(balance(&state, 1), expected);
    let h = history(&state, 1);
    let mine: Vec<usize> = (0..amounts.len()).filter(|i| i % 3 != 2).collect();
    assert_eq!(h.len(), mine.len());
    for (k, t) in h.iter().enumerate() {
        let i = mine[mine.len() - 1 - k];
        assert_eq!(t.client_id, 1);
        assert_eq!(t.value, amounts[i].0);
        assert_eq!(t.description, format!("op{}", i));
    }
}

#[test]
fn statement_lists_at_most_the_recent_limit() {
    let mut state = AppState::new();
    for v in 1..=15 {
        apply(&mut state, 5, v, "c").unwrap();
    }
    let h = history(&state, 5);
    assert_eq!(RECENT_LIMIT, 10);
    assert_eq!(h.len(), 10);
    for (k, t) in h.iter().enumerate() {
        assert_eq!(t.value, 15 - k as i128);
        assert_eq!(t.kind, TransactionType::Credit);
    }
    assert_eq!(balance(&state, 5), 120);
}

#[test]
fn balance_never_below_floor() {
    let mut state = AppState::from_seed(&vec![(7, 50), (9, 0)]).unwrap();
    let ops: Vec<(u64, i128, &str)> = vec![
        (7, 30, "d"), (7, 30, "d"), (9, 1, "d"), (7, 20, "d"), (7, 1, "d"), (9, 5, "c"),
        (9, 6, "d"), (9, 5, "d"), (7, 100, "c"), (7, 100, "d"), (7, 1, "d"),
    ];
    for (id, v, t) in ops {
        let _ = apply(&mut state, id, v, t);
        for c in state.list_clients() {
            assert!(c.saldo >= -c.limite);
        }
    }
    assert_eq!(balance(&state, 7), -50);
    assert_eq!(balance(&state, 9), 0);
}

#[test]
fn description_is_recorded() {
    let mut state = AppState::new();
    state.handle_transaction(1, &info(9, "c", "coffee")).unwrap();
    let h = history(&state, 1);
    assert_eq!(h[0].description, "coffee");
    assert_eq!(h[0].client_id, 1);
    let copy = h[0].clone();
    assert_eq!(copy.description, "coffee");
    assert_eq!(copy.when, h[0].when);
}

#[test]
fn admits_checks_amount_and_room() {
    let mut state = AppState::new();
    assert!(!state.admits(1, &info(0, "c", "")));
    assert!(!state.admits(1, &info(-5, "d", "")));
    assert!(state.admits(1, &info(i128::MAX, "c", "")));
    assert!(state.admits(1, &info(i128::MAX, "d", "")));
    state.handle_transaction(1, &info(10, "c", "")).unwrap();
    assert!(!state.admits(1, &info(i128::MAX, "c", "")));
    assert!(state.admits(1, &info(i128::MAX - 10, "c", "")));
    assert!(state.admits(99, &info(i128::MAX, "c", "")));
    assert_eq!(state.handle_transaction(1, &info(i128::MAX, "d", "")), Err(TransactionError::BelowAllowedLimite));
}

#[test]
fn from_seed_rejects_bad_lists() {
    assert!(AppState::from_seed(&vec![(2, 10), (1, 10)]).is_none());
    assert!(AppState::from_seed(&vec![(1, 10), (1, 10)]).is_none());
    assert!(AppState::from_seed(&vec![(1, 10), (2, -1)]).is_none());
    let empty = AppState::from_seed(&vec![]).unwrap();
    assert!(empty.list_clients().is_empty());
    let s = AppState::from_seed(&vec![(3, 5), (8, 0)]).unwrap();
    assert_eq!(s.list_clients(), vec![Client { id: 3, limite: 5, saldo: 0 }, Client { id: 8, limite: 0, saldo: 0 }]);
}
