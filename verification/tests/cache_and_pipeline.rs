use at2_node::accounts::Accounts;
use at2_node::pipeline::{DeliverEvent, Pipeline, ProcessTransactionError};
use at2_node::recent_transactions::{RecentTransactions, DEFAULT_CAPACITY};
use at2_node::{Identity, Signature, ThinTransaction, TransferPayload};

fn ident(n: u8) -> Identity {
    Identity { bytes: [n; 32] }
}

fn thin(recipient: u8, amount: u64) -> ThinTransaction {
    ThinTransaction { recipient: ident(recipient), amount }
}

fn payload(sender: u8, sequence: u64, recipient: u8, amount: u64) -> TransferPayload {
    TransferPayload {
        sender: ident(sender),
        sequence,
        recipient: ident(recipient),
        amount,
        signature: Signature { bytes: [0; 64] },
    }
}

#[test]
fn cache_of_two_keeps_the_last_two() {
    let mut cache = RecentTransactions::with_capacity(2);
    assert!(cache.put(&ident(1), &thin(2, 10)).is_ok());
    assert!(cache.put(&ident(1), &thin(2, 20)).is_ok());
    assert!(cache.put(&ident(3), &thin(4, 30)).is_ok());
    let all = cache.get_all();
    assert_eq!(all.len(), 2);
    assert_eq!(all[0].sender.bytes, [1; 32]);
    assert_eq!(all[0].recipient.bytes, [2; 32]);
    assert_eq!(all[0].amount, 20);
    assert_eq!(all[1].sender.bytes, [3; 32]);
    assert_eq!(all[1].recipient.bytes, [4; 32]);
    assert_eq!(all[1].amount, 30);
}

#[test]
fn cache_keeps_last_entries_in_insertion_order() {
    let mut cache = RecentTransactions::with_capacity(3);
    let mut k: u64 = 0;
    while k < 7 {
        assert!(cache.put(&ident(1), &thin(2, k)).is_ok());
        k += 1;
    }
    let all = cache.get_all();
    assert_eq!(all.len(), 3);
    assert_eq!(all[0].amount, 4);
    assert_eq!(all[1].amount, 5);
    assert_eq!(all[2].amount, 6);
}

#[test]
fn cache_below_capacity_keeps_everything() {
    let mut cache = RecentTransactions::new();
    let mut k: u64 = 0;
    while k < 5 {
        assert!(cache.put(&ident(1), &thin(2, k)).is_ok());
        k += 1;
    }
    let all = cache.get_all();
    assert_eq!(all.len(), 5);
    let mut i: usize = 0;
    while i < 5 {
        assert_eq!(all[i].amount, i as u64);
        i += 1;
    }
    assert!(DEFAULT_CAPACITY >= 5);
}

#[test]
fn pipeline_applies_payload_to_ledger_and_cache() {
    let mut ledger = Accounts::new();
    ledger.seed(&ident(1), 100, 0);
    let mut node = Pipeline::with_parts(ledger, RecentTransactions::new());
    assert!(node.process_payload(&payload(1, 1, 2, 30)).is_ok());
    assert_eq!(node.get_balance(&ident(1)), 70);
    assert_eq!(node.get_balance(&ident(2)), 30);
    assert_eq!(node.get_last_sequence(&ident(1)), 1);
    let recent = node.get_latest_transactions();
    assert_eq!(recent.len(), 1);
    assert_eq!(recent[0].sender.bytes, [1; 32]);
    assert_eq!(recent[0].recipient.bytes, [2; 32]);
    assert_eq!(recent[0].amount, 30);
}

#[test]
fn pipeline_skips_rejected_payload() {
    let mut ledger = Accounts::new();
    ledger.seed(&ident(1), 100, 0);
    let mut node = Pipeline::with_parts(ledger, RecentTransactions::new());
    let r = node.process_payload(&payload(1, 5, 2, 30));
    assert!(matches!(
        r,
        Err(ProcessTransactionError::ProcessTxForAccounts {
            source: at2_node::accounts::Error::SequenceMismatch,
        })
    ));
    assert_eq!(node.get_balance(&ident(1)), 100);
    assert_eq!(node.get_latest_transactions().len(), 0);
}

#[test]
fn delivery_applies_batch_in_order_and_skips_bad_payloads() {
    let mut ledger = Accounts::new();
    ledger.seed(&ident(1), 100, 0);
    let mut node = Pipeline::with_parts(ledger, RecentTransactions::new());
    let batch = vec![
        payload(1, 1, 2, 60),
        payload(1, 2, 3, 50),  // insufficient: only 40 left
        payload(2, 1, 3, 25),  // spends what the first payload credited
        payload(1, 2, 3, 40),
    ];
    assert!(node.handle_delivery(DeliverEvent::Delivered(batch)));
    assert_eq!(node.get_balance(&ident(1)), 0);
    assert_eq!(node.get_balance(&ident(2)), 35);
    assert_eq!(node.get_balance(&ident(3)), 65);
    assert_eq!(node.get_last_sequence(&ident(1)), 2);
    assert_eq!(node.get_last_sequence(&ident(2)), 1);
    let recent = node.get_latest_transactions();
    assert_eq!(recent.len(), 3);
    assert_eq!(recent[0].amount, 60);
    assert_eq!(recent[1].amount, 25);
    assert_eq!(recent[2].amount, 40);
}

#[test]
fn delivery_loop_stops_only_on_channel_close() {
    let mut node = Pipeline::new();
    assert!(node.handle_delivery(DeliverEvent::DeliverFailed));
    assert!(node.handle_delivery(DeliverEvent::Delivered(vec![])));
    assert!(!node.handle_delivery(DeliverEvent::ChannelClosed));
    assert_eq!(node.get_balance(&ident(1)), 0);
}

#[test]
fn fresh_node_answers_zero_for_any_identity() {
    let node = Pipeline::new();
    let mut n: u8 = 0;
    while n < 10 {
        assert_eq!(node.get_balance(&ident(n)), 0);
        assert_eq!(node.get_last_sequence(&ident(n)), 0);
        n += 1;
    }
    assert!(node.get_latest_transactions().is_empty());
}
