use codechain_state::address::H256;
use codechain_state::rpc_types::{FilterStatus, SendTransactionResult, TPSTestSetting, TxHash};
use std::str::FromStr;

#[test]
fn filter_status_carries_its_list() {
    let block = cidr::IpCidr::from_str("192.168.0.0/16").unwrap();
    let status = FilterStatus {
        list: vec![(block, "local".to_string())],
        enabled: true,
    };
    assert!(status.enabled);
    assert_eq!(status.list.len(), 1);
    assert_eq!(status.list[0].0, block);
    assert_eq!(status.list[0].1, "local");
}

#[test]
fn send_transaction_result_holds_hash_and_seq() {
    let result = SendTransactionResult {
        hash: TxHash(H256::new(1, 2)),
        seq: 7,
    };
    assert_eq!(result.hash, TxHash(H256::new(1, 2)));
    assert_eq!(result.seq, 7);
}

#[test]
fn tps_test_setting_holds_count_and_seed() {
    let setting = TPSTestSetting {
        count: 100,
        seed: 42,
    };
    assert_eq!(setting.count, 100);
    assert_eq!(setting.seed, 42);
}
