use codechain_state::null_engine::{NullEngine, NullEngineParams};
use codechain_state::uint::{Uint, UintError};

#[test]
fn null_engine_deserialization() {
    let s = r#"{
            "params": {
                "blockReward": "0x0d"
            }
        }"#;

    let value: serde_json::Value = serde_json::from_str(s).unwrap();
    let block_reward = value
        .get("params")
        .and_then(|params| params.get("blockReward"))
        .and_then(|reward| reward.as_str())
        .map(|reward| Uint::from_text(reward).unwrap());
    let deserialized = NullEngine {
        params: NullEngineParams {
            block_reward,
        },
    };
    assert_eq!(deserialized.params.block_reward, Some(0x0d.into()));
}

#[test]
fn null_engine_without_a_reward() {
    let engine = NullEngine {
        params: NullEngineParams {
            block_reward: None,
        },
    };
    assert_eq!(
        engine,
        NullEngine {
            params: NullEngineParams {
                block_reward: None
            }
        }
    );
}

#[test]
fn uint_from_u64_fills_the_low_bits() {
    assert_eq!(
        Uint::from(0x0du64),
        Uint {
            hi: 0,
            lo: 13
        }
    );
    assert_eq!(
        Uint::from(u64::MAX),
        Uint {
            hi: 0,
            lo: 0xffff_ffff_ffff_ffff
        }
    );
    assert_eq!(
        Uint::zero(),
        Uint {
            hi: 0,
            lo: 0
        }
    );
}

#[test]
fn hexadecimal_text_is_read() {
    assert_eq!(Uint::from_text("0x0d"), Ok(Uint::from(13)));
    assert_eq!(Uint::from_text("0xff"), Ok(Uint::from(255)));
    assert_eq!(Uint::from_text("0xFf"), Ok(Uint::from(255)));
    assert_eq!(Uint::from_text("0xABCDEF"), Ok(Uint::from(0xabcdef)));
    assert_eq!(Uint::from_text("0x000000000000000000000001"), Ok(Uint::from(1)));
    assert_eq!(
        Uint::from_text("0x1234567890abcdef1122334455667788"),
        Ok(Uint {
            hi: 0,
            lo: 0x1234567890abcdef1122334455667788
        })
    );
    assert_eq!(
        Uint::from_text("0x100000000000000000000000000000000"),
        Ok(Uint {
            hi: 1,
            lo: 0
        })
    );
}

#[test]
fn decimal_text_is_read() {
    assert_eq!(Uint::from_text("0"), Ok(Uint::from(0)));
    assert_eq!(Uint::from_text("13"), Ok(Uint::from(13)));
    assert_eq!(Uint::from_text("0013"), Ok(Uint::from(13)));
    assert_eq!(Uint::from_text("18446744073709551615"), Ok(Uint::from(u64::MAX)));
    assert_eq!(
        Uint::from_text("340282366920938463463374607431768211455"),
        Ok(Uint {
            hi: 0,
            lo: u128::MAX
        })
    );
    assert_eq!(
        Uint::from_text("340282366920938463463374607431768211456"),
        Ok(Uint {
            hi: 1,
            lo: 0
        })
    );
}

#[test]
fn empty_text_and_bare_prefix_are_zero() {
    assert_eq!(Uint::from_text(""), Ok(Uint::zero()));
    assert_eq!(Uint::from_text("0x"), Ok(Uint::zero()));
}

#[test]
fn largest_number_is_read() {
    let max = Uint {
        hi: u128::MAX,
        lo: u128::MAX,
    };
    assert_eq!(Uint::from_text("0xffffffffffffffffffffffffffffffffffffffffffffffffffffffffffffffff"), Ok(max));
    assert_eq!(
        Uint::from_text("115792089237316195423570985008687907853269984665640564039457584007913129639935"),
        Ok(max)
    );
}

#[test]
fn number_of_257_bits_overflows() {
    assert_eq!(
        Uint::from_text("0x10000000000000000000000000000000000000000000000000000000000000000"),
        Err(UintError::Overflow)
    );
    assert_eq!(
        Uint::from_text("115792089237316195423570985008687907853269984665640564039457584007913129639936"),
        Err(UintError::Overflow)
    );
    assert_eq!(
        Uint::from_text("999999999999999999999999999999999999999999999999999999999999999999999999999999999"),
        Err(UintError::Overflow)
    );
}

#[test]
fn text_with_another_character_is_invalid() {
    assert_eq!(Uint::from_text("0xg"), Err(UintError::InvalidDigit));
    assert_eq!(Uint::from_text("12a"), Err(UintError::InvalidDigit));
    assert_eq!(Uint::from_text("ff"), Err(UintError::InvalidDigit));
    assert_eq!(Uint::from_text("0X0d"), Err(UintError::InvalidDigit));
    assert_eq!(Uint::from_text("-1"), Err(UintError::InvalidDigit));
    assert_eq!(Uint::from_text(" 1"), Err(UintError::InvalidDigit));
    assert_eq!(Uint::from_text("1.5"), Err(UintError::InvalidDigit));
    assert_eq!(Uint::from_text("0x0x1"), Err(UintError::InvalidDigit));
    assert_eq!(Uint::from_text("١٢"), Err(UintError::InvalidDigit));
}

#[test]
fn invalid_digit_is_reported_before_overflow() {
    assert_eq!(
        Uint::from_text("0x10000000000000000000000000000000000000000000000000000000000000000z"),
        Err(UintError::InvalidDigit)
    );
}
