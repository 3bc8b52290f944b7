use rewards_engine::asset::{Denom, TransferMsg};
use rewards_engine::massdist::{weight_percent, MassDistribute, WeightEntry, WEIGHT_ONE};

fn entry(addr: &str, percent: u64) -> WeightEntry {
    WeightEntry { address: String::from(addr), weight: weight_percent(percent) }
}

#[test]
fn successful_set_weights() {
    let mut mass_distribute = MassDistribute::new();
    let input = vec![entry("addr1", 50), entry("addr2", 50)];
    let result = mass_distribute.set_weights(&input);
    assert!(result.is_ok());
    assert_eq!(weight_percent(50), mass_distribute.weights[0].weight);
    assert_eq!(String::from("addr1"), mass_distribute.weights[0].address);
    assert_eq!(weight_percent(50), mass_distribute.weights[1].weight);
    assert_eq!(String::from("addr2"), mass_distribute.weights[1].address);
}

#[test]
fn invalid_set_weights() {
    let mut mass_distribute = MassDistribute::new();
    let input = vec![entry("addr1", 50), entry("addr2", 60)];
    let result = mass_distribute.set_weights(&input);
    assert!(result.is_err());
}

#[test]
fn correct_distribution_amounts_native() {
    let mut mass_distribute = MassDistribute::new();
    let input = vec![entry("addr1", 60), entry("addr2", 30), entry("addr3", 10)];
    let expected = vec![
        TransferMsg {
            recipient: String::from("addr1"),
            amount: 60u128,
            denom: Denom::Native(String::from("uusd")),
        },
        TransferMsg {
            recipient: String::from("addr2"),
            amount: 30u128,
            denom: Denom::Native(String::from("uusd")),
        },
        TransferMsg {
            recipient: String::from("addr3"),
            amount: 10u128,
            denom: Denom::Native(String::from("uusd")),
        },
    ];
    mass_distribute.set_weights(&input).unwrap();
    let result = mass_distribute.distribute(100u128, Denom::Native(String::from("uusd")));
    assert_eq!(3, result.len());
    assert_eq!(result, expected)
}

#[test]
fn correct_distribution_amounts_cw20() {
    let mut mass_distribute = MassDistribute::new();
    let input = vec![entry("addr1", 60), entry("addr2", 30), entry("addr3", 10)];
    let expected = vec![
        TransferMsg {
            recipient: String::from("addr1"),
            amount: 60u128,
            denom: Denom::Cw20(String::from("token")),
        },
        TransferMsg {
            recipient: String::from("addr2"),
            amount: 30u128,
            denom: Denom::Cw20(String::from("token")),
        },
        TransferMsg {
            recipient: String::from("addr3"),
            amount: 10u128,
            denom: Denom::Cw20(String::from("token")),
        },
    ];
    mass_distribute.set_weights(&input).unwrap();
    let result = mass_distribute.distribute(100u128, Denom::Cw20(String::from("token")));
    assert_eq!(3, result.len());
    assert_eq!(result, expected)
}

#[test]
fn overwriting_weights_keeps_last_value() {
    let mut mass_distribute = MassDistribute::new();
    let first = vec![entry("addr1", 50), entry("addr2", 50)];
    mass_distribute.set_weights(&first).unwrap();
    let second = vec![entry("addr1", 70), entry("addr2", 30)];
    mass_distribute.set_weights(&second).unwrap();
    assert_eq!(weight_percent(70), mass_distribute.weights[0].weight);
    assert_eq!(weight_percent(30), mass_distribute.weights[1].weight);
    assert_eq!(2, mass_distribute.weights.len());
}

#[test]
fn share_of_unknown_address_is_zero() {
    let mut mass_distribute = MassDistribute::new();
    let input = vec![entry("addr1", 100)];
    mass_distribute.set_weights(&input).unwrap();
    assert_eq!(0u128, mass_distribute.get_share(String::from("stranger"), 1000));
    assert_eq!(1000u128, mass_distribute.get_share(String::from("addr1"), 1000));
}

#[test]
fn shares_floor_and_never_exceed_amount() {
    let mut mass_distribute = MassDistribute::new();
    // one third / two thirds, in raw fixed-point units
    let third = WEIGHT_ONE / 3;
    let input = vec![
        WeightEntry { address: String::from("a"), weight: third },
        WeightEntry { address: String::from("b"), weight: WEIGHT_ONE - third },
    ];
    mass_distribute.set_weights(&input).unwrap();
    let sa = mass_distribute.get_share(String::from("a"), 100);
    let sb = mass_distribute.get_share(String::from("b"), 100);
    assert_eq!(33u128, sa);
    assert_eq!(66u128, sb);
    assert!(sa + sb <= 100);
}

#[test]
fn distribution_order_follows_the_key_order() {
    let mut mass_distribute = MassDistribute::new();
    // weights arrive out of key order; the table and the payouts follow it
    let input = vec![entry("zeta", 50), entry("alpha", 30), entry("mid", 20)];
    mass_distribute.set_weights(&input).unwrap();
    let result = mass_distribute.distribute(1000u128, Denom::Native(String::from("uusd")));
    assert_eq!(3, result.len());
    assert_eq!(String::from("alpha"), result[0].recipient);
    assert_eq!(300u128, result[0].amount);
    assert_eq!(String::from("mid"), result[1].recipient);
    assert_eq!(200u128, result[1].amount);
    assert_eq!(String::from("zeta"), result[2].recipient);
    assert_eq!(500u128, result[2].amount);
}
