use shard_churn::shards::{ShardAddress, ShardError, ValidatorNodes, VnAddress};
use shard_churn::stats::{byzantine_threshold, epoch_summary, CommitteeStats};
use shard_churn::u256::U256;
use shard_churn::render::u256_hex;

fn addr(n: u64) -> ShardAddress {
    ShardAddress { value: U256 { w0: n, w1: 0, w2: 0, w3: 0 } }
}

fn keys(n: u64) -> Vec<ShardAddress> {
    (1..=n).map(addr).collect()
}

fn departures(old_c: &[VnAddress], new_c: &[VnAddress]) -> u64 {
    old_c.iter().filter(|vn| !vn.is_in_committee(new_c)).count() as u64
}

#[test]
fn wrapping_add_carries_across_limbs() {
    let a = U256 { w0: u64::MAX, w1: 7, w2: 0, w3: 0 };
    let r = a.wrapping_add_u64(1);
    assert_eq!(r, U256 { w0: 0, w1: 8, w2: 0, w3: 0 });
    let top = U256 { w0: u64::MAX, w1: u64::MAX, w2: u64::MAX, w3: u64::MAX };
    assert_eq!(top.wrapping_add_u64(1), U256 { w0: 0, w1: 0, w2: 0, w3: 0 });
}

#[test]
fn div_u64_exact_values() {
    let a = U256 { w0: 10, w1: 0, w2: 0, w3: 0 };
    assert_eq!(a.div_u64(3), U256 { w0: 3, w1: 0, w2: 0, w3: 0 });
    // 2^64 / 2 == 2^63
    let b = U256 { w0: 0, w1: 1, w2: 0, w3: 0 };
    assert_eq!(b.div_u64(2), U256 { w0: 1 << 63, w1: 0, w2: 0, w3: 0 });
    // dividing by 1 changes nothing
    let c = U256 { w0: 5, w1: 6, w2: 7, w3: 8 };
    assert_eq!(c.div_u64(1), c);
}

#[test]
fn lt_orders_by_high_limbs_first() {
    let lo = U256 { w0: u64::MAX, w1: 0, w2: 0, w3: 0 };
    let hi = U256 { w0: 0, w1: 1, w2: 0, w3: 0 };
    assert!(lo.lt(&hi));
    assert!(!hi.lt(&lo));
    assert!(!lo.lt(&lo));
}

#[test]
fn validate_config_rejects_zeroes() {
    assert!(shard_churn::shards::validate_config(3, 2).is_ok());
    assert_eq!(
        shard_churn::shards::validate_config(0, 2),
        Err(ShardError::InvalidConfiguration)
    );
    assert_eq!(
        shard_churn::shards::validate_config(3, 0),
        Err(ShardError::InvalidConfiguration)
    );
}

#[test]
fn duplicate_keys_collide() {
    let mut ks = keys(4);
    ks.push(addr(2));
    let r = ValidatorNodes::ring_from_keys(2, &ks, 5);
    assert!(matches!(r, Err(ShardError::AddressCollision)));
}

#[test]
fn ring_is_sorted_and_committee_has_min_size_distinct_keys() {
    let ring = ValidatorNodes::ring_from_keys(3, &keys(10), 4).unwrap();
    assert_eq!(ring.node_population(), 10);
    for w in ring.vns.windows(2) {
        assert!(w[0].address().value.lt(&w[1].address().value));
    }
    let shard = addr(12345);
    let committee = ring.committee_for(&shard);
    assert_eq!(committee.len(), 3);
    for i in 0..committee.len() {
        for j in 0..committee.len() {
            if i != j {
                assert_ne!(committee[i].key(), committee[j].key());
            }
        }
    }
    // an oversized committee is the whole population
    let big = ValidatorNodes::ring_from_keys(64, &keys(10), 4).unwrap();
    assert_eq!(big.committee_for(&shard).len(), 10);
}

#[test]
fn exact_address_match_heads_the_committee() {
    let ring = ValidatorNodes::ring_from_keys(3, &keys(10), 4).unwrap();
    let target = *ring.vns[6].address();
    let committee = ring.committee_for(&target);
    assert_eq!(*committee[0].address(), target);
    assert_eq!(*committee[0].key(), *ring.vns[6].key());
}

#[test]
fn committee_wraps_past_the_end_of_the_ring() {
    let ring = ValidatorNodes::ring_from_keys(3, &keys(10), 4).unwrap();
    let last = ring.vns[9].address().value;
    // a shard just above the highest address wraps to the front
    let shard = ShardAddress { value: last.wrapping_add_u64(1) };
    let committee = ring.committee_for(&shard);
    assert_eq!(committee.len(), 3);
    assert_eq!(*committee[0].key(), *ring.vns[0].key());
    assert_eq!(*committee[1].key(), *ring.vns[1].key());
}

#[test]
fn next_epoch_keeps_population_and_sortedness() {
    let mut ring = ValidatorNodes::ring_from_keys(3, &keys(12), 1).unwrap();
    let mut old_keys: Vec<ShardAddress> = ring.vns.iter().map(|v| *v.key()).collect();
    ring.next_epoch();
    assert_eq!(ring.node_population(), 12);
    assert_eq!(ring.epoch, 1);
    for w in ring.vns.windows(2) {
        assert!(!w[1].address().value.lt(&w[0].address().value));
    }
    let mut new_keys: Vec<ShardAddress> = ring.vns.iter().map(|v| *v.key()).collect();
    let by_value = |a: &ShardAddress, b: &ShardAddress| {
        if a.value.lt(&b.value) {
            std::cmp::Ordering::Less
        } else {
            std::cmp::Ordering::Greater
        }
    };
    old_keys.sort_by(by_value);
    new_keys.sort_by(by_value);
    assert_eq!(old_keys, new_keys);
}

#[test]
fn derivation_is_deterministic() {
    let key = addr(99);
    let a = VnAddress::address_at_epoch(&key, 17, 5);
    let b = VnAddress::address_at_epoch(&key, 17, 5);
    assert_eq!(a, b);
}

#[test]
fn address_sticks_within_a_rotation_window() {
    let key = addr(3);
    // counter = (3 + epoch) / 1000 is 0 for every epoch below 997
    let a0 = VnAddress::address_at_epoch(&key, 0, 1000);
    let a996 = VnAddress::address_at_epoch(&key, 996, 1000);
    let a997 = VnAddress::address_at_epoch(&key, 997, 1000);
    assert_eq!(a0, a996);
    assert_ne!(a0, a997);
}

#[test]
fn hashing_moves_the_address_off_the_key() {
    let key = addr(7);
    let derived = VnAddress::address_at_epoch(&key, 0, 1);
    assert_ne!(derived.value, key.value);
}

#[test]
fn random_addresses_differ() {
    let a = ShardAddress::random();
    let b = ShardAddress::random();
    assert_ne!(a.value(), b.value());
}

#[test]
fn long_rotation_period_means_no_churn() {
    // keys are tiny, the rotation period is huge: no counter can move during
    // the run, so no committee changes at all
    let mut ring = ValidatorNodes::ring_from_keys(4, &keys(20), u64::MAX / 2).unwrap();
    let shards: Vec<ShardAddress> = (0..8).map(|i| addr(1000 + 17 * i)).collect();
    let mut last: Vec<Vec<VnAddress>> = shards.iter().map(|s| ring.committee_for(s)).collect();
    for _ in 0..5 {
        ring.next_epoch();
        let new: Vec<Vec<VnAddress>> = shards.iter().map(|s| ring.committee_for(s)).collect();
        for (o, n) in last.iter().zip(new.iter()) {
            assert_eq!(departures(o, n), 0);
        }
        last = new;
    }
}

#[test]
fn rotation_every_epoch_churns_and_stays_bounded() {
    // rotation period 1: every node's counter moves every epoch
    let mut ring = ValidatorNodes::ring_from_keys(4, &keys(30), 1).unwrap();
    let shards: Vec<ShardAddress> = (0..8).map(|i| addr(5000 + 23 * i)).collect();
    let mut last: Vec<Vec<VnAddress>> = shards.iter().map(|s| ring.committee_for(s)).collect();
    let mut total = 0u64;
    for _ in 0..5 {
        ring.next_epoch();
        let new: Vec<Vec<VnAddress>> = shards.iter().map(|s| ring.committee_for(s)).collect();
        for (o, n) in last.iter().zip(new.iter()) {
            let d = departures(o, n);
            assert!(d <= 4);
            total += d;
        }
        last = new;
    }
    assert!(total > 0);
}

#[test]
fn departures_equal_joins_on_concrete_committees() {
    let mut ring = ValidatorNodes::ring_from_keys(5, &keys(25), 1).unwrap();
    let shard = addr(424242);
    let old_c = ring.committee_for(&shard);
    ring.next_epoch();
    let new_c = ring.committee_for(&shard);
    assert_eq!(old_c.len(), new_c.len());
    assert_eq!(departures(&old_c, &new_c), departures(&new_c, &old_c));
}

#[test]
fn simulator_records_bounded_counts_per_epoch() {
    let mut stats = CommitteeStats::new(50, 4, 20, 2).unwrap();
    stats.simulate(6);
    let records = stats.change_counts();
    assert_eq!(records.len(), 6);
    for rec in records.iter() {
        assert_eq!(rec.len(), 50);
        for &c in rec.iter() {
            assert!(c <= 4);
        }
    }
}

#[test]
fn whole_population_committees_never_churn() {
    // population == committee size: every committee is the whole population
    let mut stats = CommitteeStats::new(30, 10, 10, 1).unwrap();
    stats.simulate(5);
    for rec in stats.change_counts().iter() {
        for &c in rec.iter() {
            assert_eq!(c, 0);
        }
    }
}

#[test]
fn single_member_committees_flag_every_departure() {
    let mut stats = CommitteeStats::new(40, 1, 15, 1).unwrap();
    stats.simulate(5);
    let threshold = byzantine_threshold(1);
    assert_eq!(threshold, 0);
    for rec in stats.change_counts().iter() {
        let nonzero = rec.iter().filter(|&&c| c > 0).count();
        for &c in rec.iter() {
            assert!(c == 0 || c == 1);
        }
        let summary = epoch_summary(rec, threshold);
        assert_eq!(summary.over_threshold, nonzero);
    }
}

#[test]
fn epoch_summary_exact_values() {
    let changes: Vec<u64> = vec![3, 0, 7, 7, 2];
    let s = epoch_summary(&changes, 2);
    assert_eq!(s.max_changes, 7);
    assert_eq!(s.min_changes, 0);
    assert_eq!(s.total_changes, 19);
    assert_eq!(s.over_threshold, 3);
    let empty: Vec<u64> = Vec::new();
    let e = epoch_summary(&empty, 5);
    assert_eq!(e.max_changes, 0);
    assert_eq!(e.min_changes, 0);
    assert_eq!(e.total_changes, 0);
    assert_eq!(e.over_threshold, 0);
}

#[test]
fn byzantine_threshold_is_a_third_below_size() {
    assert_eq!(byzantine_threshold(1), 0);
    assert_eq!(byzantine_threshold(3), 0);
    assert_eq!(byzantine_threshold(4), 1);
    assert_eq!(byzantine_threshold(10), 3);
}

#[test]
fn histogram_reflects_recorded_samples() {
    let mut stats = CommitteeStats::new(12, 3, 18, 2).unwrap();
    stats.simulate(4);
    let rendered = format!("{}", stats.histogram());
    assert!(rendered.contains("Number of samples = 48"));
}

#[test]
fn as_hex_renders_decimal() {
    assert_eq!(addr(0).as_hex(), "0");
    assert_eq!(addr(255).as_hex(), "255");
    assert_eq!(addr(u64::MAX).as_hex(), "18446744073709551615");
    // 2^64 and 2^128 span several limbs
    let b = ShardAddress { value: U256 { w0: 0, w1: 1, w2: 0, w3: 0 } };
    assert_eq!(b.as_hex(), "18446744073709551616");
    let c = ShardAddress { value: U256 { w0: 0, w1: 0, w2: 1, w3: 0 } };
    assert_eq!(c.as_hex(), "340282366920938463463374607431768211456");
}

#[test]
fn hex_rendering_is_big_endian_lowercase() {
    let a = U256 { w0: 255, w1: 0, w2: 0, w3: 0 };
    assert_eq!(u256_hex(&a), format!("{}ff", "0".repeat(62)));
    let c = U256 { w0: 0xdead_beef, w1: 0, w2: 0, w3: 0x1234_5678_9abc_def0 };
    assert_eq!(
        u256_hex(&c),
        format!("123456789abcdef0{}00000000deadbeef", "0".repeat(32))
    );
}

#[test]
fn div_rem_returns_the_remainder() {
    let a = U256 { w0: 17, w1: 0, w2: 0, w3: 0 };
    let (q, r) = a.div_rem_u64(5);
    assert_eq!(q, U256 { w0: 3, w1: 0, w2: 0, w3: 0 });
    assert_eq!(r, 2);
}

#[test]
fn step_records_one_epoch() {
    let mut stats = CommitteeStats::new(10, 3, 12, 2).unwrap();
    stats.step();
    assert_eq!(stats.change_counts().len(), 1);
    assert_eq!(stats.change_counts()[0].len(), 10);
    assert_eq!(stats.nodes.epoch, 1);
}

#[test]
fn single_validator_ring_always_constructs() {
    let ring = ValidatorNodes::new(1, 1, 3).unwrap();
    assert_eq!(ring.node_population(), 1);
}

#[test]
fn fresh_validator_sits_at_its_epoch_zero_address() {
    let vn = VnAddress::new(7, 5);
    let expected = VnAddress::address_at_epoch(vn.key(), 0, 5);
    assert_eq!(*vn.address(), expected);
}
