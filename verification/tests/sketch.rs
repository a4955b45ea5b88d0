//! A sketch on its own, outside a group.

use hyperloglog::HyperLogLog;
use sqlitehll::canonical::{CanonicalValue, HashableF64};
use sqlitehll::sketch::SqliteHll;

fn blank(error_rate: f64, seed: u128) -> SqliteHll {
    SqliteHll::adopt(HyperLogLog::new_deterministic(error_rate, seed))
}

#[test]
fn adopted_sketch_estimates_exactly_zero() {
    assert_eq!(blank(0.0081, 1).len(), 0);
    assert_eq!(blank(0.05, 2).len(), 0);
    assert_eq!(SqliteHll::adopt(HyperLogLog::new(0.0081)).len(), 0);
}

#[test]
fn adopting_wipes_what_the_counter_has_seen() {
    let mut counter = HyperLogLog::new_deterministic(0.0081, 9);
    for v in 0..1000u32 {
        counter.insert(&v);
    }
    assert!(counter.len() > 900.0);
    assert_eq!(f64::from_bits(SqliteHll::adopt(counter).len()), 0.0);
}

#[test]
fn insert_raises_the_estimate() {
    let mut sketch = blank(0.0081, 3);
    sketch.insert(&CanonicalValue::Integer(1));
    let one = f64::from_bits(sketch.len());
    assert_eq!(one, 1024.0 * (1024.0f64 / 1023.0).ln());
    sketch.insert(&CanonicalValue::Integer(2));
    let two = f64::from_bits(sketch.len());
    assert!(two >= one);
}

#[test]
fn default_error_rate_gives_128_registers() {
    let mut sketch = blank(0.05, 4);
    sketch.insert(&CanonicalValue::Text(b"x".to_vec()));
    assert_eq!(f64::from_bits(sketch.len()), 128.0 * (128.0f64 / 127.0).ln());
}

#[test]
fn inserting_again_changes_nothing() {
    let mut sketch = blank(0.0081, 5);
    let token = CanonicalValue::Float(HashableF64::from_bits(2.5f64.to_bits()));
    sketch.insert(&token);
    let once = sketch.len();
    for _ in 0..50 {
        sketch.insert(&token);
    }
    assert_eq!(sketch.len(), once);
}

#[test]
fn two_insertions_commute() {
    let first = CanonicalValue::Integer(-9);
    let second = CanonicalValue::Text(b"nine".to_vec());
    let mut forth = blank(0.0081, 6);
    forth.insert(&first);
    forth.insert(&second);
    let mut back = blank(0.0081, 6);
    back.insert(&second);
    back.insert(&first);
    assert_eq!(forth.len(), back.len());
}

#[test]
fn same_seed_same_estimate_and_other_seed_another() {
    let fill = |seed: u128| {
        let mut sketch = blank(0.0081, seed);
        for v in 0..20_000i64 {
            sketch.insert(&CanonicalValue::Integer(v));
        }
        sketch.len()
    };
    assert_eq!(fill(7), fill(7));
    assert_ne!(fill(7), fill(8));
}
