use mini_llm::sampling::{initial_rng_state, next_rng_state, GreedySampler};

fn xorshift(mut s: u64) -> u64 {
    s ^= s << 13;
    s ^= s >> 7;
    s ^= s << 17;
    s
}

#[test]
fn test_seed_zero_uses_default_state() {
    assert_eq!(initial_rng_state(0), 0x12345678abcdef);
    assert_eq!(initial_rng_state(42), 42);
}

#[test]
fn test_xorshift_step() {
    assert_eq!(next_rng_state(1), xorshift(1));
    assert_eq!(next_rng_state(42), xorshift(42));
    assert_ne!(next_rng_state(42), 42);
}

#[test]
fn test_state_stays_nonzero() {
    let mut s = initial_rng_state(0);
    for _ in 0..1000 {
        s = next_rng_state(s);
        assert_ne!(s, 0);
    }
}

#[test]
fn test_greedy_sampler_is_a_unit_value() {
    let a = GreedySampler;
    let b = GreedySampler::default();
    assert_eq!(format!("{:?}", a.clone()), format!("{:?}", b));
}
