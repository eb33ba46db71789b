//! Sampler behavior: the container, the filters, the penalizers, the
//! selectors, and chains of them.

use llm_samplers::prelude::{
    Fx, HasSamplerResources, Logits, LogitsError, NilSamplerResources, SampleFlatBias,
    SampleFreqPresence, SampleGreedy, SampleLocallyTypical, SampleMinP, SampleMirostat1,
    SampleMirostat2, SampleRandDistrib, SampleRepetition, SampleSeqRepetition, SampleTailFree,
    SampleTemperature, SampleTopA, SampleTopK, SampleTopP, SamplerChain, SamplerError,
    SamplerKind, SimpleSamplerResources,
};
use rand::SeedableRng;

const T1: &[f32] = &[0.1, 0.2, 0.3, 0.4];
const TE1: &[f32] = &[0.4, 0.3, 0.2, 0.1];

fn fx(x: f64) -> Fx {
    if x == f64::INFINITY {
        Fx::inf()
    } else if x == f64::NEG_INFINITY {
        Fx::neg_inf()
    } else {
        Fx::from_raw((x * 16777216.0).round() as i64)
    }
}

fn fx_to_f64(v: Fx) -> f64 {
    v.raw() as f64 / 16777216.0
}

fn logits_from(vals: &[f32], use_ln: bool) -> Logits {
    let conv: Vec<Fx> = vals
        .iter()
        .map(|&v| {
            let x = if use_ln { (v as f64).ln() } else { v as f64 };
            fx(x)
        })
        .collect();
    Logits::try_from_iter(conv).expect("Bad logits")
}

fn probs_of(logits: &Logits) -> Vec<f64> {
    let mut out = Vec::new();
    for i in 0..logits.len() {
        out.push(fx_to_f64(logits.entry(i).prob));
    }
    out
}

fn logit_bits_of(logits: &Logits) -> Vec<i64> {
    let mut out = Vec::new();
    for i in 0..logits.len() {
        out.push(logits.entry(i).logit.raw());
    }
    out
}

fn validate_probs(logits: &Logits, expected: &[f32]) {
    let probs = probs_of(logits);
    assert_eq!(
        probs.len(),
        expected.len(),
        "result length mismatch: {probs:?} vs expected {expected:?}"
    );
    for (p, e) in probs.iter().zip(expected.iter()) {
        assert!(
            (p - *e as f64).abs() < 0.00001,
            "result {probs:?} not within tolerance of expected {expected:?}"
        );
    }
}

fn run_sampler(
    use_ln: bool,
    use_sm: bool,
    res: &mut SimpleSamplerResources,
    sampler: &mut SamplerKind,
    input: &[f32],
) -> Logits {
    let mut logits = logits_from(input, use_ln);
    if use_sm {
        logits.ensure_softmax().expect("Softmax failed");
    }
    sampler.sample(res, &mut logits).expect("Sampler error");
    logits
}

fn nil_res() -> SimpleSamplerResources {
    SimpleSamplerResources::new(None, None)
}

fn do_test_greedy(vals: Vec<f32>, expected: Option<u32>) {
    let mut logits = logits_from(&vals, false);
    let mut g = SamplerKind::Greedy(SampleGreedy::new());
    let tok = logits
        .sample_token(&mut NilSamplerResources::new(), &mut g)
        .expect("greedy failed");
    assert_eq!(tok, expected);
}

#[test]
fn test_chain1() {
    let mut res = NilSamplerResources::new();
    let mut logits = logits_from(T1, false);

    let mut sc = SamplerChain::new();
    sc.push_sampler(SamplerKind::FlatBias(SampleFlatBias::new(vec![(
        3,
        fx(f64::NEG_INFINITY),
    )])));
    sc.push_sampler(SamplerKind::FlatBias(SampleFlatBias::new(vec![(
        2,
        fx(f64::NEG_INFINITY),
    )])));
    sc.push_sampler(SamplerKind::Greedy(SampleGreedy::new()));

    assert_eq!(sc.sample_token(&mut res, &mut logits).unwrap(), Some(1));
}

#[test]
fn test_chain2() {
    let mut res = SimpleSamplerResources::new(
        Some(rand::rngs::StdRng::seed_from_u64(123)),
        Some(vec![]),
    );
    let mut logits = logits_from(T1, false);
    let mut logits2 = logits.clone();

    let mut sc = SamplerChain::new();
    sc.push_sampler(SamplerKind::FlatBias(SampleFlatBias::new(vec![(
        3,
        fx(f64::NEG_INFINITY),
    )])));
    sc.push_sampler(SamplerKind::Repetition(SampleRepetition::new(fx(1.1), 64)));
    sc.push_sampler(SamplerKind::FreqPresence(SampleFreqPresence::new(
        fx(0.05),
        fx(0.1),
        64,
    )));
    sc.push_sampler(SamplerKind::Temperature(SampleTemperature::new(fx(0.8))));
    sc.push_sampler(SamplerKind::Mirostat1(SampleMirostat1::new(4, fx(5.0), fx(0.1))));
    res.push_last_token(3).unwrap();

    assert_eq!(sc.sample_token(&mut res, &mut logits).unwrap(), Some(2));

    res.push_last_token(2).unwrap();
    assert_eq!(sc.sample_token(&mut res, &mut logits2).unwrap(), Some(1));
}

#[test]
fn test_resources() {
    let mut res = SimpleSamplerResources::new(
        Some(rand::rngs::StdRng::seed_from_u64(123)),
        Some(vec![0u32]),
    );

    let _ = res.rand_u32().expect("rng draw failed");
    let _ = res.rand_u32().expect("rng draw failed");
}

#[test]
fn test_greedy() {
    do_test_greedy(T1.to_vec(), Some(3));
    let mut rev = T1.to_vec();
    rev.reverse();
    do_test_greedy(rev, Some(0));
}

#[test]
fn test_top_k() {
    let mut res = nil_res();
    let l = run_sampler(
        true,
        true,
        &mut res,
        &mut SamplerKind::TopK(SampleTopK::new(1, 0)),
        T1,
    );
    validate_probs(&l, &TE1[0..1]);
    let l = run_sampler(
        true,
        true,
        &mut res,
        &mut SamplerKind::TopK(SampleTopK::new(3, 0)),
        T1,
    );
    validate_probs(&l, &TE1[0..3]);
}


#[test]
fn test_min_p() {
    const TINP: &[f32] = &[2.0, 1.0, 0.5, 0.25, 0.1];
    const TEXP: &[f32] = &[0.5194805, 0.25974026, 0.12987013, 0.064935066, 0.025974026];

    let mut res = nil_res();
    let l = run_sampler(
        true,
        true,
        &mut res,
        &mut SamplerKind::MinP(SampleMinP::new(fx(2.0), 1)),
        TINP,
    );
    validate_probs(&l, &TEXP[0..1]);
    let l = run_sampler(
        true,
        true,
        &mut res,
        &mut SamplerKind::MinP(SampleMinP::new(fx(0.2), 1)),
        TINP,
    );
    validate_probs(&l, &TEXP[0..3]);
    let l = run_sampler(
        true,
        true,
        &mut res,
        &mut SamplerKind::MinP(SampleMinP::new(fx(0.0001), 1)),
        TINP,
    );
    validate_probs(&l, TEXP);
}

#[test]
fn test_top_a() {
    const TINP: &[f32] = &[2.0, 1.0, 0.5, 0.25, 0.1];
    const TEXP: &[f32] = &[0.5194805, 0.25974026, 0.12987013, 0.064935066, 0.025974026];

    let mut res = nil_res();
    let l = run_sampler(
        true,
        true,
        &mut res,
        &mut SamplerKind::TopA(SampleTopA::new(fx(8.0), fx(2.0), 1)),
        TINP,
    );
    validate_probs(&l, &TEXP[0..1]);
    let l = run_sampler(
        true,
        true,
        &mut res,
        &mut SamplerKind::TopA(SampleTopA::new(fx(0.45), fx(2.0), 1)),
        TINP,
    );
    validate_probs(&l, &TEXP[0..3]);
    let l = run_sampler(
        true,
        true,
        &mut res,
        &mut SamplerKind::TopA(SampleTopA::new(fx(0.0001), fx(2.0), 1)),
        TINP,
    );
    validate_probs(&l, TEXP);
}

fn validate_probs_after_softmax(mut l: Logits, expected: &[f32]) {
    l.ensure_softmax().expect("Softmax failed");
    validate_probs(&l, expected);
}

#[test]
fn test_repetition() {
    const T: &[f32] = &[0.2, 0.2, 0.2, 0.2, 0.2];
    const TER2: &[f32] = &[0.5, 0.5, 0.0, 0.0, 0.0];
    let mut res = SimpleSamplerResources::new(None, Some(vec![0]));

    let l = run_sampler(
        true,
        true,
        &mut res,
        &mut SamplerKind::Repetition(SampleRepetition::new(fx(50.0), 100)),
        T,
    );
    validate_probs_after_softmax(l, &[0.25, 0.25, 0.25, 0.25, 0.0]);
    res.push_last_token(1).unwrap();
    res.push_last_token(2).unwrap();
    let l = run_sampler(
        true,
        true,
        &mut res,
        &mut SamplerKind::Repetition(SampleRepetition::new(fx(50.0), 100)),
        T,
    );
    validate_probs_after_softmax(l, TER2);
    res.push_last_token(0).unwrap();
    res.push_last_token(0).unwrap();
    let l = run_sampler(
        true,
        true,
        &mut res,
        &mut SamplerKind::Repetition(SampleRepetition::new(fx(50.0), 100)),
        T,
    );
    validate_probs_after_softmax(l, TER2);
}

#[test]
fn test_freq_presence() {
    const T: &[f32] = &[0.2, 0.2, 0.2, 0.2, 0.2];
    let mut res = SimpleSamplerResources::new(None, Some(vec![0]));

    let l = run_sampler(
        true,
        true,
        &mut res,
        &mut SamplerKind::FreqPresence(SampleFreqPresence::new(fx(5.0), fx(5.0), 100)),
        T,
    );
    validate_probs_after_softmax(l, &[0.249997, 0.249997, 0.249997, 0.249997, 0.000011]);
    res.push_last_token(1).unwrap();
    res.push_last_token(2).unwrap();
    let l = run_sampler(
        true,
        true,
        &mut res,
        &mut SamplerKind::FreqPresence(SampleFreqPresence::new(fx(5.0), fx(5.0), 100)),
        T,
    );
    validate_probs_after_softmax(l, &[0.499966, 0.499966, 0.000023, 0.000023, 0.000023]);
    res.push_last_token(0).unwrap();
    res.push_last_token(0).unwrap();
    let l = run_sampler(
        true,
        true,
        &mut res,
        &mut SamplerKind::FreqPresence(SampleFreqPresence::new(fx(5.0), fx(5.0), 100)),
        T,
    );
    validate_probs_after_softmax(l, &[0.499977, 0.499977, 0.000023, 0.000023, 0.0]);
}


#[test]
fn test_locally_typical() {
    let mut res = nil_res();
    let l = run_sampler(
        true,
        false,
        &mut res,
        &mut SamplerKind::LocallyTypical(SampleLocallyTypical::new(fx(0.5), 1)),
        &[0.97, 0.01, 0.01, 0.01],
    );
    validate_probs(&l, &[0.97]);
    let l = run_sampler(
        true,
        false,
        &mut res,
        &mut SamplerKind::LocallyTypical(SampleLocallyTypical::new(fx(0.5), 1)),
        &[0.4, 0.2, 0.2, 0.2],
    );
    validate_probs(&l, &[0.2, 0.2, 0.2]);
}

#[test]
fn test_tail_free() {
    const T: &[f32] = &[0.1, 0.15, 0.2, 0.25, 0.3];
    let mut res = nil_res();

    let l = run_sampler(
        true,
        false,
        &mut res,
        &mut SamplerKind::TailFree(SampleTailFree::new(fx(0.25), 1)),
        T,
    );
    validate_probs(&l, &[0.3]);
    let l = run_sampler(
        true,
        false,
        &mut res,
        &mut SamplerKind::TailFree(SampleTailFree::new(fx(0.75), 1)),
        T,
    );
    validate_probs(&l, &[0.3, 0.25]);
    let l = run_sampler(
        true,
        false,
        &mut res,
        &mut SamplerKind::TailFree(SampleTailFree::new(fx(0.99), 1)),
        T,
    );
    validate_probs(&l, &[0.3, 0.25]);
}

#[test]
fn test_flat_bias() {
    const T: &[f32] = &[0.1, 0.15, 0.2, 0.25, 0.3];
    let mut res = nil_res();

    let l = run_sampler(
        false,
        false,
        &mut res,
        &mut SamplerKind::FlatBias(SampleFlatBias::new(vec![(0, fx(f64::NEG_INFINITY))])),
        T,
    );
    let expect: Vec<i64> = [f32::NEG_INFINITY, 0.15, 0.2, 0.25, 0.3]
        .iter()
        .map(|&x| fx(x as f64).raw())
        .collect();
    assert_eq!(logit_bits_of(&l), expect);

    let l = run_sampler(
        false,
        false,
        &mut res,
        &mut SamplerKind::FlatBias(SampleFlatBias::new(vec![(3, fx(f64::NEG_INFINITY))])),
        T,
    );
    let expect: Vec<i64> = [0.1f32, 0.15, 0.2, f32::NEG_INFINITY, 0.3]
        .iter()
        .map(|&x| fx(x as f64).raw())
        .collect();
    assert_eq!(logit_bits_of(&l), expect);
}

#[test]
fn test_rand_distrib() {
    let mut res = SimpleSamplerResources::new(
        Some(rand::rngs::StdRng::seed_from_u64(123)),
        None,
    );
    let mut sampler = SamplerKind::RandDistrib(SampleRandDistrib::new());
    let mut logits = logits_from(&[1.0, 0.0, 0.0], true);
    assert_eq!(
        logits.sample_token(&mut res, &mut sampler).unwrap(),
        Some(0)
    );
    let mut logits = logits_from(&[0.0, 0.0, 1.0], true);
    assert_eq!(
        logits.sample_token(&mut res, &mut sampler).unwrap(),
        Some(2)
    );
}

#[test]
fn test_mirostat1() {
    let mut res = SimpleSamplerResources::new(
        Some(rand::rngs::StdRng::seed_from_u64(123)),
        None,
    );
    let mut sampler = SamplerKind::Mirostat1(SampleMirostat1::new(3, fx(5.0), fx(0.1)));
    let mut logits = logits_from(&[1.0, 0.0, 0.0], true);
    assert_eq!(
        logits.sample_token(&mut res, &mut sampler).unwrap(),
        Some(0)
    );
    let mut sampler = SamplerKind::Mirostat1(SampleMirostat1::new(3, fx(5.0), fx(0.1)));
    let mut logits = logits_from(&[0.0, 0.0, 1.0], true);
    assert_eq!(
        logits.sample_token(&mut res, &mut sampler).unwrap(),
        Some(2)
    );
}

#[test]
fn test_mirostat2() {
    let mut res = SimpleSamplerResources::new(
        Some(rand::rngs::StdRng::seed_from_u64(123)),
        None,
    );
    let mut sampler = SamplerKind::Mirostat2(SampleMirostat2::new(fx(5.0), fx(0.1)));
    let mut logits = logits_from(&[1.0, 0.0, 0.0], true);
    assert_eq!(
        logits.sample_token(&mut res, &mut sampler).unwrap(),
        Some(0)
    );
    let mut sampler = SamplerKind::Mirostat2(SampleMirostat2::new(fx(5.0), fx(0.1)));
    let mut logits = logits_from(&[0.0, 0.0, 1.0], true);
    assert_eq!(
        logits.sample_token(&mut res, &mut sampler).unwrap(),
        Some(2)
    );
}

#[test]
fn softmax_sums_to_one() {
    // For NaN-free nonempty input the probabilities are nonnegative and
    // total one, within tolerance.
    for vals in [
        vec![0.25f32, -1.5, 3.0, 0.0, 2.25],
        vec![1.0],
        vec![-10.0, -10.0, -10.0],
    ] {
        let mut l = logits_from(&vals, false);
        l.softmax().expect("softmax failed");
        let probs = probs_of(&l);
        let total: f64 = probs.iter().sum();
        assert!((total - 1.0).abs() < 0.00001, "total {total} off of one");
        assert!(probs.iter().all(|p| *p >= 0.0));
    }
}

#[test]
fn ensure_sorted_is_idempotent() {
    let mut l = logits_from(&[0.3f32, 0.1, 0.4, 0.2], false);
    l.ensure_sorted().expect("sort failed");
    let once = logit_bits_of(&l);
    let mut desc = once.clone();
    desc.sort_by(|a, b| b.cmp(a));
    assert_eq!(once, desc);
    l.ensure_sorted().expect("sort failed");
    assert_eq!(logit_bits_of(&l), once);
}

#[test]
fn top_k_keeps_clamped_count() {
    // Output length is clamp(k, min_keep, input length), holding the
    // highest-logit entries in descending order.
    let mut res = nil_res();
    for (k, min_keep, expect_len) in [(2usize, 0usize, 2usize), (0, 3, 3), (9, 1, 4)] {
        let l = run_sampler(
            false,
            false,
            &mut res,
            &mut SamplerKind::TopK(SampleTopK::new(k, min_keep)),
            T1,
        );
        assert_eq!(l.len(), expect_len);
        let bits = logit_bits_of(&l);
        let mut desc = bits.clone();
        desc.sort_by(|a, b| b.cmp(a));
        assert_eq!(bits, desc);
        assert_eq!(bits[0], fx(0.4f32 as f64).raw());
    }
}

#[test]
fn top_p_full_target_keeps_all() {
    let mut res = nil_res();
    let l = run_sampler(
        false,
        false,
        &mut res,
        &mut SamplerKind::TopP(SampleTopP::new(fx(1.0), 1)),
        T1,
    );
    assert_eq!(l.len(), T1.len());
}

#[test]
fn top_p_zero_target_keeps_single_best() {
    let mut res = nil_res();
    let l = run_sampler(
        false,
        false,
        &mut res,
        &mut SamplerKind::TopP(SampleTopP::new(fx(0.0), 1)),
        T1,
    );
    assert_eq!(l.len(), 1);
    assert_eq!(l.entry(0).token_id, 3);
}

#[test]
fn mirostat2_mu_update_rule() {
    // With tau 5.0, eta 0.1 and a fixed seed, one call moves mu by
    // exactly eta * (surprise(selected) - tau).
    let mut res = SimpleSamplerResources::new(
        Some(rand::rngs::StdRng::seed_from_u64(123)),
        None,
    );
    let mut sampler = SampleMirostat2::new(fx(5.0), fx(0.1));
    let mu_old = fx_to_f64(sampler.mu);
    let mut logits = logits_from(&[0.6f32, 0.4], false);
    let mut kind = SamplerKind::Mirostat2(sampler);
    let tok = logits.sample_token(&mut res, &mut kind).unwrap().unwrap();
    let selected = (0..logits.len())
        .find(|&i| logits.entry(i).token_id == tok)
        .unwrap();
    let p = fx_to_f64(logits.entry(selected).prob);
    let mu_new = match kind {
        SamplerKind::Mirostat2(s) => fx_to_f64(s.mu),
        _ => unreachable!(),
    };
    let expected = mu_old - 0.1 * (-p.log2() - 5.0);
    assert!((mu_new - expected).abs() < 0.0001, "{mu_new} vs {expected}");
}

#[test]
fn nan_scores_are_rejected_with_position() {
    let vals = vec![fx(0.5), Fx::nan(), fx(1.0)];
    match Logits::try_from_iter(vals) {
        Err(LogitsError::InvalidLogit(i)) => assert_eq!(i, 1),
        other => panic!("expected invalid logit, got {other:?}"),
    }
}

#[test]
fn empty_logits_are_no_ops() {
    let mut res = nil_res();
    let mut l = logits_from(&[], false);
    let mut g = SamplerKind::Greedy(SampleGreedy::new());
    assert_eq!(l.sample_token(&mut res, &mut g).unwrap(), None);
    l.softmax().expect("softmax failed");
    assert_eq!(l.len(), 0);
}

#[test]
fn missing_history_is_reported() {
    let mut res = nil_res();
    let mut l = logits_from(T1, false);
    let mut rep = SamplerKind::Repetition(SampleRepetition::new(fx(1.5), 64));
    match rep.sample(&mut res, &mut l) {
        Err(SamplerError::MissingResource(_)) => {},
        other => panic!("expected missing resource, got {other:?}"),
    }
}

fn logit_of_token(logits: &Logits, t: u32) -> i64 {
    for i in 0..logits.len() {
        let e = logits.entry(i);
        if e.token_id == t {
            return e.logit.raw();
        }
    }
    panic!("token {t} not found");
}

#[test]
fn sequence_repetition_penalizes_continuation() {
    // History [1,2,3,4,1,2,3] with min_length 3 and a positive flat
    // penalty: token 4 continues the repeated [1,2,3], so its logit
    // decreases and every other logit is untouched.
    const T: &[f32] = &[0.2, 0.2, 0.2, 0.2, 0.2];
    let mut res = SimpleSamplerResources::new(None, Some(vec![1, 2, 3, 4, 1, 2, 3]));
    let before = logits_from(T, true);
    let mut after = before.clone();
    let mut s = SamplerKind::SeqRepetition(
        SampleSeqRepetition::default().min_length(3).flat_penalty(fx(5.0)),
    );
    s.sample(&mut res, &mut after).unwrap();
    for t in 0..5u32 {
        let b = logit_of_token(&before, t);
        let a = logit_of_token(&after, t);
        if t == 4 {
            assert!(a < b, "token 4 should be penalized");
        } else {
            assert_eq!(a, b, "token {t} should be untouched");
        }
    }
}

#[test]
fn sequence_repetition_stacking_penalty() {
    // History [0,1,2,3,0,1,2] with min_length 3 and a stacking penalty:
    // token 3 continues the repeated [0,1,2], so its logit decreases and
    // every other logit is untouched.
    const T: &[f32] = &[0.2, 0.2, 0.2, 0.2, 0.2];
    let mut res = SimpleSamplerResources::new(None, Some(vec![0, 1, 2, 3, 0, 1, 2]));
    let before = logits_from(T, true);
    let mut after = before.clone();
    let mut s = SamplerKind::SeqRepetition(
        SampleSeqRepetition::default().min_length(3).stacking_penalty(fx(1.25)),
    );
    s.sample(&mut res, &mut after).unwrap();
    for t in 0..5u32 {
        let b = logit_of_token(&before, t);
        let a = logit_of_token(&after, t);
        if t == 3 {
            assert!(a < b, "token 3 should be penalized");
        } else {
            assert_eq!(a, b, "token {t} should be untouched");
        }
    }
}

#[test]
fn sequence_repetition_tolerates_one_mismatch() {
    // History [1,8,3,4,1,2,3] with tolerance 1 still penalizes token 4:
    // the 8 is tolerated against the 2.
    const T: &[f32] = &[0.2, 0.2, 0.2, 0.2, 0.2, 0.2, 0.2, 0.2, 0.2];
    let mut res = SimpleSamplerResources::new(None, Some(vec![1, 8, 3, 4, 1, 2, 3]));
    let before = logits_from(T, true);
    let mut after = before.clone();
    let mut s = SamplerKind::SeqRepetition(
        SampleSeqRepetition::default()
            .min_length(3)
            .tolerance(1)
            .flat_penalty(fx(5.0)),
    );
    s.sample(&mut res, &mut after).unwrap();
    assert!(
        logit_of_token(&after, 4) < logit_of_token(&before, 4),
        "token 4 should be penalized under tolerance"
    );
}

#[test]
fn top_p_cuts_at_cumulative_target() {
    // A target between the first and second cumulative probability keeps
    // exactly two entries.
    let mut res = nil_res();
    let l = run_sampler(
        true,
        true,
        &mut res,
        &mut SamplerKind::TopP(SampleTopP::new(fx(0.65), 1)),
        T1,
    );
    validate_probs(&l, &TE1[0..2]);
}
