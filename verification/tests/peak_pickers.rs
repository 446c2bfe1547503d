use spectral_forge::dsp::peak_order::order_key_from_bits;
use spectral_forge::dsp::modules::harmony_helpers::{find_top_k_peaks, PeakRecord, SMALL_PRIMES};
use spectral_forge::dsp::modules::punch::{detect_peaks, PunchMode, MAX_PEAKS};

const MAG: [u32; 9] = [0, 5, 1, 7, 2, 7, 1, 3, 0];

#[test]
fn detect_peaks_ranks_loudest_first() {
    let mut out = [99u32; 4];
    let n = detect_peaks(&MAG, &mut out, 2, 2);
    assert_eq!(n, 4);
    assert_eq!(out, [3, 5, 1, 7]);
}

#[test]
fn detect_peaks_enforces_min_distance() {
    let mut out = [99u32; 4];
    let n = detect_peaks(&MAG, &mut out, 2, 3);
    assert_eq!(n, 2);
    assert_eq!(out, [3, 7, 99, 99]);
}

#[test]
fn detect_peaks_threshold_and_capacity() {
    let mut out = [0u32; 1];
    let n = detect_peaks(&MAG, &mut out, 6, 0);
    assert_eq!(n, 1);
    assert_eq!(out, [3]);
    let mut none = [7u32; 3];
    assert_eq!(detect_peaks(&MAG, &mut none, 8, 0), 0);
    assert_eq!(none, [7, 7, 7]);
    let mut empty: [u32; 0] = [];
    assert_eq!(detect_peaks(&MAG, &mut empty, 0, 0), 0);
    assert_eq!(detect_peaks(&[1, 2], &mut none, 0, 0), 0);
}

#[test]
fn detect_peaks_plateau_counts_left_edge() {
    // A flat top: the first bin of the plateau is a candidate (>= right neighbour).
    let mag = [0u32, 4, 4, 0];
    let mut out = [0u32; 2];
    assert_eq!(detect_peaks(&mag, &mut out, 0, 0), 1);
    assert_eq!(out[0], 1);
}

#[test]
fn find_top_k_keeps_top_sorted_and_zeroes_rest() {
    let mut out = [PeakRecord { bin: 42, mag: 42 }; 3];
    let n = find_top_k_peaks(&MAG, 0, &mut out);
    assert_eq!(n, 3);
    assert_eq!(out[0], PeakRecord { bin: 3, mag: 7 });
    assert_eq!(out[1], PeakRecord { bin: 5, mag: 7 });
    assert_eq!(out[2], PeakRecord { bin: 1, mag: 5 });

    let mut out = [PeakRecord { bin: 42, mag: 42 }; 5];
    let n = find_top_k_peaks(&MAG, 4, &mut out);
    assert_eq!(n, 3);
    assert_eq!(out[2], PeakRecord { bin: 1, mag: 5 });
    assert_eq!(out[3], PeakRecord::default());
    assert_eq!(out[4], PeakRecord { bin: 0, mag: 0 });
}

#[test]
fn find_top_k_requires_strict_maxima() {
    let mag = [0u32, 4, 4, 0];
    let mut out = [PeakRecord::default(); 2];
    assert_eq!(find_top_k_peaks(&mag, 0, &mut out), 0);
    let mut none: [PeakRecord; 0] = [];
    assert_eq!(find_top_k_peaks(&MAG, 0, &mut none), 0);
}

#[test]
fn punch_labels_and_constants() {
    assert_eq!(PunchMode::Direct.label(), "Direct");
    assert_eq!(PunchMode::Inverse.label(), "Inverse");
    assert_eq!(PunchMode::default(), PunchMode::Direct);
    assert_eq!(MAX_PEAKS, 32);
    assert_eq!(SMALL_PRIMES[31], 131);
}

#[test]
fn order_keys_follow_float_order() {
    let key = |x: f32| order_key_from_bits((x + 0.0).to_bits());
    let xs = [-1.0e9f32, -3.5, -1.0, -0.0, 0.0, 1.0e-30, 0.5, 2.0, 7.25e12];
    for w in xs.windows(2) {
        assert!(key(w[0]) <= key(w[1]), "{} {}", w[0], w[1]);
    }
    assert_eq!(key(-0.0), key(0.0));
    assert_eq!(order_key_from_bits(0), 0x8000_0000);
    assert_eq!(order_key_from_bits(0x8000_0001), 0x7fff_fffe);
}
