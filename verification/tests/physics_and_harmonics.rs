use spectral_forge::dsp::harmonic_groups::{harmonic_candidates, MAX_PEAK_CANDIDATES};
use spectral_forge::dsp::modules::decay_sort::{keep_loudest, rank_candidates};
use spectral_forge::dsp::physics_helpers::energy_rise_damping;

#[test]
fn damping_needs_two_consecutive_rises() {
    let mut rose = vec![false, true, true, false];
    let doubled = vec![true, true, false, false];
    let damp = energy_rise_damping(&doubled, &mut rose);
    assert_eq!(damp, vec![false, true, false, false]);
    assert_eq!(rose, doubled);
    let damp = energy_rise_damping(&[true, true, true, true], &mut rose);
    assert_eq!(damp, vec![true, true, false, false]);
    assert_eq!(rose, vec![true, true, true, true]);
}

#[test]
fn harmonic_candidates_skip_dc_and_rank_loudest_first() {
    let mag = vec![100u32, 5, 9, 5, 1];
    let eligible = vec![true, true, true, true, false];
    let c = harmonic_candidates(&mag, &eligible);
    assert_eq!(c, vec![(2u32, 9u32), (1, 5), (3, 5)]);
}

#[test]
fn harmonic_candidates_cap_keeps_the_loudest() {
    let n = 100usize;
    let mag: Vec<u32> = (0..n as u32).collect();
    let eligible = vec![true; n];
    let c = harmonic_candidates(&mag, &eligible);
    assert_eq!(c.len(), MAX_PEAK_CANDIDATES);
    assert_eq!(c[0], (99, 99));
    assert_eq!(c[MAX_PEAK_CANDIDATES - 1], (68, 68));
}

#[test]
fn keep_loudest_replaces_first_quietest() {
    let mag = vec![3u32, 1, 1, 7, 2];
    let pass = vec![true; 5];
    let mut c = keep_loudest(&mag, &pass, 3);
    // Full after bins 0..2; bin 3 replaces the first quietest (bin 1); bin 4
    // replaces bin 2.
    assert_eq!(c.to_vec(), vec![(0u32, 3u32), (3, 7), (4, 2)]);
    rank_candidates(&mut c, &mag);
    assert_eq!(c.to_vec(), vec![(3u32, 7u32), (0, 3), (4, 2)]);
}
