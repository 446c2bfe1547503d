use spectral_forge::dsp::circuit_kernels::SimdRng;
use spectral_forge::dsp::modules::{kinetics, life};

#[test]
fn xorshift32_reference_values() {
    let mut r = SimdRng::new(1);
    assert_eq!(r.next_u32(), 270369);
    let mut s: u32 = 1;
    assert_eq!(life::xorshift32_step(&mut s), 270369);
    assert_eq!(s, 270369);
    let mut k: u32 = 1;
    assert_eq!(kinetics::xorshift32_step(&mut k), 270369);
    assert_eq!(r.next_u32(), life::xorshift32_step(&mut s));
}

#[test]
fn zero_seed_is_replaced() {
    let mut a = SimdRng::new(0);
    let mut b = SimdRng::new(0xDEADBEEF);
    for _ in 0..100 {
        let x = a.next_u32();
        assert_eq!(x, b.next_u32());
        assert_ne!(x, 0);
    }
    let mut c = a.clone();
    assert_eq!(c.next_u32(), a.next_u32());
}
