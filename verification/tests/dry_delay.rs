use spectral_forge::dsp::pipeline::{
    advance_dry_write, dry_delay_size, dry_read_pos, dry_write_pos, MAX_BLOCK_SIZE, MAX_DRY_DELAY_SIZE,
};

#[test]
fn dry_delay_ring_lengths() {
    assert_eq!(dry_delay_size(2048), 2048 + 8192);
    assert_eq!(dry_delay_size(16384), MAX_DRY_DELAY_SIZE);
    assert_eq!(MAX_BLOCK_SIZE, 8192);
}

#[test]
fn dry_path_is_delayed_by_one_fft_frame() {
    for &(fft, block) in &[(512usize, 1000usize), (2048, 8192), (4096, 1), (1024, 777)] {
        let size = dry_delay_size(fft);
        let mut ring = vec![-1i64; size];
        let mut w = 0usize;
        let mut t0 = 0i64;
        for _ in 0..12 {
            for i in 0..block {
                ring[dry_write_pos(w, i, size)] = t0 + i as i64;
            }
            for i in 0..block {
                let got = ring[dry_read_pos(w, i, size, fft)];
                let t = t0 + i as i64;
                let want = if t >= fft as i64 { t - fft as i64 } else { -1 };
                assert_eq!(got, want, "fft {fft} block {block} time {t}");
            }
            w = advance_dry_write(w, block, size);
            t0 += block as i64;
        }
    }
}
