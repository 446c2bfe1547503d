use spectral_forge::dsp::history_buffer::HistoryBuffer;

#[test]
fn read_after_write_and_aging() {
    let mut h: HistoryBuffer<i32> = HistoryBuffer::new(2, 3, 4, 0);
    assert_eq!(h.num_channels(), 2);
    assert_eq!(h.capacity_frames(), 3);
    assert_eq!(h.num_bins(), 4);
    assert_eq!(h.frames_used(), 0);
    assert!(h.read_frame(0, 0).is_none());

    h.write_hop(0, &[1, 2, 3, 4]);
    h.write_hop(1, &[5, 6, 7, 8]);
    h.advance_after_all_channels_written();
    assert_eq!(h.read_frame(0, 0), Some(&[1, 2, 3, 4][..]));
    assert_eq!(h.read_frame(1, 0), Some(&[5, 6, 7, 8][..]));
    assert!(h.read_frame(0, 1).is_none());
    assert!(h.read_frame(2, 0).is_none());

    h.write_hop(0, &[9, 9, 9, 9]);
    h.advance_after_all_channels_written();
    assert_eq!(h.read_frame(0, 0), Some(&[9, 9, 9, 9][..]));
    assert_eq!(h.read_frame(0, 1), Some(&[1, 2, 3, 4][..]));
    assert_eq!(h.frames_used(), 2);
}

#[test]
fn ring_wraps_at_capacity() {
    let mut h: HistoryBuffer<u8> = HistoryBuffer::new(1, 2, 1, 0);
    for v in 1..=5u8 {
        h.write_hop(0, &[v]);
        h.advance_after_all_channels_written();
    }
    assert_eq!(h.frames_used(), 2);
    assert_eq!(h.read_frame(0, 0), Some(&[5u8][..]));
    assert_eq!(h.read_frame(0, 1), Some(&[4u8][..]));
    assert!(h.read_frame(0, 2).is_none());
}

#[test]
fn short_and_long_spectra_copy_what_fits() {
    let mut h: HistoryBuffer<i32> = HistoryBuffer::new(1, 2, 3, -1);
    h.write_hop(0, &[7]);
    h.advance_after_all_channels_written();
    assert_eq!(h.read_frame(0, 0), Some(&[7, -1, -1][..]));
    h.write_hop(0, &[1, 2, 3, 4, 5]);
    h.advance_after_all_channels_written();
    assert_eq!(h.read_frame(0, 0), Some(&[1, 2, 3][..]));
}

#[test]
fn reset_forgets_everything() {
    let mut h: HistoryBuffer<i32> = HistoryBuffer::new(1, 2, 2, 0);
    h.write_hop(0, &[3, 3]);
    h.advance_after_all_channels_written();
    h.reset(0);
    assert_eq!(h.frames_used(), 0);
    assert!(h.read_frame(0, 0).is_none());
    h.advance_after_all_channels_written();
    assert_eq!(h.read_frame(0, 0), Some(&[0, 0][..]));
}

#[test]
fn zero_capacity_never_reads() {
    let h: HistoryBuffer<i32> = HistoryBuffer::new(1, 0, 4, 0);
    assert!(h.read_frame(0, 0).is_none());
}

#[test]
fn reads_after_many_hops_give_the_matching_spectra() {
    let (channels, cap, bins) = (2usize, 3usize, 4usize);
    let mut hb = HistoryBuffer::new(channels, cap, bins, 0i32);
    let spectrum = |hop: usize, ch: usize| -> Vec<i32> {
        (0..bins).map(|k| (hop * 100 + ch * 10 + k) as i32).collect()
    };
    for m in 1..=7usize {
        for ch in 0..channels {
            hb.write_hop(ch, &spectrum(m - 1, ch));
        }
        hb.advance_after_all_channels_written();
        let filled = m.min(cap);
        assert_eq!(hb.frames_used(), filled);
        for ch in 0..channels {
            for a in 0..filled {
                assert_eq!(hb.read_frame(ch, a), Some(&spectrum(m - 1 - a, ch)[..]));
            }
            assert_eq!(hb.read_frame(ch, filled), None);
        }
        assert_eq!(hb.read_frame(channels, 0), None);
    }
}
