use hyprgram::live::{backlog_capacity, capture_ring, capture_ring_capacity, fit_row, push_bounded, texture_dims, HistoryCursor};
use std::collections::VecDeque;

#[test]
fn backlog_capacity_formula() {
    assert_eq!(backlog_capacity(0), 1024);
    assert_eq!(backlog_capacity(96), 1024);
    assert_eq!(backlog_capacity(512), 512 * 8 + 256);
    assert_eq!(backlog_capacity(u32::MAX), u32::MAX as usize * 8 + 256);
}

#[test]
fn bounded_queue_keeps_newest() {
    let mut q: VecDeque<u32> = VecDeque::new();
    for i in 0..10 {
        push_bounded(&mut q, i, 4);
        assert!(q.len() <= 4);
    }
    assert_eq!(q, VecDeque::from(vec![6, 7, 8, 9]));
    let mut q: VecDeque<u32> = (0..10).collect();
    push_bounded(&mut q, 42, 3);
    assert_eq!(q, VecDeque::from(vec![8, 9, 42]));
}

#[test]
fn texture_dims_check_limits() {
    assert_eq!(texture_dims(0, 0, 8192), Some((1, 1)));
    assert_eq!(texture_dims(256, 512, 8192), Some((256, 512)));
    assert_eq!(texture_dims(9000, 512, 8192), None);
    assert_eq!(texture_dims(256, 9000, 8192), None);
}

#[test]
fn history_rows_wrap() {
    let mut c = HistoryCursor::new();
    let rows: Vec<u32> = (0..7).map(|_| c.next_row(3)).collect();
    assert_eq!(rows, vec![0, 1, 2, 0, 1, 2, 0]);
    c.reset();
    assert_eq!(c.next_row(3), 0);
    let mut c = HistoryCursor { write_row: u32::MAX };
    assert_eq!(c.next_row(10), u32::MAX % 10);
    assert_eq!(c.write_row, 0);
}

#[test]
fn rows_are_cut_or_padded() {
    assert_eq!(fit_row(&[1, 2, 3], 5, 0), vec![1, 2, 3, 0, 0]);
    assert_eq!(fit_row(&[1, 2, 3], 2, 0), vec![1, 2]);
    assert_eq!(fit_row(&[0.5f32], 2, 0.0), vec![0.5, 0.0]);
}

use hyprgram::render::{image_size, pixel_axes, sample_column, PixelAxes};

#[test]
fn pixel_geometry() {
    assert_eq!(image_size(0, 0), (1, 1));
    assert_eq!(image_size(800, 200), (800, 200));
    assert_eq!(
        pixel_axes(3, 0, 10, 4, true),
        PixelAxes { col_pos: 3, col_extent: 10, bin_pos: 3, bin_extent: 4 }
    );
    assert_eq!(
        pixel_axes(3, 1, 10, 4, false),
        PixelAxes { col_pos: 1, col_extent: 4, bin_pos: 3, bin_extent: 10 }
    );
    let cols = vec![vec![1, 2], vec![3]];
    assert_eq!(sample_column(&cols, 0, 1, 0), 2);
    assert_eq!(sample_column(&cols, 1, 1, 9), 9);
    assert_eq!(sample_column(&cols, 5, 0, 9), 9);
}

#[test]
fn capture_ring_holds_two_seconds() {
    assert_eq!(capture_ring_capacity(48000), 96000);
    assert_eq!(capture_ring_capacity(44100), 88200);
    assert_eq!(capture_ring_capacity(1), 2);
    let mut r = capture_ring(100);
    assert_eq!(r.available(), 0);
    assert_eq!(r.push_interleaved(&vec![7u32; 250], 1, |f: &[u32]| f[0]), 200);
    assert_eq!(r.available(), 200);
}
