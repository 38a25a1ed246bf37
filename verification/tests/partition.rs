use batch_translator::partition::{div_ceil, partition, Chunk};

fn ranges(chunks: &[Chunk]) -> Vec<(usize, usize)> {
    chunks.iter().map(|c| (c.start, c.end)).collect()
}

#[test]
fn div_ceil_rounds_up() {
    assert_eq!(div_ceil(10, 3), 4);
    assert_eq!(div_ceil(9, 3), 3);
    assert_eq!(div_ceil(0, 3), 0);
    assert_eq!(div_ceil(1, 3), 1);
    assert_eq!(div_ceil(usize::MAX, 1), usize::MAX);
    assert_eq!(div_ceil(usize::MAX, 2), usize::MAX / 2 + 1);
}

#[test]
fn ten_lines_three_workers() {
    let chunks = partition(0, 10, 3);
    assert_eq!(ranges(&chunks), vec![(0, 4), (4, 8), (8, 10)]);
}

#[test]
fn even_split() {
    let chunks = partition(0, 9, 3);
    assert_eq!(ranges(&chunks), vec![(0, 3), (3, 6), (6, 9)]);
}

#[test]
fn no_lines_no_chunks() {
    assert_eq!(ranges(&partition(0, 0, 4)), vec![]);
    assert_eq!(ranges(&partition(1, 0, 4)), vec![]);
    assert_eq!(ranges(&partition(0, 0, 0)), vec![]);
}

#[test]
fn zero_workers_count_as_one() {
    assert_eq!(ranges(&partition(0, 5, 0)), vec![(0, 5)]);
    assert_eq!(ranges(&partition(0, 5, 1)), vec![(0, 5)]);
}

#[test]
fn more_workers_than_lines() {
    let chunks = partition(0, 3, 8);
    assert_eq!(ranges(&chunks), vec![(0, 1), (1, 2), (2, 3)]);
}

#[test]
fn fewer_chunks_than_workers_when_rounding_leaves_one_idle() {
    // 5 lines for 4 workers: chunks of 2, so only 3 chunks.
    let chunks = partition(0, 5, 4);
    assert_eq!(ranges(&chunks), vec![(0, 2), (2, 4), (4, 5)]);
}

#[test]
fn offset_shifts_every_chunk() {
    let chunks = partition(1, 10, 3);
    assert_eq!(ranges(&chunks), vec![(1, 5), (5, 9), (9, 11)]);
}

#[test]
fn chunks_cover_every_position_exactly_once() {
    for total in 0..40usize {
        for workers in 0..12usize {
            let chunks = partition(0, total, workers);
            let mut seen = vec![0usize; total];
            for c in &chunks {
                assert!(c.start < c.end);
                for i in c.start..c.end {
                    seen[i] += 1;
                }
            }
            assert!(seen.iter().all(|&n| n == 1), "total {} workers {}", total, workers);
            let w = workers.max(1);
            assert!(chunks.len() <= w);
            if total > 0 {
                let size = (total + w - 1) / w;
                assert_eq!(chunks.len(), (total + size - 1) / size);
                assert_eq!(chunks[0].len(), size.min(total));
            }
        }
    }
}

#[test]
fn chunk_len_is_end_minus_start() {
    assert_eq!(Chunk { start: 3, end: 10 }.len(), 7);
    assert_eq!(Chunk { start: 3, end: 3 }.len(), 0);
}

#[test]
fn huge_totals_do_not_overflow() {
    let chunks = partition(0, usize::MAX, 2);
    assert_eq!(ranges(&chunks), vec![(0, usize::MAX / 2 + 1), (usize::MAX / 2 + 1, usize::MAX)]);
}
