use raytracer::pipeline::{chunk_bounds, join_chunks, pixels_per_worker};
use raytracer::table::Table;

#[test]
fn per_worker_rounds_up() {
    assert_eq!(pixels_per_worker(10, 3), 4);
    assert_eq!(pixels_per_worker(12, 3), 4);
    assert_eq!(pixels_per_worker(1, 8), 1);
    assert_eq!(pixels_per_worker(0, 5), 0);
    assert_eq!(pixels_per_worker(7, 1), 7);
}

#[test]
fn chunk_bounds_tile_the_index_space() {
    assert_eq!(chunk_bounds(10, 3, 0), (0, 4));
    assert_eq!(chunk_bounds(10, 3, 1), (4, 8));
    assert_eq!(chunk_bounds(10, 3, 2), (8, 10));
}

#[test]
fn more_workers_than_pixels_leaves_empty_chunks() {
    assert_eq!(chunk_bounds(1, 8, 0), (0, 1));
    for worker in 1..8 {
        assert_eq!(chunk_bounds(1, 8, worker), (1, 1));
    }
}

#[test]
fn every_pixel_lands_in_exactly_one_chunk() {
    for &(total, workers) in &[(0usize, 4usize), (1, 1), (5, 2), (7, 3), (32 * 32, 7), (100, 100)] {
        let mut covered = vec![0u32; total];
        let mut previous_end = 0;
        for worker in 0..workers {
            let (start, end) = chunk_bounds(total, workers, worker);
            assert_eq!(start, previous_end);
            assert!(end <= total);
            for pixel in start..end {
                covered[pixel] += 1;
            }
            previous_end = end;
        }
        assert_eq!(previous_end, total);
        assert!(covered.iter().all(|&count| count == 1));
    }
}

#[test]
fn join_chunks_fills_the_grid_in_row_major_order() {
    let mut table = Table::from_elem((3, 2), 0u32);
    let chunks = vec![vec![1, 2, 3], vec![4], vec![], vec![5, 6]];
    join_chunks(&mut table, &chunks);
    assert_eq!(*table.get((0, 0)), 1);
    assert_eq!(*table.get((0, 1)), 2);
    assert_eq!(*table.get((0, 2)), 3);
    assert_eq!(*table.get((1, 0)), 4);
    assert_eq!(*table.get((1, 1)), 5);
    assert_eq!(*table.get((1, 2)), 6);
}

#[test]
fn joined_chunks_equal_the_single_worker_pass() {
    let total = 61;
    let shade = |pixel: usize| (pixel * pixel) as u64;
    let single: Vec<u64> = (0..total).map(shade).collect();
    for workers in 1..10 {
        let mut joined = Vec::new();
        for worker in 0..workers {
            let (start, end) = chunk_bounds(total, workers, worker);
            let chunk: Vec<u64> = (start..end).map(shade).collect();
            joined.extend(chunk);
        }
        assert_eq!(joined, single);
    }
}
