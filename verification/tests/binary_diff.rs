use nightindex::binary_diff::{diff_files, BinaryDiffConfig};
use nightindex::fnv::{fnv1a64, sample_plan, sample_signature, Fnv1a64, Sample, MAX_SAMPLED_BYTES};
use nightindex::ratio::Ratio;

fn value(ratio: Ratio) -> f64 {
    ratio.num as f64 / ratio.den as f64
}

#[test]
fn identical_files_score_one() {
    let data = (0..64_000u32).map(|v| (v % 251) as u8).collect::<Vec<_>>();
    let result = diff_files(&data, &data.clone(), BinaryDiffConfig::default());

    assert!((value(result.similarity) - 1.0).abs() < f64::EPSILON);
    assert_eq!(value(result.aligned_similarity), 1.0);
    assert_eq!(value(result.shifted_alignment_similarity), 1.0);
    assert_eq!(value(result.content_similarity), 1.0);
    assert_eq!(value(result.histogram_similarity), 1.0);
    assert_eq!(result.left.full_hash, result.right.full_hash);
}

#[test]
fn shifted_blocks_retains_nontrivial_similarity() {
    let mut base = Vec::with_capacity(192_000);
    let mut x = 0x1234_5678_9abc_def0_u64;
    for _ in 0..192_000 {
        x = x.wrapping_mul(6364136223846793005).wrapping_add(1);
        base.push((x >> 24) as u8);
    }

    let mut shifted = Vec::new();
    shifted.extend_from_slice(&base[8192..]);
    shifted.extend_from_slice(&base[..8192]);

    let cfg = BinaryDiffConfig {
        window_size: 1024,
        max_windows: 40,
    };
    let result = diff_files(&base, &shifted, cfg);

    assert!(value(result.aligned_similarity) < 1.0, "{:?}", result);
    assert!(
        value(result.shifted_alignment_similarity) >= value(result.aligned_similarity),
        "{:?}",
        result
    );
    assert!(value(result.histogram_similarity) > 0.95, "{:?}", result);
    assert!(value(result.similarity) > 0.30, "{:?}", result);
}

#[test]
fn tiny_files_are_handled_safely() {
    let cfg = BinaryDiffConfig {
        window_size: 4096,
        max_windows: 16,
    };
    let result = diff_files(&[1, 2, 3], &[1, 2, 4], cfg);

    assert_eq!(result.windows_compared, 1);
    assert_eq!(result.left.sample_hashes.len(), 1);
    assert_eq!(result.right.sample_hashes.len(), 1);
    assert!(value(result.similarity) >= 0.0 && value(result.similarity) <= 1.0);
    assert_ne!(result.left.full_hash, result.right.full_hash);
    // Two of four bytes in common, and the sizes are the same.
    assert_eq!(result.histogram_similarity, Ratio { num: 2, den: 4 });
    assert!((value(result.similarity) - (0.35 * 0.5 + 0.05)).abs() < 1e-12);
}

#[test]
fn empty_files_are_alike() {
    let result = diff_files(&[], &[], BinaryDiffConfig::default());
    assert_eq!(value(result.similarity), 1.0);
    assert_eq!(result.windows_compared, 0);
    assert_eq!(result.left.full_hash, "cbf29ce484222325");
    let other = diff_files(&[], &[1], BinaryDiffConfig::default());
    assert_eq!(value(other.similarity), 0.0);
}

#[test]
fn windows_are_spread_from_end_to_end() {
    let data = (0..100u8).collect::<Vec<_>>();
    let cfg = BinaryDiffConfig {
        window_size: 10,
        max_windows: 4,
    };
    let result = diff_files(&data, &data, cfg);
    let hash = |from: usize| format!("{:016x}", fnv1a64(&data[from..from + 10]));
    assert_eq!(
        result.left.sample_hashes,
        vec![hash(0), hash(30), hash(60), hash(90)]
    );
    assert_eq!(result.left.head_hash, hash(0));
    assert_eq!(result.left.tail_hash, hash(90));
}

#[test]
fn the_hash_is_that_of_the_known_vectors() {
    assert_eq!(fnv1a64(b""), 0xcbf29ce484222325);
    assert_eq!(fnv1a64(b"a"), 0xaf63dc4c8601ec8c);
    assert_eq!(fnv1a64(b"foobar"), 0x85944171f73967e8);
    let mut parts = Fnv1a64::new();
    parts.update(b"foo");
    parts.update(b"bar");
    assert_eq!(parts.finish(), fnv1a64(b"foobar"));
}

fn read_samples(data: &[u8]) -> Option<String> {
    let (offsets, length) = sample_plan(data.len() as u64)?;
    let mut samples = Vec::new();
    for offset in offsets {
        let from = offset as usize;
        let to = data.len().min(from + length as usize);
        samples.push(Sample {
            offset,
            bytes: data[from..to].to_vec(),
        });
    }
    sample_signature(&samples)
}

#[test]
fn binary_sample_signature_is_deterministic() {
    let payload = (0..8192).map(|i| (i % 251) as u8).collect::<Vec<_>>();
    let first = read_samples(&payload);
    let second = read_samples(&payload);
    assert!(first.is_some());
    assert_eq!(first, second);
}

#[test]
fn binary_sample_signature_respects_budget_limit() {
    let oversized = MAX_SAMPLED_BYTES + 1;
    assert!(sample_plan(oversized).is_none());
    assert!(sample_plan(0).is_none());
}

#[test]
fn binary_sample_signature_handles_tiny_binary() {
    let first = read_samples(&[0xAB]);
    let second = read_samples(&[0xAB]);
    assert!(first.is_some());
    assert_eq!(first, second);
}

#[test]
fn samples_are_taken_at_thirds_and_ends() {
    let (offsets, length) = sample_plan(3000).unwrap();
    assert_eq!(offsets, vec![0, 1000, 2000, 2744]);
    assert_eq!(length, 256);
    let (offsets, length) = sample_plan(3).unwrap();
    assert_eq!(offsets, vec![0, 1, 2]);
    assert_eq!(length, 3);
}

#[test]
fn samples_are_hashed_with_their_offsets() {
    let samples = vec![
        Sample {
            offset: 0,
            bytes: vec![7],
        },
        Sample {
            offset: 0x1234,
            bytes: vec![],
        },
        Sample {
            offset: 0x0102,
            bytes: vec![9],
        },
    ];
    let expected = fnv1a64(&[0, 0, 0, 0, 0, 0, 0, 0, 7, 2, 1, 0, 0, 0, 0, 0, 0, 9]);
    assert_eq!(
        sample_signature(&samples),
        Some(format!("{:016x}", expected))
    );
    assert_eq!(sample_signature(&Vec::new()), None);
}

#[test]
fn changing_sides_changes_sides_in_the_result() {
    let left = (0..97u8).chain(3..40).collect::<Vec<_>>();
    let right = (5..120u8).collect::<Vec<_>>();
    for max_windows in [0, 1, 3, 7] {
        let cfg = BinaryDiffConfig {
            window_size: 8,
            max_windows,
        };
        let there = diff_files(&left, &right, cfg);
        let back = diff_files(&right, &left, cfg);
        assert_eq!(there.similarity, back.similarity);
        assert_eq!(there.aligned_similarity, back.aligned_similarity);
        assert_eq!(
            there.shifted_alignment_similarity,
            back.shifted_alignment_similarity
        );
        assert_eq!(there.content_similarity, back.content_similarity);
        assert_eq!(there.histogram_similarity, back.histogram_similarity);
        assert_eq!(there.left, back.right);
        assert_eq!(there.right, back.left);
        assert!(there.matching_aligned_windows <= there.windows_compared);
        assert!(there.windows_compared <= max_windows.max(2));
    }
}
