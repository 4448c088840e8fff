use video_diffusion::chunk::{
    env_bool, env_chunk, join_seq, map_seq_chunks, seq_chunks, slice_axis0, DitMemoryConfig, EnvSettings,
};
use video_diffusion::error::Error;
use video_diffusion::tensor::Tensor;

#[test]
fn off_config_is_off() {
    assert!(DitMemoryConfig::off().is_off());
    assert!(DitMemoryConfig::default().is_off());
    assert!(!DitMemoryConfig {
        eval_per_block: true,
        ..DitMemoryConfig::off()
    }
    .is_off());
}

fn scaled(x: &Tensor<f32>, chunk: Option<usize>) -> Tensor<f32> {
    map_seq_chunks(x, chunk, |part: &Tensor<f32>, start: usize| {
        let (b, len, d) = (part.shape[0], part.shape[1], part.shape[2]);
        let mut data: Vec<f32> = Vec::new();
        for i in 0..b {
            for j in 0..len {
                let w = 1.0 + 0.5 * (start + j) as f32;
                for k in 0..d {
                    data.push(part.data[(i * len + j) * d + k] * w);
                }
            }
        }
        Ok(Tensor { shape: vec![b, len, d], data })
    })
    .unwrap()
}

#[test]
fn map_seq_chunks_is_bit_identical() {
    let l = 37;
    let d = 5;
    let n = 2 * l * d;
    let data: Vec<f32> = (0..n).map(|i| (i as f32) * 0.013 - 1.7).collect();
    let x = Tensor { shape: vec![2, l, d], data };
    let full = scaled(&x, None);
    for chunk in [Some(1), Some(7), Some(16), Some(37), Some(100)] {
        let chunked = scaled(&x, chunk);
        assert_eq!(chunked.shape, full.shape, "chunk {chunk:?} shape");
        let max_abs = full
            .data
            .iter()
            .zip(&chunked.data)
            .map(|(a, b)| (a - b).abs())
            .fold(0.0f32, f32::max);
        assert_eq!(max_abs, 0.0, "chunk {chunk:?} not bit-identical (max|Δ| {max_abs})");
    }
}

#[test]
fn env_helpers_parse() {
    assert_eq!(env_chunk(&None, Some(99)), Some(99));
    assert!(env_bool(&None, true));
    assert!(!env_bool(&None, false));
}

#[test]
fn settings_are_read_from_text() {
    let some = |s: &str| Some(s.to_string());
    assert_eq!(env_chunk(&some(" 12 "), None), Some(12));
    assert_eq!(env_chunk(&some("0"), Some(3)), None);
    assert!(env_bool(&some("1"), false));
    assert!(!env_bool(&some("0"), true));
    assert!(env_bool(&some(" On "), false) && env_bool(&some("TRUE"), false));
    assert!(!env_bool(&some("off"), true) && !env_bool(&some("False"), true));
    assert!(!env_bool(&some("yes"), false) && env_bool(&some("no"), true));
    let base = DitMemoryConfig::off();
    let read = DitMemoryConfig::from_env(
        base,
        &EnvSettings {
            ffn_seq_chunk: some("4096"),
            attn_query_chunk: None,
            eval_per_block: some("true"),
        },
    );
    assert_eq!(read.ffn_seq_chunk, Some(4096));
    assert_eq!(read.attn_query_chunk, None);
    assert!(read.eval_per_block);
    assert!(!read.is_off());
}

#[test]
fn blocks_cover_the_sequence_in_order() {
    assert_eq!(seq_chunks(10, Some(4)), vec![(0, 4), (4, 4), (8, 2)]);
    assert_eq!(seq_chunks(8, Some(4)), vec![(0, 4), (4, 4)]);
    assert_eq!(seq_chunks(3, Some(4)), vec![(0, 3)]);
    assert_eq!(seq_chunks(3, None), vec![(0, 3)]);
}

#[test]
fn joined_blocks_are_the_whole() {
    let x = Tensor { shape: vec![1, 5, 2], data: (0u32..10).collect() };
    let parts = vec![x.slice_axis(1, 0, 2), x.slice_axis(1, 2, 4), x.slice_axis(1, 4, 5)];
    assert_eq!(join_seq(&parts), Some(Tensor { shape: vec![1, 5, 2], data: (0u32..10).collect() }));
}

#[test]
fn rows_of_a_table_are_sliced_from_the_first_axis() {
    let x = Tensor { shape: vec![4, 1, 2], data: (0u32..8).collect() };
    let r = slice_axis0(&x, 1, 2);
    assert_eq!(r.shape, vec![2, 1, 2]);
    assert_eq!(r.data, vec![2, 3, 4, 5]);
}

#[test]
fn an_error_of_a_block_is_handed_back() {
    let x = Tensor { shape: vec![1, 4, 1], data: vec![1u8, 2, 3, 4] };
    let r = map_seq_chunks(&x, Some(2), |part: &Tensor<u8>, start: usize| {
        if start == 2 {
            Err(Error::Canceled)
        } else {
            Ok(part.slice_axis(1, 0, 2))
        }
    });
    assert!(matches!(r, Err(Error::Canceled)));
}

#[test]
fn the_first_error_ends_the_work() {
    let x = Tensor { shape: vec![1, 4, 1], data: vec![1u8, 2, 3, 4] };
    let calls = std::cell::Cell::new(0);
    let r = map_seq_chunks(&x, Some(1), |part: &Tensor<u8>, start: usize| {
        calls.set(calls.get() + 1);
        match start {
            1 => Err(Error::Canceled),
            2 => Err(Error::Msg("later".to_string())),
            _ => Ok(part.slice_axis(1, 0, 1)),
        }
    });
    assert!(matches!(r, Err(Error::Canceled)));
    assert_eq!(calls.get(), 2);
}

#[test]
fn one_block_is_handed_over_as_it_is() {
    let x = Tensor { shape: vec![1, 2], data: vec![3u8, 4] };
    for chunk in [None, Some(0), Some(2), Some(9)] {
        let r = map_seq_chunks(&x, chunk, |part: &Tensor<u8>, start: usize| {
            assert_eq!((part.shape.clone(), start), (vec![1, 2], 0));
            Ok(Tensor { shape: vec![1], data: vec![part.data[0] + part.data[1]] })
        });
        assert_eq!(r.unwrap(), Tensor { shape: vec![1], data: vec![7] });
    }
}

#[test]
fn outputs_that_do_not_fit_together_are_an_error() {
    let x = Tensor { shape: vec![1, 2, 1], data: vec![3u8, 4] };
    let r = map_seq_chunks(&x, Some(1), |_: &Tensor<u8>, start: usize| {
        Ok(Tensor { shape: vec![1, 1, start + 1], data: vec![0; start + 1] })
    });
    assert!(r.unwrap_err().message().contains("do not fit together"));
    let flat = map_seq_chunks(&x, Some(1), |_: &Tensor<u8>, _: usize| {
        Ok(Tensor { shape: vec![1], data: vec![0] })
    });
    assert!(flat.unwrap_err().message().contains("do not fit together"));
    assert_eq!(join_seq::<u8>(&vec![]), None);
}
