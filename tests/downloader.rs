use dw::config::DownloadConfig;
use dw::downloader::{
    adapt_buffer_size, check_range_status, check_status, choose_strategy, client_slot,
    plan_chunks, try_plan_chunks, Chunk, ChunkJoin, JoinStep, ResourceDescriptor, Strategy,
    StreamState,
    TransferError,
};
use dw::utils::{BandwidthMonitor, Throughput};

fn config(max_connections: usize, min_chunk_size: u64) -> DownloadConfig {
    DownloadConfig {
        max_connections,
        buffer_size: 1024 * 1024,
        adaptive_buffering: true,
        min_chunk_size,
        connection_timeout_secs: 30,
    }
}

#[test]
fn default_config_values() {
    let c = DownloadConfig::default();
    assert_eq!(c.max_connections, 8);
    assert_eq!(c.buffer_size, 1024 * 1024);
    assert!(c.adaptive_buffering);
    assert_eq!(c.min_chunk_size, 1024 * 1024);
    assert_eq!(c.connection_timeout_secs, 30);
    assert_eq!(c.limiter_permits(), 16);
}

#[test]
fn strategy_parallel_for_large_ranged_resource() {
    let d = ResourceDescriptor {
        total_size: 10_000_000,
        supports_ranges: true,
    };
    assert_eq!(choose_strategy(&d, &config(4, 1_000_000)), Strategy::Parallel);
}

#[test]
fn strategy_single_without_ranges() {
    for size in [0u64, 500, 10_000_000, u64::MAX] {
        let d = ResourceDescriptor {
            total_size: size,
            supports_ranges: false,
        };
        assert_eq!(
            choose_strategy(&d, &config(4, 1_000_000)),
            Strategy::SingleStream
        );
    }
}

#[test]
fn strategy_single_for_small_resource() {
    let d = ResourceDescriptor {
        total_size: 500,
        supports_ranges: true,
    };
    assert_eq!(
        choose_strategy(&d, &config(4, 1_000_000)),
        Strategy::SingleStream
    );
}

#[test]
fn strategy_single_with_one_connection_or_at_threshold() {
    let d = ResourceDescriptor {
        total_size: 10_000_000,
        supports_ranges: true,
    };
    assert_eq!(
        choose_strategy(&d, &config(1, 1_000_000)),
        Strategy::SingleStream
    );
    assert_eq!(
        choose_strategy(&d, &config(4, 10_000_000)),
        Strategy::SingleStream
    );
}

#[test]
fn head_answer_is_read() {
    let d = ResourceDescriptor::from_head(200, Some(104857600), Some(b"bytes".as_slice()));
    assert_eq!(
        d,
        Ok(ResourceDescriptor {
            total_size: 104857600,
            supports_ranges: true
        })
    );
    let d = ResourceDescriptor::from_head(204, None, Some(b"none".as_slice()));
    assert_eq!(
        d,
        Ok(ResourceDescriptor {
            total_size: 0,
            supports_ranges: false
        })
    );
    let d = ResourceDescriptor::from_head(200, Some(7), None);
    assert_eq!(
        d,
        Ok(ResourceDescriptor {
            total_size: 7,
            supports_ranges: false
        })
    );
}

#[test]
fn missing_resource_is_unavailable() {
    assert_eq!(
        ResourceDescriptor::from_head(404, Some(10), Some(b"bytes".as_slice())),
        Err(TransferError::ResourceUnavailable(404))
    );
    assert_eq!(check_status(404), Err(TransferError::ResourceUnavailable(404)));
    assert_eq!(check_status(199), Err(TransferError::ResourceUnavailable(199)));
    assert_eq!(check_status(300), Err(TransferError::ResourceUnavailable(300)));
    assert_eq!(check_status(200), Ok(()));
    assert_eq!(check_status(299), Ok(()));
}

#[test]
fn ranged_get_needs_partial_content() {
    assert_eq!(check_range_status(206), Ok(()));
    assert_eq!(
        check_range_status(200),
        Err(TransferError::RangeNotHonored(200))
    );
}

#[test]
fn partition_of_hundred_mebibytes_in_four() {
    let total: u64 = 104857600;
    let chunks = plan_chunks(total, 4);
    assert_eq!(chunks.len(), 4);
    let q = total / 4;
    for (i, c) in chunks.iter().enumerate() {
        assert_eq!(c.index, i);
        assert_eq!(c.start, i as u64 * q);
        assert_eq!(c.end, (i as u64 + 1) * q - 1);
    }
    let sum: u64 = chunks.iter().map(|c| c.end - c.start + 1).sum();
    assert_eq!(sum, total);
}

#[test]
fn partition_last_chunk_takes_remainder() {
    let chunks = plan_chunks(10, 3);
    assert_eq!(
        chunks,
        vec![
            Chunk { index: 0, start: 0, end: 2 },
            Chunk { index: 1, start: 3, end: 5 },
            Chunk { index: 2, start: 6, end: 9 },
        ]
    );
    assert_eq!(plan_chunks(1, 1), vec![Chunk { index: 0, start: 0, end: 0 }]);
    let chunks = plan_chunks(5, 5);
    for (i, c) in chunks.iter().enumerate() {
        assert_eq!((c.start, c.end), (i as u64, i as u64));
    }
}

#[test]
fn partition_is_contiguous_for_many_sizes() {
    for total in [1u64, 2, 7, 100, 1023, 99_999_999] {
        for n in 1usize..=7 {
            if n as u64 > total {
                continue;
            }
            let chunks = plan_chunks(total, n);
            assert_eq!(chunks[0].start, 0);
            assert_eq!(chunks[n - 1].end, total - 1);
            for w in chunks.windows(2) {
                assert_eq!(w[0].end + 1, w[1].start);
                assert!(w[0].start <= w[0].end);
            }
        }
    }
}

#[test]
fn range_header_text() {
    let c = Chunk {
        index: 1,
        start: 26214400,
        end: 52428799,
    };
    assert_eq!(c.range_header(), "bytes=26214400-52428799");
    let c = Chunk {
        index: 0,
        start: 0,
        end: 0,
    };
    assert_eq!(c.range_header(), "bytes=0-0");
}

#[test]
fn clients_are_assigned_round_robin() {
    assert_eq!(client_slot(0, 4), 0);
    assert_eq!(client_slot(5, 4), 1);
    assert_eq!(client_slot(3, 1), 0);
}

#[test]
fn buffer_doubles_up_to_ceiling() {
    let fast = Throughput {
        bytes: 100 * 1024 * 1024,
        nanos: 1_000_000_000,
    };
    let mut size: usize = 1024 * 1024;
    let mut seen = Vec::new();
    for _ in 0..4 {
        size = adapt_buffer_size(size, &fast);
        seen.push(size);
    }
    assert_eq!(seen, vec![2097152, 4194304, 4194304, 4194304]);
}

#[test]
fn buffer_halves_down_to_floor() {
    let slow = Throughput {
        bytes: 1024 * 1024,
        nanos: 1_000_000_000,
    };
    let mut size: usize = 262144;
    let mut seen = Vec::new();
    for _ in 0..4 {
        size = adapt_buffer_size(size, &slow);
        seen.push(size);
    }
    assert_eq!(seen, vec![131072, 65536, 65536, 65536]);
}

#[test]
fn buffer_kept_between_thresholds() {
    let middling = Throughput {
        bytes: 20 * 1024 * 1024,
        nanos: 1_000_000_000,
    };
    assert_eq!(adapt_buffer_size(1048576, &middling), 1048576);
}

#[test]
fn stream_adapts_only_when_passing_five_mebibytes() {
    let mut monitor = BandwidthMonitor::new();
    let mut state = StreamState::new(&config(1, 0));
    assert_eq!(state.downloaded, 0);
    assert_eq!(state.buffer_size, 1024 * 1024);
    state.on_block(1024, &mut monitor);
    assert_eq!(state.downloaded, 1024);
    assert_eq!(state.buffer_size, 1024 * 1024);
    assert_eq!(monitor.bytes_transferred(), 1024);
    // Passing 5 MiB: the buffer follows the monitor's reading at that moment.
    state.on_block(5 * 1024 * 1024, &mut monitor);
    assert_eq!(state.downloaded, 5 * 1024 * 1024 + 1024);
    let t = monitor.throughput();
    assert_eq!(t.bytes, 5 * 1024 * 1024 + 1024);
    assert_eq!(state.buffer_size, adapt_buffer_size(1024 * 1024, &t));
    assert_ne!(state.buffer_size, 1024 * 1024);
}

#[test]
fn stream_never_adapts_when_disabled() {
    let mut monitor = BandwidthMonitor::new();
    let mut c = config(1, 0);
    c.adaptive_buffering = false;
    let mut state = StreamState::new(&c);
    for _ in 0..12 {
        state.on_block(1024 * 1024, &mut monitor);
    }
    assert_eq!(state.downloaded, 12 * 1024 * 1024);
    assert_eq!(state.buffer_size, 1024 * 1024);
}

#[test]
fn join_finishes_after_all_successes() {
    let mut j = ChunkJoin::new(3);
    assert_eq!(j.on_outcome(Ok(())), JoinStep::Wait);
    assert_eq!(j.on_outcome(Ok(())), JoinStep::Wait);
    assert_eq!(j.on_outcome(Ok(())), JoinStep::Finished(Ok(())));
    assert_eq!(j.remaining, 0);
}

#[test]
fn join_stops_at_first_failure() {
    let mut j = ChunkJoin::new(4);
    assert_eq!(j.on_outcome(Ok(())), JoinStep::Wait);
    assert_eq!(
        j.on_outcome(Err(TransferError::RangeNotHonored(200))),
        JoinStep::Finished(Err(TransferError::RangeNotHonored(200)))
    );
    assert_eq!(j.remaining, 2);
}

#[test]
fn try_plan_refuses_more_chunks_than_bytes() {
    assert_eq!(try_plan_chunks(3, 4), None);
    assert_eq!(try_plan_chunks(0, 1), None);
    assert_eq!(try_plan_chunks(10, 0), None);
    assert_eq!(try_plan_chunks(10, 3), Some(plan_chunks(10, 3)));
}

#[test]
fn buffer_growth_is_capped_at_ceiling() {
    let fast = Throughput {
        bytes: 100 * 1024 * 1024,
        nanos: 1_000_000_000,
    };
    assert_eq!(adapt_buffer_size(3 * 1024 * 1024, &fast), 4 * 1024 * 1024);
    assert_eq!(adapt_buffer_size(6 * 1024 * 1024, &fast), 6 * 1024 * 1024);
}

#[test]
fn buffer_shrink_stops_at_floor() {
    let slow = Throughput {
        bytes: 1024 * 1024,
        nanos: 1_000_000_000,
    };
    assert_eq!(adapt_buffer_size(96 * 1024, &slow), 64 * 1024);
    assert_eq!(adapt_buffer_size(32 * 1024, &slow), 32 * 1024);
}
