use raft_log::config::Config;

#[test]
fn test_explicit_config_embeds_wal_config() {
    let config = Config {
        wal: chunked_wal::Config {
            dir: "raft-log-dir".to_string(),
            read_buffer_size: Some(13),
            chunk_max_records: Some(17),
            chunk_max_size: Some(19),
            truncate_incomplete_record: None,
            flush_batch_wait: None,
            flush_batch_max_items: None,
            flush_queue_max_bytes: None,
        },
        log_cache_max_items: Some(7),
        log_cache_capacity: Some(11),
    };

    assert_eq!("raft-log-dir", config.wal.dir);
    assert_eq!(Some(13), config.wal.read_buffer_size);
    assert_eq!(Some(17), config.wal.chunk_max_records);
    assert_eq!(Some(19), config.wal.chunk_max_size);
    assert_eq!(None, config.wal.truncate_incomplete_record);
    assert_eq!(None, config.wal.flush_batch_wait);
    assert_eq!(None, config.wal.flush_batch_max_items);
    assert_eq!(7, config.log_cache_max_items());
    assert_eq!(11, config.log_cache_capacity());
}

#[test]
fn test_config_defaults() {
    let config = Config::new("some-dir");
    assert_eq!("some-dir", config.wal.dir);
    assert_eq!(100_000, config.log_cache_max_items());
    assert_eq!(1024 * 1024 * 1024, config.log_cache_capacity());

    let config = Config::default();
    assert_eq!(None, config.log_cache_max_items);
    assert_eq!(100_000, config.log_cache_max_items());
}
