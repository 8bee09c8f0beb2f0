use tune::pool::Pool;
use tune::pool::PoolingMode;

#[test]
fn pool_pooling_mode_block() {
    let mut pool = Pool::new(PoolingMode::Block, (0..3).collect());

    assert_eq!(pool.key_pressed("keyA", "locA"), Some((0, None)));
    assert_eq!(pool.key_pressed("keyB", "locB"), Some((1, None)));
    assert_eq!(pool.key_pressed("keyC", "locC"), Some((2, None)));
    assert_eq!(pool.key_pressed("keyD", "locD"), None);

    assert_eq!(pool.channel_for_key(&"keyA"), Some(0));
    assert_eq!(pool.channel_for_key(&"keyB"), Some(1));
    assert_eq!(pool.channel_for_key(&"keyC"), Some(2));
    assert_eq!(pool.channel_for_key(&"keyD"), None);

    assert_eq!(pool.key_released(&"keyB"), Some(1));
    assert_eq!(pool.key_pressed("keyD", "locD"), Some((1, None)));
    assert_eq!(pool.key_pressed("keyE", "locE"), None);

    assert_eq!(pool.channel_for_key(&"keyA"), Some(0));
    assert_eq!(pool.channel_for_key(&"keyB"), None);
    assert_eq!(pool.channel_for_key(&"keyC"), Some(2));
    assert_eq!(pool.channel_for_key(&"keyD"), Some(1));
    assert_eq!(pool.channel_for_key(&"keyE"), None);

    assert_eq!(pool.key_released(&"keyA"), Some(0));
    assert_eq!(pool.key_released(&"keyB"), None);
    assert_eq!(pool.key_released(&"keyC"), Some(2));
    assert_eq!(pool.key_released(&"keyD"), Some(1));
    assert_eq!(pool.key_released(&"keyE"), None);

    assert_eq!(pool.channel_for_key(&"keyA"), None);
    assert_eq!(pool.channel_for_key(&"keyB"), None);
    assert_eq!(pool.channel_for_key(&"keyC"), None);
    assert_eq!(pool.channel_for_key(&"keyD"), None);
    assert_eq!(pool.channel_for_key(&"keyE"), None);
}

#[test]
fn pool_pooling_mode_stop() {
    let mut pool = Pool::new(PoolingMode::Stop, (0..3).collect());

    assert_eq!(pool.key_pressed("keyA", "locA"), Some((0, None)));
    assert_eq!(pool.key_pressed("keyB", "locB"), Some((1, None)));
    assert_eq!(pool.key_pressed("keyC", "locC"), Some((2, None)));
    assert_eq!(pool.key_pressed("keyD", "locD"), Some((0, Some("locA"))));

    assert_eq!(pool.channel_for_key(&"keyA"), None);
    assert_eq!(pool.channel_for_key(&"keyB"), Some(1));
    assert_eq!(pool.channel_for_key(&"keyC"), Some(2));
    assert_eq!(pool.channel_for_key(&"keyD"), Some(0));

    assert_eq!(pool.key_released(&"keyB"), Some(1));
    assert_eq!(pool.key_pressed("keyD", "locD"), Some((1, None)));
    assert_eq!(pool.key_pressed("keyE", "locE"), Some((2, Some("locC"))));

    assert_eq!(pool.channel_for_key(&"keyA"), None);
    assert_eq!(pool.channel_for_key(&"keyB"), None);
    assert_eq!(pool.channel_for_key(&"keyC"), None);
    assert_eq!(pool.channel_for_key(&"keyD"), Some(1));
    assert_eq!(pool.channel_for_key(&"keyE"), Some(2));

    assert_eq!(pool.key_released(&"keyA"), None);
    assert_eq!(pool.key_released(&"keyB"), None);
    assert_eq!(pool.key_released(&"keyC"), None);
    assert_eq!(pool.key_released(&"keyD"), Some(1));
    assert_eq!(pool.key_released(&"keyE"), Some(2));

    assert_eq!(pool.channel_for_key(&"keyA"), None);
    assert_eq!(pool.channel_for_key(&"keyB"), None);
    assert_eq!(pool.channel_for_key(&"keyC"), None);
    assert_eq!(pool.channel_for_key(&"keyD"), None);
    assert_eq!(pool.channel_for_key(&"keyE"), None);
}

#[test]
fn pool_pooling_mode_ignore() {
    let mut pool = Pool::new(PoolingMode::Ignore, (0..3).collect());

    assert_eq!(pool.key_pressed("keyA", "locA"), Some((0, None)));
    assert_eq!(pool.key_pressed("keyB", "locB"), Some((1, None)));
    assert_eq!(pool.key_pressed("keyC", "locC"), Some((2, None)));
    assert_eq!(pool.key_pressed("keyD", "locD"), Some((0, None)));

    assert_eq!(pool.channel_for_key(&"keyA"), Some(0));
    assert_eq!(pool.channel_for_key(&"keyB"), Some(1));
    assert_eq!(pool.channel_for_key(&"keyC"), Some(2));
    assert_eq!(pool.channel_for_key(&"keyD"), Some(0));

    assert_eq!(pool.key_released(&"keyB"), Some(1));
    assert_eq!(pool.key_pressed("keyD", "locD"), Some((1, None)));
    assert_eq!(pool.key_pressed("keyE", "locE"), Some((2, None)));

    assert_eq!(pool.channel_for_key(&"keyA"), Some(0));
    assert_eq!(pool.channel_for_key(&"keyB"), None);
    assert_eq!(pool.channel_for_key(&"keyC"), Some(2));
    assert_eq!(pool.channel_for_key(&"keyD"), Some(1));
    assert_eq!(pool.channel_for_key(&"keyE"), Some(2));

    assert_eq!(pool.key_released(&"keyA"), Some(0));
    assert_eq!(pool.key_released(&"keyB"), None);
    assert_eq!(pool.key_released(&"keyC"), Some(2));
    assert_eq!(pool.key_released(&"keyD"), Some(1));
    assert_eq!(pool.key_released(&"keyE"), Some(2));

    assert_eq!(pool.channel_for_key(&"keyA"), None);
    assert_eq!(pool.channel_for_key(&"keyB"), None);
    assert_eq!(pool.channel_for_key(&"keyC"), None);
    assert_eq!(pool.channel_for_key(&"keyD"), None);
    assert_eq!(pool.channel_for_key(&"keyE"), None);
}
