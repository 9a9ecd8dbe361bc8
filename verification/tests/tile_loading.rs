use harbor::map_tiles::TileKey;
use harbor::tile_queue::{TileLoadQueue, MAX_CONCURRENT_TILE_DOWNLOADS, MAX_CONCURRENT_TILE_SCENE_LOADS};

fn key(x: i32, y: i32) -> TileKey {
    TileKey { zoom_level: 14, x, y }
}

#[test]
fn wanted_tiles_flow_from_download_to_scene() {
    let mut queue = TileLoadQueue::new();
    let a = key(1, 1);
    let b = key(1, 2);

    let unloaded = queue.update_desired(vec![a, b]);
    assert!(unloaded.is_empty());

    assert!(queue.can_start_download());
    assert_eq!(queue.pop_download_candidate(), Some(a));
    queue.download_found_in_cache(a);
    assert_eq!(queue.pop_download_candidate(), Some(b));
    queue.download_started(b);
    assert_eq!(queue.pop_download_candidate(), None);
    queue.finish_download(b, true);

    assert_eq!(queue.next_scene_load(), Some(a));
    queue.record_scene_root(a, 100);
    assert_eq!(queue.next_scene_load(), Some(b));
    queue.record_scene_root(b, 200);
    assert_eq!(queue.next_scene_load(), None);

    assert!(!queue.scene_ready(a));
    assert!(!queue.scene_ready(b));

    let unloaded = queue.update_desired(vec![b]);
    assert_eq!(unloaded, vec![(a, 100)]);

    let unloaded = queue.update_desired(vec![]);
    assert_eq!(unloaded, vec![(b, 200)]);
}

#[test]
fn tiles_no_longer_wanted_are_dropped_from_the_download_line() {
    let mut queue = TileLoadQueue::new();
    let a = key(0, 0);
    let b = key(0, 1);
    queue.update_desired(vec![a, b]);
    queue.update_desired(vec![b]);
    assert_eq!(queue.pop_download_candidate(), Some(b));
    assert_eq!(queue.pop_download_candidate(), None);
    // `a` went back to unrequested, so wanting it again queues it again.
    queue.update_desired(vec![a, b]);
    assert_eq!(queue.pop_download_candidate(), Some(a));
}

#[test]
fn failed_downloads_are_not_retried() {
    let mut queue = TileLoadQueue::new();
    let a = key(3, 3);
    queue.update_desired(vec![a]);
    assert_eq!(queue.pop_download_candidate(), Some(a));
    queue.download_started(a);
    queue.finish_download(a, false);
    queue.update_desired(vec![a]);
    assert_eq!(queue.pop_download_candidate(), None);
    assert_eq!(queue.next_scene_load(), None);
}

#[test]
fn scene_loads_are_limited() {
    let mut queue = TileLoadQueue::new();
    let keys: Vec<TileKey> = (0..6).map(|i| key(i, 0)).collect();
    queue.update_desired(keys.clone());
    for k in &keys {
        assert_eq!(queue.pop_download_candidate(), Some(*k));
        queue.download_found_in_cache(*k);
    }
    let mut started = 0;
    while let Some(k) = queue.next_scene_load() {
        queue.record_scene_root(k, started as u64);
        started += 1;
    }
    assert_eq!(started, MAX_CONCURRENT_TILE_SCENE_LOADS);
    assert!(!queue.scene_ready(keys[0]));
    assert_eq!(queue.next_scene_load(), Some(keys[4]));
}

#[test]
fn downloads_are_limited() {
    let mut queue = TileLoadQueue::new();
    let keys: Vec<TileKey> = (0..20).map(|i| key(i, 9)).collect();
    queue.update_desired(keys);
    let mut started = 0;
    while queue.can_start_download() {
        match queue.pop_download_candidate() {
            Some(k) => {
                queue.download_started(k);
                started += 1;
            }
            None => break,
        }
    }
    assert_eq!(started, MAX_CONCURRENT_TILE_DOWNLOADS);
}

#[test]
fn a_scene_finishing_after_its_tile_left_is_despawned() {
    let mut queue = TileLoadQueue::new();
    let a = key(7, 7);
    queue.update_desired(vec![a]);
    assert_eq!(queue.pop_download_candidate(), Some(a));
    queue.download_found_in_cache(a);
    assert_eq!(queue.next_scene_load(), Some(a));
    queue.record_scene_root(a, 9);
    // While the scene loads the tile stops being wanted: its root is dropped at once.
    assert_eq!(queue.update_desired(vec![]), vec![(a, 9)]);
    // Wanted again, the cached tile goes straight to the ready line.
    queue.update_desired(vec![a]);
    assert_eq!(queue.pop_download_candidate(), None);
    assert_eq!(queue.next_scene_load(), Some(a));
    queue.record_scene_root(a, 10);
    queue.update_desired(vec![]);
    assert!(queue.scene_ready(a));
}
