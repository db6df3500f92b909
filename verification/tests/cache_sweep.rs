use backend::cache::{get_cache_paths, plan_sweep, CacheEntry};

fn entry(modified: u128, size: u64) -> CacheEntry {
    CacheEntry { modified, size }
}

#[test]
fn file_names_are_the_digest_of_the_url() {
    let names = get_cache_paths("abc");
    assert_eq!(names.data, "ba7816bf8f01cfea414140de5dae2223b00361a396177a9cb410ff61f20015ad.data");
    assert_eq!(names.meta, "ba7816bf8f01cfea414140de5dae2223b00361a396177a9cb410ff61f20015ad.meta");
    let empty = get_cache_paths("");
    assert_eq!(empty.data, "e3b0c44298fc1c149afbf4c8996fb92427ae41e4649b934ca495991b7852b855.data");
    let other = get_cache_paths("https://example.org/a.png");
    assert_eq!(other.data.len(), 64 + 5);
    assert_ne!(other.data, names.data);
    assert!(other.data.chars().take(64).all(|c| c.is_ascii_digit() || ('a'..='f').contains(&c)));
}

#[test]
fn a_cache_within_its_limit_is_left_alone() {
    let entries = vec![entry(3, 40), entry(1, 30), entry(2, 30)];
    let sweep = plan_sweep(&entries, 100, 50);
    assert!(sweep.evict.is_empty());
    assert_eq!(sweep.freed, 0);
    assert!(plan_sweep(&Vec::new(), 0, 0).evict.is_empty());
}

#[test]
fn the_longest_unused_entries_go_first() {
    let entries = vec![entry(30, 40), entry(10, 30), entry(20, 30), entry(40, 5)];
    let sweep = plan_sweep(&entries, 100, 80);
    assert_eq!(sweep.evict, vec![1]);
    assert_eq!(sweep.freed, 30);
    let sweep = plan_sweep(&entries, 100, 74);
    assert_eq!(sweep.evict, vec![1, 2]);
    assert_eq!(sweep.freed, 60);
    let sweep = plan_sweep(&entries, 100, 5);
    assert_eq!(sweep.evict, vec![1, 2, 0]);
    assert_eq!(sweep.freed, 100);
    let sweep = plan_sweep(&entries, 100, 4);
    assert_eq!(sweep.evict, vec![1, 2, 0, 3]);
    assert_eq!(sweep.freed, 105);
    let sweep = plan_sweep(&entries, 104, 0);
    assert_eq!(sweep.evict, vec![1, 2, 0, 3]);
}

#[test]
fn entries_of_one_time_go_in_the_order_of_the_list() {
    let entries = vec![entry(5, 10), entry(5, 10), entry(1, 10), entry(5, 10)];
    let sweep = plan_sweep(&entries, 39, 15);
    assert_eq!(sweep.evict, vec![2, 0, 1]);
    assert_eq!(sweep.freed, 30);
}

#[test]
fn sizes_beyond_the_machine_word_add_up() {
    let entries = vec![entry(1, u64::MAX), entry(2, u64::MAX), entry(3, 7)];
    let sweep = plan_sweep(&entries, u64::MAX, u64::MAX);
    assert_eq!(sweep.evict, vec![0, 1]);
    assert_eq!(sweep.freed, 2 * (u64::MAX as u128));
}
