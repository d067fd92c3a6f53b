use zeo::resource::{
    LeakDetector, MemoryPool, ObjectLimits, ResourceError, ResourceManager, UsageThreshold,
    GCScheduler, MemoryStats,
};

#[test]
fn pool_classes_double_from_base() {
    let pool = MemoryPool::new(1024, 4);
    assert_eq!(pool.find_pool_index(1), 0);
    assert_eq!(pool.find_pool_index(1024), 0);
    assert_eq!(pool.find_pool_index(1025), 1);
    assert_eq!(pool.find_pool_index(128 * 1024), 7);
    assert_eq!(pool.find_pool_index(128 * 1024 + 1), 8);
}

#[test]
fn pool_stats_report_capacity_and_usage() {
    let mut pool = MemoryPool::new(1024, 4);
    let stats = pool.stats();
    assert_eq!(stats.total, 1024 * 255);
    assert_eq!(stats.used, 0);
    let block = pool.allocate(3000).unwrap();
    assert_eq!(block.size, 4096);
    assert_eq!(block.data.len(), 4096);
    assert!(block.data.iter().all(|b| *b == 0));
    let stats = pool.stats();
    assert_eq!(stats.used, 4096);
    assert_eq!(stats.peak, 4096);
}

#[test]
fn pool_refuses_requests_above_largest_class() {
    let mut pool = MemoryPool::new(16, 2);
    assert!(pool.allocate(16 * 128 + 1).is_none());
    assert_eq!(pool.stats().used, 0);
    assert!(pool.allocate(16 * 128).is_some());
}

#[test]
fn pool_reuses_released_blocks() {
    let mut pool = MemoryPool::new(64, 2);
    let a = pool.allocate(100).unwrap();
    assert_eq!(a.size, 128);
    assert_eq!(pool.stats().used, 128);
    pool.deallocate(a);
    assert_eq!(pool.stats().used, 128);
    let b = pool.allocate(65).unwrap();
    assert_eq!(b.size, 128);
    assert_eq!(pool.stats().used, 128);
}

#[test]
fn pool_releases_to_system_when_class_full() {
    let mut pool = MemoryPool::new(64, 1);
    let a = pool.allocate(10).unwrap();
    let b = pool.allocate(10).unwrap();
    assert_eq!(pool.stats().used, 128);
    pool.deallocate(a);
    pool.deallocate(b);
    assert_eq!(pool.stats().used, 64);
}

#[test]
fn pool_keeps_no_blocks_when_capacity_zero() {
    let mut pool = MemoryPool::new(8, 0);
    let a = pool.allocate(8).unwrap();
    assert_eq!(pool.stats().used, 8);
    pool.deallocate(a);
    assert_eq!(pool.stats().used, 0);
}

#[test]
fn object_limits_default() {
    let limits = ObjectLimits::default();
    assert_eq!(limits.max_memory, 16 * 1024 * 1024);
    assert_eq!(limits.max_objects, 10000);
    assert_eq!(limits.max_execution_time, 30_000_000_000);
}

#[test]
fn manager_refuses_above_limit() {
    let mut m = ResourceManager::new();
    let r = m.allocate(16 * 1024 * 1024 + 1);
    assert_eq!(r.err(), Some(ResourceError::MemoryLimitExceeded(16 * 1024 * 1024 + 1)));
}

#[test]
fn manager_out_of_memory_between_largest_class_and_limit() {
    let mut m = ResourceManager::new();
    assert_eq!(m.allocate(128 * 1024 + 1).err(), Some(ResourceError::OutOfMemory));
    assert_eq!(m.allocate(16 * 1024 * 1024).err(), Some(ResourceError::OutOfMemory));
}

#[test]
fn manager_allocate_and_release_round_trip() {
    let mut m = ResourceManager::new();
    let h = m.allocate(2000).ok().unwrap();
    assert_eq!(h.size(), 2048);
    assert_eq!(h.ptr().len(), 2048);
    assert_eq!(m.memory_stats().used, 2048);
    assert_eq!(m.detect_leaks(0).len(), 1);
    m.release(h);
    assert_eq!(m.detect_leaks(0).len(), 0);
    assert_eq!(m.memory_stats().used, 2048);
    let again = m.allocate(1500).ok().unwrap();
    assert_eq!(again.size(), 2048);
    assert_eq!(m.memory_stats().used, 2048);
}

#[test]
fn manager_limits_can_be_replaced() {
    let mut m = ResourceManager::new();
    m.set_limits(ObjectLimits { max_memory: 100, max_objects: 1, max_execution_time: 0 });
    assert_eq!(m.allocate(101).err(), Some(ResourceError::MemoryLimitExceeded(101)));
    assert!(m.allocate(100).is_ok());
}

#[test]
fn manager_stats_total_is_capacity() {
    let m = ResourceManager::new();
    let stats = m.memory_stats();
    assert_eq!(stats.total, 1024 * 255);
    assert_eq!(stats.used, 0);
}

#[test]
fn manager_gc_not_due_at_start() {
    let mut m = ResourceManager::new();
    assert!(!m.should_gc());
    m.trigger_gc();
    assert!(!m.should_gc());
}

#[test]
fn gc_due_only_after_interval_and_above_threshold() {
    let s = GCScheduler::new(1000, UsageThreshold { numerator: 4, denominator: 5 });
    let high = MemoryStats { total: 100, used: 80, peak: 80 };
    let low = MemoryStats { total: 100, used: 79, peak: 79 };
    let empty = MemoryStats { total: 0, used: 0, peak: 0 };
    assert!(!s.should_gc_at(999, &high));
    assert!(s.should_gc_at(1000, &high));
    assert!(!s.should_gc_at(5000, &low));
    assert!(!s.should_gc_at(5000, &empty));
}

#[test]
fn gc_not_due_while_running() {
    let mut s = GCScheduler::new(0, UsageThreshold { numerator: 0, denominator: 1 });
    let stats = MemoryStats { total: 10, used: 10, peak: 10 };
    assert!(s.should_gc_at(0, &stats));
    s.mark_gc_start();
    assert!(!s.should_gc_at(100, &stats));
    assert!(!s.should_gc(&stats));
    s.mark_gc_complete_at(50);
    assert!(s.should_gc_at(100, &stats));
}

#[test]
fn gc_interval_counts_from_last_completion() {
    let mut s = GCScheduler::new(100, UsageThreshold { numerator: 1, denominator: 2 });
    let stats = MemoryStats { total: 10, used: 5, peak: 5 };
    s.mark_gc_start();
    s.mark_gc_complete_at(1000);
    assert!(!s.should_gc_at(1099, &stats));
    assert!(s.should_gc_at(1100, &stats));
    assert!(!s.should_gc_at(10, &stats));
}

#[test]
fn leak_detector_reports_old_allocations() {
    let mut d = LeakDetector::new();
    let a = d.track_allocation_at(10, 100);
    let b = d.track_allocation_at(20, 500);
    assert_eq!(a, 0);
    assert_eq!(b, 1);
    let leaks = d.leaks_at(1000, 600);
    assert_eq!(leaks.len(), 1);
    assert_eq!(leaks[0].id, 0);
    assert_eq!(leaks[0].size, 10);
    assert_eq!(leaks[0].age, 900);
    let mut all: Vec<usize> = d.leaks_at(1000, 0).iter().map(|l| l.id).collect();
    all.sort();
    assert_eq!(all, vec![0, 1]);
    assert_eq!(d.leaks_at(50, 0).len(), 0);
    d.track_deallocation(a);
    assert_eq!(d.leaks_at(1000, 0).len(), 1);
    d.track_deallocation(7);
    assert_eq!(d.leaks_at(1000, 0).len(), 1);
}

#[test]
fn leak_detector_tracks_live_allocations_now() {
    let mut d = LeakDetector::new();
    let id = d.track_allocation(64);
    let leaks = d.detect_leaks(0);
    assert!(leaks.len() <= 1);
    d.track_deallocation(id);
    assert!(d.detect_leaks(0).is_empty());
}

#[test]
fn pooled_blocks_come_back_oldest_first() {
    let mut pool = MemoryPool::new(64, 4);
    let a = pool.allocate(64).unwrap();
    let b = pool.allocate(64).unwrap();
    let c = pool.allocate(64).unwrap();
    let (pa, pb, pc) = (a.data.as_ptr(), b.data.as_ptr(), c.data.as_ptr());
    pool.deallocate(b);
    pool.deallocate(a);
    pool.deallocate(c);
    assert_eq!(pool.stats().used, 192);
    assert_eq!(pool.allocate(1).unwrap().data.as_ptr(), pb);
    assert_eq!(pool.allocate(1).unwrap().data.as_ptr(), pa);
    assert_eq!(pool.allocate(1).unwrap().data.as_ptr(), pc);
    assert_eq!(pool.stats().used, 192);
}

#[test]
fn used_bytes_are_held_plus_pooled() {
    let mut pool = MemoryPool::new(32, 1);
    let a = pool.allocate(32).unwrap();
    let b = pool.allocate(33).unwrap();
    let c = pool.allocate(20).unwrap();
    assert_eq!(pool.stats().used, 32 + 64 + 32);
    pool.deallocate(a);
    assert_eq!(pool.stats().used, 32 + 64 + 32);
    pool.deallocate(c);
    assert_eq!(pool.stats().used, 32 + 64);
    pool.deallocate(b);
    assert_eq!(pool.stats().used, 32 + 64);
}

#[test]
fn tracking_ids_count_up_and_are_not_reused() {
    let mut d = LeakDetector::new();
    assert_eq!(d.track_allocation(10), 0);
    assert_eq!(d.track_allocation(20), 1);
    d.track_deallocation(0);
    d.track_deallocation(1);
    assert_eq!(d.track_allocation(30), 2);
    let leaks = d.detect_leaks(0);
    assert!(leaks.iter().all(|l| l.id == 2 && l.size == 30));
}
