use directory_indexer::indexing::monitor::{FileChangeEvent, FileMonitor};
use std::time::Duration;

fn s(p: &str) -> String {
    p.to_string()
}

#[test]
fn test_file_monitor_creation() {
    let directories = vec![s("/test/dir1"), s("/test/dir2")];
    let interval = Duration::from_secs(5);
    let monitor = FileMonitor::new(directories.clone(), interval);
    assert_eq!(monitor.watched_directories(), &directories);
    assert_eq!(monitor.check_interval(), interval);
}

#[test]
fn test_file_monitor_add_directory() {
    let mut monitor = FileMonitor::new(vec![s("/test/dir1")], Duration::from_secs(1));
    let new_dir = s("/test/dir2");
    monitor.add_directory(new_dir.clone());
    assert_eq!(monitor.watched_directories().len(), 2);
    assert!(monitor.watched_directories().contains(&new_dir));
}

#[test]
fn test_file_monitor_add_duplicate_directory() {
    let dir = s("/test/dir");
    let mut monitor = FileMonitor::new(vec![dir.clone()], Duration::from_secs(1));
    monitor.add_directory(dir.clone());
    assert_eq!(monitor.watched_directories().len(), 1);
    assert_eq!(monitor.watched_directories()[0], dir);
}

#[test]
fn test_file_monitor_remove_directory() {
    let dir1 = s("/test/dir1");
    let dir2 = s("/test/dir2");
    let mut monitor = FileMonitor::new(vec![dir1.clone(), dir2.clone()], Duration::from_secs(1));
    monitor.remove_directory(&dir1);
    assert_eq!(monitor.watched_directories().len(), 1);
    assert!(!monitor.watched_directories().contains(&dir1));
    assert!(monitor.watched_directories().contains(&dir2));
}

#[test]
fn test_file_monitor_remove_nonexistent_directory() {
    let dir1 = s("/test/dir1");
    let mut monitor = FileMonitor::new(vec![dir1.clone()], Duration::from_secs(1));
    monitor.remove_directory("/test/nonexistent");
    assert_eq!(monitor.watched_directories().len(), 1);
    assert!(monitor.watched_directories().contains(&dir1));
}

#[test]
fn test_file_change_event_created() {
    let path = s("/test/file.txt");
    let event = FileChangeEvent::Created(path.clone());
    assert_eq!(event.path(), &path);
    assert_eq!(event.event_type(), "created");
}

#[test]
fn test_file_change_event_modified() {
    let path = s("/test/file.txt");
    let event = FileChangeEvent::Modified(path.clone());
    assert_eq!(event.path(), &path);
    assert_eq!(event.event_type(), "modified");
}

#[test]
fn test_file_change_event_deleted() {
    let path = s("/test/file.txt");
    let event = FileChangeEvent::Deleted(path.clone());
    assert_eq!(event.path(), &path);
    assert_eq!(event.event_type(), "deleted");
}

#[test]
fn test_file_change_event_clone() {
    let event = FileChangeEvent::Created(s("/test/file.txt"));
    let cloned = event.clone();
    assert_eq!(event.path(), cloned.path());
    assert_eq!(event.event_type(), cloned.event_type());
}

#[test]
fn test_file_change_event_debug() {
    let event = FileChangeEvent::Modified(s("/test/file.txt"));
    let debug_output = format!("{event:?}");
    assert!(debug_output.contains("Modified"));
    assert!(debug_output.contains("file.txt"));
}

#[test]
fn test_empty_monitor() {
    let monitor = FileMonitor::new(vec![], Duration::from_millis(100));
    assert!(monitor.watched_directories().is_empty());
    assert_eq!(monitor.check_interval(), Duration::from_millis(100));
}

#[test]
fn test_monitor_configuration_variations() {
    for interval in [Duration::from_millis(100), Duration::from_secs(1), Duration::from_secs(60)] {
        let monitor = FileMonitor::new(vec![], interval);
        assert_eq!(monitor.check_interval(), interval);
    }
}

#[test]
fn test_path_operations() {
    let mut monitor = FileMonitor::new(vec![], Duration::from_secs(1));
    let paths = vec![s("/home/user/documents"), s("/var/log"), s("/tmp/test")];
    for path in &paths {
        monitor.add_directory(path.clone());
    }
    assert_eq!(monitor.watched_directories().len(), 3);
    monitor.remove_directory(&paths[1]);
    assert_eq!(monitor.watched_directories().len(), 2);
    assert!(!monitor.watched_directories().contains(&paths[1]));
    assert!(monitor.watched_directories().contains(&paths[0]));
    assert!(monitor.watched_directories().contains(&paths[2]));
}

#[test]
fn test_file_change_event_pattern_matching() {
    let path = s("/test/file.txt");
    let events = vec![
        FileChangeEvent::Created(path.clone()),
        FileChangeEvent::Modified(path.clone()),
        FileChangeEvent::Deleted(path.clone()),
    ];
    for event in events {
        match &event {
            FileChangeEvent::Created(p) => {
                assert_eq!(p, &path);
                assert_eq!(event.event_type(), "created");
            }
            FileChangeEvent::Modified(p) => {
                assert_eq!(p, &path);
                assert_eq!(event.event_type(), "modified");
            }
            FileChangeEvent::Deleted(p) => {
                assert_eq!(p, &path);
                assert_eq!(event.event_type(), "deleted");
            }
        }
    }
}

#[test]
fn test_monitor_with_relative_paths() {
    let relative_paths = vec![s("./documents"), s("../parent"), s("subdir/nested")];
    let monitor = FileMonitor::new(relative_paths.clone(), Duration::from_secs(1));
    assert_eq!(monitor.watched_directories(), &relative_paths);
}

#[test]
fn test_monitor_with_unicode_paths() {
    let unicode_paths = vec![s("/test/файл.txt"), s("/test/文件.txt"), s("/test/🦀.rs")];
    let monitor = FileMonitor::new(unicode_paths.clone(), Duration::from_secs(1));
    assert_eq!(monitor.watched_directories(), &unicode_paths);
}

#[test]
fn add_then_remove_leaves_the_others() {
    let mut monitor = FileMonitor::new(vec![s("/a"), s("/b")], Duration::from_secs(1));
    monitor.add_directory(s("/c"));
    monitor.add_directory(s("/a"));
    assert_eq!(monitor.watched_directories(), &vec![s("/a"), s("/b"), s("/c")]);
    monitor.remove_directory("/b");
    assert_eq!(monitor.watched_directories(), &vec![s("/a"), s("/c")]);
}

#[test]
fn removing_undoes_adding() {
    let before = vec![s("/a"), s("/b")];
    let mut monitor = FileMonitor::new(before.clone(), Duration::from_secs(1));
    monitor.add_directory(s("/c"));
    monitor.remove_directory("/c");
    assert_eq!(monitor.watched_directories(), &before);
}
