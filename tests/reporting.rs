use download_engine::progress::{
    completion_event, get_update_download_status, percent_tenths, percent_text, progress_event, speed_centi,
    whole_percent, DownloadEvent, DownloadEventType, DownloadInfo, DownloadStatus, ProgressTracker, Sample,
    UpdateStatusStore,
};

#[test]
fn percent_and_speed_formats() {
    assert_eq!(percent_tenths(1, 3), 333);
    assert_eq!(percent_tenths(2, 3), 667);
    assert_eq!(percent_tenths(5, 4), 1000);
    assert_eq!(percent_text(333), "33.3%");
    assert_eq!(percent_text(1000), "100.0%");
    assert_eq!(whole_percent(999, 1000), 99);
    assert_eq!(speed_centi(1048576, 1000), 100);
    assert_eq!(speed_centi(12939428, 1000), 1234);
    assert_eq!(speed_centi(5, 0), 0);
}

#[test]
fn file_progress_event() {
    assert_eq!(
        progress_event(DownloadEventType::FileDownload, 250, 1000, 1234),
        DownloadEvent::Progress(DownloadInfo {
            progress: "25.0%".to_string(),
            speed: "12.34MB/s".to_string(),
            downloading: true
        })
    );
    assert_eq!(
        progress_event(DownloadEventType::PluginDownload, 5, 0, 7),
        DownloadEvent::Progress(DownloadInfo { progress: "--".to_string(), speed: "0.07MB/s".to_string(), downloading: true })
    );
}

#[test]
fn update_progress_event() {
    assert_eq!(
        progress_event(DownloadEventType::UpdateDownload, 999, 1000, 50),
        DownloadEvent::UpdateProgress(DownloadStatus { progress: 99, speed: "0.50".to_string() })
    );
    assert_eq!(
        completion_event(DownloadEventType::UpdateDownload),
        DownloadEvent::UpdateProgress(DownloadStatus { progress: 100, speed: "0.00".to_string() })
    );
}

#[test]
fn start_failure_and_completion_notifications() {
    let s = DownloadInfo::started();
    assert_eq!((s.progress.as_str(), s.speed.as_str(), s.downloading), ("0%", "0.00MB/s", true));
    let f = DownloadInfo::failed();
    assert_eq!((f.progress.as_str(), f.speed.as_str(), f.downloading), ("0%", "0.00MB/s", false));
    assert_eq!(
        completion_event(DownloadEventType::FileDownload),
        DownloadEvent::Progress(DownloadInfo { progress: "100%".to_string(), speed: "0.00MB/s".to_string(), downloading: false })
    );
}

#[test]
fn tracker_samples_emits_and_completes() {
    let mut t = ProgressTracker::new(DownloadEventType::FileDownload, 4194304, 0, 0);
    let r = t.tick(100, &[1048576]);
    assert!(r.progress.is_none());
    assert!(r.completed.is_none());
    assert_eq!(t.downloaded, 1048576);
    let r = t.tick(300, &[1048576, 0]);
    assert_eq!(
        r.progress,
        Some(DownloadEvent::Progress(DownloadInfo {
            progress: "50.0%".to_string(),
            speed: "5.00MB/s".to_string(),
            downloading: true
        }))
    );
    assert!(!r.save_checkpoint);
    let r = t.tick(2200, &[1048576]);
    assert_eq!(t.window, vec![Sample { at_ms: 300, bytes: 2097152 }, Sample { at_ms: 2200, bytes: 3145728 }]);
    assert!(r.progress.is_some());
    let r = t.tick(30000, &[1048576]);
    assert!(r.save_checkpoint);
    assert_eq!(r.completed, Some(completion_event(DownloadEventType::FileDownload)));
    assert!(t.finished);
    let r = t.tick(30100, &[]);
    assert!(r.completed.is_none());
}

#[test]
fn update_store_keeps_latest_update_status() {
    let mut store = UpdateStatusStore::new();
    assert_eq!(get_update_download_status(&store), None);
    store.reset();
    assert_eq!(get_update_download_status(&store), Some(DownloadStatus { progress: 0, speed: "0.00".to_string() }));
    store.notify(&progress_event(DownloadEventType::UpdateDownload, 1, 2, 150));
    assert_eq!(get_update_download_status(&store), Some(DownloadStatus { progress: 50, speed: "1.50".to_string() }));
    store.notify(&DownloadEvent::Progress(DownloadInfo::started()));
    assert_eq!(get_update_download_status(&store), Some(DownloadStatus { progress: 50, speed: "1.50".to_string() }));
}
