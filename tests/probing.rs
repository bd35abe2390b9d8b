use download_engine::probe::{DownloadTarget, ProbeStep, Prober, ResponseMeta};

fn meta(status: u16, url: &str) -> ResponseMeta {
    ResponseMeta {
        status,
        final_url: url.to_string(),
        content_disposition: None,
        accept_ranges: None,
        content_length: None,
        content_range: None,
    }
}

#[test]
fn head_with_length_and_ranges() {
    let mut m = meta(200, "https://example.com/pe/image.iso");
    m.content_length = Some("1048576".to_string());
    m.accept_ranges = Some("bytes".to_string());
    let p = Prober::new();
    assert_eq!(
        p.on_head(Some(&m)),
        ProbeStep::Done(DownloadTarget {
            url: "https://example.com/pe/image.iso".to_string(),
            filename: "image.iso".to_string(),
            total_length: 1048576,
            supports_range: true,
        })
    );
}

#[test]
fn failed_head_falls_back_to_ranged_get() {
    let mut p = Prober::new();
    assert_eq!(p.on_head(None), ProbeStep::SendRangedGet);
    assert_eq!(p.on_head(Some(&meta(405, "https://h/a.bin"))), ProbeStep::SendRangedGet);
    let mut m = meta(206, "https://h/a.bin");
    m.content_range = Some("bytes 0-0/500000".to_string());
    m.content_length = Some("1".to_string());
    assert_eq!(
        p.on_ranged_get(Some(&m)),
        ProbeStep::Done(DownloadTarget {
            url: "https://h/a.bin".to_string(),
            filename: "a.bin".to_string(),
            total_length: 500000,
            supports_range: true,
        })
    );
}

#[test]
fn ranged_get_answered_in_full() {
    let mut p = Prober::new();
    let mut m = meta(200, "https://h/b.bin");
    m.content_length = Some("777".to_string());
    m.content_disposition = Some("attachment; filename=\"named.bin\"".to_string());
    assert_eq!(
        p.on_ranged_get(Some(&m)),
        ProbeStep::Done(DownloadTarget {
            url: "https://h/b.bin".to_string(),
            filename: "named.bin".to_string(),
            total_length: 777,
            supports_range: false,
        })
    );
}

#[test]
fn head_without_headers() {
    let p = Prober::new();
    let mut m = meta(200, "https://h/");
    m.content_length = Some("abc".to_string());
    m.accept_ranges = Some("none".to_string());
    assert_eq!(
        p.on_head(Some(&m)),
        ProbeStep::Done(DownloadTarget {
            url: "https://h/".to_string(),
            filename: "download".to_string(),
            total_length: 0,
            supports_range: false,
        })
    );
}

#[test]
fn probe_gives_up_after_three_retries() {
    let mut p = Prober::new();
    assert_eq!(p.on_ranged_get(None), ProbeStep::Wait(2));
    assert_eq!(p.on_ranged_get(None), ProbeStep::Wait(4));
    assert_eq!(p.on_ranged_get(None), ProbeStep::Wait(8));
    assert_eq!(p.on_ranged_get(None), ProbeStep::Fail);
}
