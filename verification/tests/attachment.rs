use philo_tui::api::types::TuiRecoveryAttachment;
use philo_tui::app::attachment::{human_bytes, Attachments, PendingAttachment};

fn clipboard_image(bytes: usize) -> PendingAttachment {
    PendingAttachment::Image {
        media_type: "image/png".to_owned(),
        bytes: vec![0; bytes],
        origin: "clipboard image".to_owned(),
    }
}

#[test]
fn labels_name_paths_and_describe_decoded_images() {
    let mut attachments = Attachments::default();
    attachments.push(PendingAttachment::Path("shots/a.png".to_owned()));
    attachments.push(clipboard_image(2048));
    assert_eq!(
        attachments.labels(),
        [
            "shots/a.png".to_owned(),
            "clipboard image (image/png, 2.0 KB)".to_owned(),
        ]
    );
    assert_eq!(
        attachments.summary(),
        Some("shots/a.png  ·  clipboard image (image/png, 2.0 KB)".to_owned())
    );
}

#[test]
fn taking_the_queue_empties_it() {
    let mut attachments = Attachments::default();
    attachments.push(clipboard_image(4));
    assert_eq!(attachments.len(), 1);
    assert_eq!(attachments.take().len(), 1);
    assert!(attachments.is_empty());
    assert_eq!(attachments.summary(), None);
}

#[test]
fn byte_counts_scale_by_unit() {
    assert_eq!(human_bytes(512), "512 B");
    assert_eq!(human_bytes(1536), "1.5 KB");
    assert_eq!(human_bytes(3 * 1024 * 1024), "3.0 MB");
}

/// The scaled counts agree with floating-point formatting, ties included.
#[test]
fn byte_counts_match_float_formatting() {
    for len in [0usize, 1, 1023, 1024, 1075, 1126, 1127, 10_189, 123_456, 1_048_575] {
        let expected = if len < 1024 {
            format!("{len} B")
        } else {
            format!("{:.1} KB", len as f64 / 1024.0)
        };
        assert_eq!(human_bytes(len), expected);
    }
    for len in [1_048_576usize, 1_100_000, 5_505_024, 99_999_999, usize::MAX] {
        assert_eq!(human_bytes(len), format!("{:.1} MB", len as f64 / (1024.0 * 1024.0)));
    }
}

#[test]
fn recovery_keeps_an_attachment() {
    let kept = clipboard_image(3).into_recovery();
    assert_eq!(
        kept,
        TuiRecoveryAttachment::Image {
            media_type: "image/png".to_owned(),
            bytes: vec![0; 3],
            origin: "clipboard image".to_owned(),
        }
    );
    assert_eq!(PendingAttachment::from_recovery(kept), clipboard_image(3));
}
