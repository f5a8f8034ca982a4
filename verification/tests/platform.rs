use std::path::PathBuf;

use mezon_store::platform::{
    classify_save_path, download_outcome, download_step, unavailable_reason, DownloadEvent, DownloadStep, SavePath,
};

const PORTAL_MISSING: &str =
    "Couldn't open file picker due to missing xdg-desktop-portal implementation.";

fn dialog_error(message: &str) -> Result<anyhow::Result<Option<PathBuf>>, ()> {
    Ok(Err(anyhow::Error::msg(message.to_string())))
}

#[test]
fn a_chosen_path_is_where_the_download_goes() {
    let chosen = PathBuf::from("/home/u/Downloads/ca.crt");
    match classify_save_path::<()>(Ok(Ok(Some(chosen.clone())))) {
        SavePath::Chosen(path) => assert_eq!(path, chosen),
        _ => panic!("picking a destination must not read as a failure"),
    }
}

#[test]
fn dismissing_the_save_dialog_is_not_a_failure() {
    match classify_save_path::<()>(Ok(Ok(None))) {
        SavePath::Cancelled => {}
        SavePath::Chosen(path) => panic!("a dismissed dialog names no path, got {path:?}"),
        SavePath::Unavailable(reason) => {
            panic!("changing your mind must stay silent, got {reason:?}")
        }
    }
}

#[test]
fn a_save_dialog_that_never_opened_carries_its_reason() {
    match classify_save_path(dialog_error(PORTAL_MISSING)) {
        SavePath::Unavailable(Some(reason)) => assert_eq!(reason, PORTAL_MISSING),
        _ => panic!("a dialog that could not run must reach the user with its reason"),
    }
}

#[test]
fn a_save_dialog_dropped_without_answering_shows_no_invented_reason() {
    match classify_save_path::<()>(Err(())) {
        SavePath::Unavailable(None) => {}
        SavePath::Unavailable(Some(reason)) => {
            panic!("the platform named no cause here, got {reason:?}")
        }
        _ => panic!("losing the dialog channel would otherwise be silent"),
    }
}

#[test]
fn download_step_follows_the_dialog_answer() {
    let chosen = PathBuf::from("/tmp/a.png");
    match download_step(SavePath::Chosen(chosen.clone()), None) {
        DownloadStep::Download { path, asked } => {
            assert_eq!(path, chosen);
            assert!(asked);
        }
        _ => panic!("expected a download"),
    }
    assert!(matches!(download_step(SavePath::Cancelled, Some(PathBuf::from("/d"))), DownloadStep::Skip));
    assert!(matches!(download_step(SavePath::Unavailable(None), None), DownloadStep::DialogFailed));
    match download_step(SavePath::Unavailable(None), Some(PathBuf::from("/d"))) {
        DownloadStep::IntoDownloads { folder, reason } => {
            assert_eq!(folder, PathBuf::from("/d"));
            assert_eq!(reason, "the save dialog is unavailable");
        }
        _ => panic!("expected the downloads folder"),
    }
    match download_step(SavePath::Unavailable(Some("portal missing".to_string())), Some(PathBuf::from("/d"))) {
        DownloadStep::IntoDownloads { reason, .. } => assert_eq!(reason, "portal missing"),
        _ => panic!("expected the downloads folder"),
    }
}

#[test]
fn download_outcome_reports_where_it_went() {
    match download_outcome(true, PathBuf::from("/d/x"), false) {
        DownloadEvent::Finished { path, asked } => {
            assert_eq!(path, PathBuf::from("/d/x"));
            assert!(!asked);
        }
        _ => panic!("expected finished"),
    }
    assert!(matches!(download_outcome(false, PathBuf::from("/d/x"), true), DownloadEvent::Failed));
    assert_eq!(unavailable_reason(None), "the save dialog is unavailable");
    assert_eq!(unavailable_reason(Some("x".to_string())), "x");
}
