use std::path::PathBuf;

use vstd::prelude::*;

verus! {

/// An error of the platform layer; carried through unread.
#[verifier::external_type_specification]
#[verifier::external_body]
pub struct ExAnyhowError(anyhow::Error);

/// What a download reports as it goes.
pub enum DownloadEvent {
    Started,
    Progress { written: u64, total: Option<u64> },
    Finished { path: PathBuf, asked: bool },
    Failed,
    DialogFailed,
}

/// Where a download goes, from the save dialog's answer.
pub enum SavePath {
    /// The user picked this path.
    Chosen(PathBuf),
    /// The user dismissed the dialog.
    Cancelled,
    /// The dialog could not be shown, with the platform's reason when it gave one.
    Unavailable(Option<String>),
}

/// `anyhow::Error`'s `Display` (through `to_string`): the error's message. Nothing about the
/// text is claimed here.
#[verifier::external_body]
fn error_text(error: &anyhow::Error) -> (r: String) {
    error.to_string()
}

/// Reads the save dialog's answer: a chosen path, a dismissal (no failure), a dialog that
/// could not run (with its reason), or a dialog dropped without answering (no reason). The
/// reason is the error's `Display` text; what that text holds is not stated, as the error is a
/// value of `anyhow` that Verus does not see into.
pub fn classify_save_path<E>(result: Result<Result<Option<PathBuf>, anyhow::Error>, E>) -> (r:
    SavePath)
    ensures
        match result {
            Ok(Ok(Some(p))) => r == SavePath::Chosen(p),
            Ok(Ok(None)) => r is Cancelled,
            Ok(Err(_)) => r matches SavePath::Unavailable(Some(_)),
            Err(_) => r matches SavePath::Unavailable(None),
        },
{
    match result {
        Ok(Ok(Some(path))) => SavePath::Chosen(path),
        Ok(Ok(None)) => SavePath::Cancelled,
        Ok(Err(error)) => SavePath::Unavailable(Some(error_text(&error))),
        Err(_) => SavePath::Unavailable(None),
    }
}

/// What a download does once the save dialog answered.
pub enum DownloadStep {
    /// The user dismissed the dialog: nothing happens.
    Skip,
    /// The dialog could not run and there is no downloads folder: the download fails.
    DialogFailed,
    /// Download into the chosen path (`asked`: the user picked it).
    Download { path: PathBuf, asked: bool },
    /// The dialog could not run (`reason` is logged): download into a fresh file of the
    /// downloads folder, without having asked.
    IntoDownloads { folder: PathBuf, reason: String },
}

/// The reason logged when the save dialog could not run: the platform's, else a fixed text.
pub open spec fn unavailable_text(reason: Option<String>) -> Seq<char> {
    match reason {
        Some(t) => t@,
        None => "the save dialog is unavailable"@,
    }
}

/// The reason logged when the save dialog could not run (see `unavailable_text`).
pub fn unavailable_reason(reason: Option<String>) -> (r: String)
    ensures
        r@ == unavailable_text(reason),
{
    match reason {
        Some(t) => t,
        None => crate::text::owned("the save dialog is unavailable"),
    }
}

/// Decides the download from the save dialog's answer and the downloads folder (when the
/// platform has one).
pub fn download_step(save: SavePath, downloads: Option<PathBuf>) -> (r: DownloadStep)
    ensures
        match save {
            SavePath::Chosen(p) => r == (DownloadStep::Download { path: p, asked: true }),
            SavePath::Cancelled => r is Skip,
            SavePath::Unavailable(reason) => match downloads {
                None => r is DialogFailed,
                Some(d) => (r matches DownloadStep::IntoDownloads { folder, reason: t } && folder == d
                    && t@ == unavailable_text(reason)),
            },
        },
{
    match save {
        SavePath::Chosen(path) => DownloadStep::Download { path, asked: true },
        SavePath::Cancelled => DownloadStep::Skip,
        SavePath::Unavailable(reason) => match downloads {
            None => DownloadStep::DialogFailed,
            Some(folder) => DownloadStep::IntoDownloads { folder, reason: unavailable_reason(reason) },
        },
    }
}

/// What a finished download reports: where it went when it succeeded, else a failure.
pub fn download_outcome(ok: bool, path: PathBuf, asked: bool) -> (r: DownloadEvent)
    ensures
        ok ==> r == (DownloadEvent::Finished { path, asked }),
        !ok ==> r is Failed,
{
    if ok {
        DownloadEvent::Finished { path, asked }
    } else {
        DownloadEvent::Failed
    }
}

/// Whether the local MCP server runs, and where.
#[derive(Debug, Clone, PartialEq, Eq, Default)]
pub struct McpServerStatus {
    pub running: bool,
    pub port: Option<u16>,
    pub read_only: bool,
    pub url: Option<String>,
}

/// A notification for the desktop's notification center.
pub struct DesktopNotification {
    pub title: String,
    pub body: String,
    pub channel_id: Option<String>,
    pub clan_id: Option<String>,
    pub link: Option<String>,
    /// Local path to a downloaded sender-avatar image, attached as the icon.
    pub icon_path: Option<String>,
}

} // verus!
