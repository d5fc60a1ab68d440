//! The library's error type and the message each error reads as.
use vstd::prelude::*;

use crate::text::{extend_str, string_of};

verus! {

/// What went wrong in a library operation.
#[derive(Debug, Clone)]
pub enum AppError {
    AppDataUnavailable,
    MissingTray,
    MissingIcon,
    StatePoisoned,
    GroupNotFound(String),
    PresetNotFound { group: String, name: String },
    AlreadyExists(String),
    InvalidName(String),
    UnknownMenuItem(String),
    RegistryValueMissing,
    ElevationDeclined,
    Message(String),
    /// A file-system failure, by the text the operating system gave.
    Io(String),
    /// A JSON (de)serialisation failure, by its text.
    Json(String),
    /// An HTTP client failure, by its text.
    Reqwest(String),
    /// A failure of the desktop shell, by its text.
    Tauri(String),
}

/// The text that an error displays.
pub open spec fn error_text(e: AppError) -> Seq<char> {
    match e {
        AppError::AppDataUnavailable => "The per-user configuration directory is unavailable on this system."@,
        AppError::MissingTray => "The tray icon was not initialized."@,
        AppError::MissingIcon => "The bundled application icon is missing."@,
        AppError::StatePoisoned => "A concurrent operation failed because the app state lock was poisoned."@,
        AppError::GroupNotFound(g) => "Group '"@ + g@ + "' was not found."@,
        AppError::PresetNotFound { group, name } => "Preset '"@ + name@ + "' was not found in group '"@
            + group@ + "'."@,
        AppError::AlreadyExists(n) => "'"@ + n@ + "' already exists."@,
        AppError::InvalidName(n) => "'"@ + n@ + "' is not a valid Windows file name."@,
        AppError::UnknownMenuItem(n) => "The tray menu item '"@ + n@ + "' is no longer valid."@,
        AppError::RegistryValueMissing => "The Equalizer APO config path registry entry is missing."@,
        AppError::ElevationDeclined => "Administrator privileges were declined. Please accept the UAC prompt, or run the application as administrator."@,
        AppError::Message(m) => m@,
        AppError::Io(m) => m@,
        AppError::Json(m) => m@,
        AppError::Reqwest(m) => m@,
        AppError::Tauri(m) => m@,
    }
}

impl AppError {
    /// The text this error displays.
    pub fn message(&self) -> (r: String)
        ensures
            r@ == error_text(*self),
    {
        let mut v: Vec<char> = Vec::new();
        match self {
            AppError::AppDataUnavailable => extend_str(
                &mut v,
                "The per-user configuration directory is unavailable on this system.",
            ),
            AppError::MissingTray => extend_str(&mut v, "The tray icon was not initialized."),
            AppError::MissingIcon => extend_str(&mut v, "The bundled application icon is missing."),
            AppError::StatePoisoned => extend_str(
                &mut v,
                "A concurrent operation failed because the app state lock was poisoned.",
            ),
            AppError::GroupNotFound(g) => {
                extend_str(&mut v, "Group '");
                extend_str(&mut v, g.as_str());
                extend_str(&mut v, "' was not found.");
            },
            AppError::PresetNotFound { group, name } => {
                extend_str(&mut v, "Preset '");
                extend_str(&mut v, name.as_str());
                extend_str(&mut v, "' was not found in group '");
                extend_str(&mut v, group.as_str());
                extend_str(&mut v, "'.");
            },
            AppError::AlreadyExists(n) => {
                extend_str(&mut v, "'");
                extend_str(&mut v, n.as_str());
                extend_str(&mut v, "' already exists.");
            },
            AppError::InvalidName(n) => {
                extend_str(&mut v, "'");
                extend_str(&mut v, n.as_str());
                extend_str(&mut v, "' is not a valid Windows file name.");
            },
            AppError::UnknownMenuItem(n) => {
                extend_str(&mut v, "The tray menu item '");
                extend_str(&mut v, n.as_str());
                extend_str(&mut v, "' is no longer valid.");
            },
            AppError::RegistryValueMissing => extend_str(
                &mut v,
                "The Equalizer APO config path registry entry is missing.",
            ),
            AppError::ElevationDeclined => extend_str(
                &mut v,
                "Administrator privileges were declined. Please accept the UAC prompt, or run the application as administrator.",
            ),
            AppError::Message(m) => extend_str(&mut v, m.as_str()),
            AppError::Io(m) => extend_str(&mut v, m.as_str()),
            AppError::Json(m) => extend_str(&mut v, m.as_str()),
            AppError::Reqwest(m) => extend_str(&mut v, m.as_str()),
            AppError::Tauri(m) => extend_str(&mut v, m.as_str()),
        }
        string_of(&v)
    }
}

} // verus!
