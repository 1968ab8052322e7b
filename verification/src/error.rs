//! The errors that commands report.
use vstd::prelude::*;

use crate::text::opt_view;

verus! {

/// What went wrong, for the caller to branch on.
#[derive(Clone, Copy, PartialEq, Eq, Structural, Debug)]
pub enum AppErrorCode {
    IoError,
    PermissionDenied,
    AlreadyExists,
    NotFound,
    Network,
    InvalidInput,
    TaskExecutionFailed,
    DependencyMissing,
    DatabaseError,
}

/// The message of an error that a user interface can translate.
#[derive(Clone, Copy, PartialEq, Eq, Structural, Debug)]
pub enum I18nKey {
    UploadTooLarge,
    UploadQuotaExceeded,
}

/// A translatable message and the values that it speaks of, in the order of their
/// names.
#[derive(Debug)]
pub struct I18nMessage {
    pub key: I18nKey,
    pub params: Vec<(String, String)>,
}

/// An error that a command reports.
#[derive(Debug)]
pub struct AppCommandError {
    pub code: AppErrorCode,
    pub message: String,
    pub detail: Option<String>,
    pub i18n: Option<I18nMessage>,
}

/// The model of an [`AppCommandError`].
#[verifier::ext_equal]
pub struct ErrorView {
    pub code: AppErrorCode,
    pub message: Seq<char>,
    pub detail: Option<Seq<char>>,
    pub i18n: Option<(I18nKey, Seq<(Seq<char>, Seq<char>)>)>,
}

/// The model of a list of named values.
pub open spec fn params_view(params: Seq<(String, String)>) -> Seq<(Seq<char>, Seq<char>)> {
    params.map_values(|p: (String, String)| (p.0@, p.1@))
}

impl View for AppCommandError {
    type V = ErrorView;

    open spec fn view(&self) -> ErrorView {
        ErrorView {
            code: self.code,
            message: self.message@,
            detail: opt_view(self.detail),
            i18n: match self.i18n {
                Some(m) => Some((m.key, params_view(m.params@))),
                None => None,
            },
        }
    }
}

impl ErrorView {
    /// An error with a message and nothing else.
    pub open spec fn plain(code: AppErrorCode, message: Seq<char>) -> ErrorView {
        ErrorView { code, message, detail: None, i18n: None }
    }

    pub open spec fn with_detail(self, detail: Seq<char>) -> ErrorView {
        ErrorView { detail: Some(detail), ..self }
    }

    pub open spec fn with_i18n(
        self,
        key: I18nKey,
        params: Seq<(Seq<char>, Seq<char>)>,
    ) -> ErrorView {
        ErrorView { i18n: Some((key, params)), ..self }
    }
}

impl AppCommandError {
    pub fn new(code: AppErrorCode, message: String) -> (r: AppCommandError)
        ensures
            r@ == ErrorView::plain(code, message@),
    {
        AppCommandError { code, message, detail: None, i18n: None }
    }

    pub fn io_error(message: &str) -> (r: AppCommandError)
        ensures
            r@ == ErrorView::plain(AppErrorCode::IoError, message@),
    {
        AppCommandError::new(AppErrorCode::IoError, message.to_owned())
    }

    pub fn permission_denied(message: String) -> (r: AppCommandError)
        ensures
            r@ == ErrorView::plain(AppErrorCode::PermissionDenied, message@),
    {
        AppCommandError::new(AppErrorCode::PermissionDenied, message)
    }

    pub fn already_exists(message: &str) -> (r: AppCommandError)
        ensures
            r@ == ErrorView::plain(AppErrorCode::AlreadyExists, message@),
    {
        AppCommandError::new(AppErrorCode::AlreadyExists, message.to_owned())
    }

    pub fn not_found(message: String) -> (r: AppCommandError)
        ensures
            r@ == ErrorView::plain(AppErrorCode::NotFound, message@),
    {
        AppCommandError::new(AppErrorCode::NotFound, message)
    }

    pub fn network(message: String) -> (r: AppCommandError)
        ensures
            r@ == ErrorView::plain(AppErrorCode::Network, message@),
    {
        AppCommandError::new(AppErrorCode::Network, message)
    }

    pub fn invalid_input(message: String) -> (r: AppCommandError)
        ensures
            r@ == ErrorView::plain(AppErrorCode::InvalidInput, message@),
    {
        AppCommandError::new(AppErrorCode::InvalidInput, message)
    }

    /// The same error with a detail.
    pub fn with_detail(self, detail: String) -> (r: AppCommandError)
        ensures
            r@ == self@.with_detail(detail@),
    {
        AppCommandError { detail: Some(detail), ..self }
    }

    /// The same error with a translatable message.
    pub fn with_i18n(self, key: I18nKey, params: Vec<(String, String)>) -> (r: AppCommandError)
        ensures
            r@ == self@.with_i18n(key, params_view(params@)),
    {
        AppCommandError { i18n: Some(I18nMessage { key, params }), ..self }
    }
}

/// An error in talking to an agent.
#[derive(Debug)]
pub enum AcpError {
    /// There is no connection with this id.
    ConnectionNotFound(String),
    /// The agent's process is gone.
    ProcessExited,
    /// Something else, as described.
    Protocol(String),
}

/// The model of an [`AcpError`].
pub enum AcpErrorView {
    ConnectionNotFound(Seq<char>),
    ProcessExited,
    Protocol(Seq<char>),
}

impl View for AcpError {
    type V = AcpErrorView;

    open spec fn view(&self) -> AcpErrorView {
        match self {
            AcpError::ConnectionNotFound(id) => AcpErrorView::ConnectionNotFound(id@),
            AcpError::ProcessExited => AcpErrorView::ProcessExited,
            AcpError::Protocol(message) => AcpErrorView::Protocol(message@),
        }
    }
}

impl AcpError {
    pub fn protocol(message: &str) -> (r: AcpError)
        ensures
            r@ == AcpErrorView::Protocol(message@),
    {
        AcpError::Protocol(message.to_owned())
    }

    pub fn connection_not_found(id: &str) -> (r: AcpError)
        ensures
            r@ == AcpErrorView::ConnectionNotFound(id@),
    {
        AcpError::ConnectionNotFound(id.to_owned())
    }
}

} // verus!
