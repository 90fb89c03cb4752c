use vstd::prelude::*;

verus! {

/// Everything that can go wrong in the library, from loading a template to
/// answering a phone-home report.
#[derive(Debug, Clone, PartialEq, Eq)]
pub enum AppError {
    /// The template file could not be read.
    ExecutableNotFound { path: String },
    /// The template holds no placeholder span.
    KeyPatternNotFound { name: String },
    /// A required setting is absent from the environment.
    MissingEnvVar { name: String },
    /// The settings could not be read.
    Config { message: String },
    /// The value to embed is longer than the placeholder span.
    ValueTooLong { length: usize, capacity: usize },
    /// No session has this id.
    SessionNotFound { id: u32 },
    /// No template has this id.
    ArtifactNotFound { artifact: String },
    /// A correlation key without the `0x` prefix or with a body that is not a
    /// 32-bit hexadecimal number.
    MalformedCorrelationKey,
    /// No session holds a download with this token.
    TokenNotFound { token: u32 },
    /// The session has no live connection to deliver to.
    ChannelUnavailable { session: u32 },
    /// Every connection number has been handed out.
    ChannelsExhausted,
}

/// The HTTP status with which a request that failed this way is answered.
pub open spec fn status_of(e: AppError) -> u16 {
    match e {
        AppError::SessionNotFound { .. } => 400,
        AppError::MalformedCorrelationKey => 400,
        AppError::TokenNotFound { .. } => 401,
        AppError::ArtifactNotFound { .. } => 404,
        AppError::ChannelUnavailable { .. } => 304,
        _ => 500,
    }
}

impl AppError {
    /// The HTTP status for this failure.
    pub fn status_code(&self) -> (r: u16)
        ensures
            r == status_of(*self),
    {
        match self {
            AppError::SessionNotFound { .. } => 400,
            AppError::MalformedCorrelationKey => 400,
            AppError::TokenNotFound { .. } => 401,
            AppError::ArtifactNotFound { .. } => 404,
            AppError::ChannelUnavailable { .. } => 304,
            _ => 500,
        }
    }
}

} // verus!
