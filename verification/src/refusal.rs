use vstd::prelude::*;

verus! {

/// A request the service turns down, with the HTTP status and message it answers.
#[derive(Clone, Copy, Debug, PartialEq, Eq, Structural)]
pub enum Refusal {
    InvalidLogin,
    MissingBearerToken,
    InvalidToken,
    MissingUploadKey,
    InvalidUploadKey,
    AdminRequired,
    CredentialsTooShort,
    InvalidRole,
    UsernameTaken,
    CannotRotateOthersKey,
    CannotDeleteSelf,
    CannotDeleteAdmin,
    UserNotFound,
    MissingFile,
    UnsupportedMedia,
    ImageNotFound,
    MediaNotFound,
    ImageOfAnotherUser,
    Mp4NotTransformable,
    UnsupportedOutputFormat,
    DimensionsOutOfRange,
    QualityOutOfRange,
    PlayerOnlyForMp4,
    OriginalMissing,
    TransformFailed,
}

impl Refusal {
    pub open spec fn status_spec(self) -> u16 {
        match self {
            Refusal::InvalidLogin => 401,
            Refusal::MissingBearerToken => 401,
            Refusal::InvalidToken => 401,
            Refusal::MissingUploadKey => 401,
            Refusal::InvalidUploadKey => 401,
            Refusal::AdminRequired => 403,
            Refusal::CredentialsTooShort => 400,
            Refusal::InvalidRole => 400,
            Refusal::UsernameTaken => 400,
            Refusal::CannotRotateOthersKey => 403,
            Refusal::CannotDeleteSelf => 400,
            Refusal::CannotDeleteAdmin => 403,
            Refusal::UserNotFound => 400,
            Refusal::MissingFile => 400,
            Refusal::UnsupportedMedia => 415,
            Refusal::ImageNotFound => 404,
            Refusal::MediaNotFound => 404,
            Refusal::ImageOfAnotherUser => 403,
            Refusal::Mp4NotTransformable => 400,
            Refusal::UnsupportedOutputFormat => 400,
            Refusal::DimensionsOutOfRange => 400,
            Refusal::QualityOutOfRange => 400,
            Refusal::PlayerOnlyForMp4 => 400,
            Refusal::OriginalMissing => 404,
            Refusal::TransformFailed => 400,
        }
    }

    /// The HTTP status code of the answer.
    pub fn status(&self) -> (c: u16)
        ensures
            c == self.status_spec(),
    {
        match self {
            Refusal::InvalidLogin => 401,
            Refusal::MissingBearerToken => 401,
            Refusal::InvalidToken => 401,
            Refusal::MissingUploadKey => 401,
            Refusal::InvalidUploadKey => 401,
            Refusal::AdminRequired => 403,
            Refusal::CredentialsTooShort => 400,
            Refusal::InvalidRole => 400,
            Refusal::UsernameTaken => 400,
            Refusal::CannotRotateOthersKey => 403,
            Refusal::CannotDeleteSelf => 400,
            Refusal::CannotDeleteAdmin => 403,
            Refusal::UserNotFound => 400,
            Refusal::MissingFile => 400,
            Refusal::UnsupportedMedia => 415,
            Refusal::ImageNotFound => 404,
            Refusal::MediaNotFound => 404,
            Refusal::ImageOfAnotherUser => 403,
            Refusal::Mp4NotTransformable => 400,
            Refusal::UnsupportedOutputFormat => 400,
            Refusal::DimensionsOutOfRange => 400,
            Refusal::QualityOutOfRange => 400,
            Refusal::PlayerOnlyForMp4 => 400,
            Refusal::OriginalMissing => 404,
            Refusal::TransformFailed => 400,
        }
    }

    pub open spec fn message_spec(self) -> Seq<char> {
        match self {
            Refusal::InvalidLogin => "invalid username or password"@,
            Refusal::MissingBearerToken => "missing bearer token"@,
            Refusal::InvalidToken => "invalid token"@,
            Refusal::MissingUploadKey => "missing upload api key"@,
            Refusal::InvalidUploadKey => "invalid upload api key"@,
            Refusal::AdminRequired => "admin required"@,
            Refusal::CredentialsTooShort => "username must be 3+ chars and password 8+ chars"@,
            Refusal::InvalidRole => "role must be admin or user"@,
            Refusal::UsernameTaken => "username already exists"@,
            Refusal::CannotRotateOthersKey => "cannot rotate another user's key"@,
            Refusal::CannotDeleteSelf => "cannot delete your own account"@,
            Refusal::CannotDeleteAdmin => "cannot delete another admin account"@,
            Refusal::UserNotFound => "user not found"@,
            Refusal::MissingFile => "missing file field"@,
            Refusal::UnsupportedMedia => "unsupported media format"@,
            Refusal::ImageNotFound => "image not found"@,
            Refusal::MediaNotFound => "media not found"@,
            Refusal::ImageOfAnotherUser => "image belongs to another user"@,
            Refusal::Mp4NotTransformable => "mp4 files are served directly and cannot be image-transformed"@,
            Refusal::UnsupportedOutputFormat => "unsupported output format"@,
            Refusal::DimensionsOutOfRange => "w and h must be between 1 and 8192"@,
            Refusal::QualityOutOfRange => "q must be between 1 and 100"@,
            Refusal::PlayerOnlyForMp4 => "player is only available for mp4"@,
            Refusal::OriginalMissing => "original file missing"@,
            Refusal::TransformFailed => "image transform failed"@,
        }
    }

    /// The message the answer carries.
    pub fn message(&self) -> (m: &'static str)
        ensures
            m@ == self.message_spec(),
    {
        match self {
            Refusal::InvalidLogin => "invalid username or password",
            Refusal::MissingBearerToken => "missing bearer token",
            Refusal::InvalidToken => "invalid token",
            Refusal::MissingUploadKey => "missing upload api key",
            Refusal::InvalidUploadKey => "invalid upload api key",
            Refusal::AdminRequired => "admin required",
            Refusal::CredentialsTooShort => "username must be 3+ chars and password 8+ chars",
            Refusal::InvalidRole => "role must be admin or user",
            Refusal::UsernameTaken => "username already exists",
            Refusal::CannotRotateOthersKey => "cannot rotate another user's key",
            Refusal::CannotDeleteSelf => "cannot delete your own account",
            Refusal::CannotDeleteAdmin => "cannot delete another admin account",
            Refusal::UserNotFound => "user not found",
            Refusal::MissingFile => "missing file field",
            Refusal::UnsupportedMedia => "unsupported media format",
            Refusal::ImageNotFound => "image not found",
            Refusal::MediaNotFound => "media not found",
            Refusal::ImageOfAnotherUser => "image belongs to another user",
            Refusal::Mp4NotTransformable => "mp4 files are served directly and cannot be image-transformed",
            Refusal::UnsupportedOutputFormat => "unsupported output format",
            Refusal::DimensionsOutOfRange => "w and h must be between 1 and 8192",
            Refusal::QualityOutOfRange => "q must be between 1 and 100",
            Refusal::PlayerOnlyForMp4 => "player is only available for mp4",
            Refusal::OriginalMissing => "original file missing",
            Refusal::TransformFailed => "image transform failed",
        }
    }
}

} // verus!
