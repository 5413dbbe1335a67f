//! What can go wrong, and how it is told.
use vstd::prelude::*;
use vstd::string::*;

verus! {

#[derive(Clone, Debug)]
pub enum ItzonError {
    /// A channel name of the live service that cannot be one.
    InvalidChannelName,
    /// A chat channel that cannot be one.
    InvalidChannel,
    /// The channel of this name is private.
    PrivateChannel(String),
    /// The channel of this name is not live.
    OfflineChannel(String),
    /// No media edge was named for the channel of this name.
    MissingEdge(String),
    InvalidEdge,
    EdgeNotHttps,
    EdgeWithoutHost,
    UntrustedEdge,
    InvalidChatUrl,
    ChatUrlNotTls,
    ChatUrlWithoutHost,
    UntrustedChatHost,
    InvalidChatUrlScheme,
    InvalidChatScheme,
    /// A text that is no URL, with the reason.
    Url(String),
    /// The session of the account is not the one that the connection was made for.
    SessionChanged,
    /// The site answered the session check with this status.
    SessionRejected(String),
    NoUserAccount,
    SessionUnavailable,
    /// The site could not be asked about the session.
    SessionCheckFailed,
    InvalidSessionResponse,
    /// The site could not be asked for the channels that are followed.
    FollowsFailed,
    FollowsRejected,
    InvalidFollows,
    OAuthFollowsFailed,
    OAuthFollowsRejected,
    InvalidOAuthFollows,
    StateMismatch,
    /// The authorization ended with this error.
    AuthorizationFailed(String),
    NoCode,
    /// The token endpoint answered with this status and detail.
    TokenRejected(String, String),
    IncompleteToken,
    /// A token could not be kept safe, for the reason.
    TokenNotKept(String),
    InvalidTokenResponse,
    InvalidOAuthUsername,
    NotConfigured,
    SignInIncomplete,
}

impl ItzonError {
    /// What is told of the error.
    pub open spec fn text(self) -> Seq<char> {
        match self {
            ItzonError::InvalidChannelName => "invalid itzon channel name"@,
            ItzonError::InvalidChannel => "invalid itzon channel"@,
            ItzonError::PrivateChannel(name) => "itzon channel '"@ + name@ + "' is private"@,
            ItzonError::OfflineChannel(name) => "itzon channel '"@ + name@ + "' is offline"@,
            ItzonError::MissingEdge(name) => "itzon did not return an HLS edge for '"@ + name@
                + "'"@,
            ItzonError::InvalidEdge => "itzon returned an invalid HLS edge"@,
            ItzonError::EdgeNotHttps => "itzon HLS edge must use HTTPS"@,
            ItzonError::EdgeWithoutHost => "itzon HLS edge has no host"@,
            ItzonError::UntrustedEdge => "itzon returned an untrusted HLS edge"@,
            ItzonError::InvalidChatUrl => "invalid itzon chat URL"@,
            ItzonError::ChatUrlNotTls => "itzon chat URL must use TLS"@,
            ItzonError::ChatUrlWithoutHost => "itzon chat URL has no host"@,
            ItzonError::UntrustedChatHost => "untrusted itzon chat host"@,
            ItzonError::InvalidChatUrlScheme => "invalid itzon chat URL scheme"@,
            ItzonError::InvalidChatScheme => "invalid itzon chat scheme"@,
            ItzonError::Url(reason) => reason@,
            ItzonError::SessionChanged => "itzon account session changed"@,
            ItzonError::SessionRejected(status) => "itzon session returned HTTP "@ + status@,
            ItzonError::NoUserAccount => "itzon did not confirm a user account"@,
            ItzonError::SessionUnavailable => "itzon session unavailable"@,
            ItzonError::SessionCheckFailed => "itzon session check failed"@,
            ItzonError::InvalidSessionResponse => "invalid itzon session response"@,
            ItzonError::FollowsFailed => "itzon follows request failed"@,
            ItzonError::FollowsRejected => "itzon follows returned an error"@,
            ItzonError::InvalidFollows => "invalid itzon follows response"@,
            ItzonError::OAuthFollowsFailed => "request itzon follows with OAuth"@,
            ItzonError::OAuthFollowsRejected => "itzon OAuth follows response"@,
            ItzonError::InvalidOAuthFollows => "decode itzon OAuth follows"@,
            ItzonError::StateMismatch => "itzon authorization state mismatch"@,
            ItzonError::AuthorizationFailed(error) => "itzon authorization was not completed: "@
                + error@,
            ItzonError::NoCode => "itzon authorization returned no code"@,
            ItzonError::TokenRejected(status, detail) => "itzon OAuth error (HTTP "@ + status@
                + "): "@ + detail@,
            ItzonError::IncompleteToken => "itzon returned an incomplete OAuth token"@,
            ItzonError::TokenNotKept(reason) => reason@,
            ItzonError::InvalidTokenResponse => "invalid itzon OAuth token response"@,
            ItzonError::InvalidOAuthUsername => "itzon returned an invalid OAuth username"@,
            ItzonError::NotConfigured =>
            "itzon OAuth registration is pending; ITZON_OAUTH_CLIENT_ID is not configured"@,
            ItzonError::SignInIncomplete => "itzon sign-in wasn't completed"@,
        }
    }

    pub fn message(&self) -> (r: String)
        ensures
            r@ == self.text(),
    {
        match self {
            ItzonError::InvalidChannelName => "invalid itzon channel name".to_string(),
            ItzonError::InvalidChannel => "invalid itzon channel".to_string(),
            ItzonError::PrivateChannel(name) => {
                let mut out = "itzon channel '".to_string();
                out.append(name.as_str());
                out.append("' is private");
                out
            },
            ItzonError::OfflineChannel(name) => {
                let mut out = "itzon channel '".to_string();
                out.append(name.as_str());
                out.append("' is offline");
                out
            },
            ItzonError::MissingEdge(name) => {
                let mut out = "itzon did not return an HLS edge for '".to_string();
                out.append(name.as_str());
                out.append("'");
                out
            },
            ItzonError::InvalidEdge => "itzon returned an invalid HLS edge".to_string(),
            ItzonError::EdgeNotHttps => "itzon HLS edge must use HTTPS".to_string(),
            ItzonError::EdgeWithoutHost => "itzon HLS edge has no host".to_string(),
            ItzonError::UntrustedEdge => "itzon returned an untrusted HLS edge".to_string(),
            ItzonError::InvalidChatUrl => "invalid itzon chat URL".to_string(),
            ItzonError::ChatUrlNotTls => "itzon chat URL must use TLS".to_string(),
            ItzonError::ChatUrlWithoutHost => "itzon chat URL has no host".to_string(),
            ItzonError::UntrustedChatHost => "untrusted itzon chat host".to_string(),
            ItzonError::InvalidChatUrlScheme => "invalid itzon chat URL scheme".to_string(),
            ItzonError::InvalidChatScheme => "invalid itzon chat scheme".to_string(),
            ItzonError::Url(reason) => reason.clone(),
            ItzonError::SessionChanged => "itzon account session changed".to_string(),
            ItzonError::SessionRejected(status) => {
                let mut out = "itzon session returned HTTP ".to_string();
                out.append(status.as_str());
                out
            },
            ItzonError::NoUserAccount => "itzon did not confirm a user account".to_string(),
            ItzonError::SessionUnavailable => "itzon session unavailable".to_string(),
            ItzonError::SessionCheckFailed => "itzon session check failed".to_string(),
            ItzonError::InvalidSessionResponse => "invalid itzon session response".to_string(),
            ItzonError::FollowsFailed => "itzon follows request failed".to_string(),
            ItzonError::FollowsRejected => "itzon follows returned an error".to_string(),
            ItzonError::InvalidFollows => "invalid itzon follows response".to_string(),
            ItzonError::OAuthFollowsFailed => "request itzon follows with OAuth".to_string(),
            ItzonError::OAuthFollowsRejected => "itzon OAuth follows response".to_string(),
            ItzonError::InvalidOAuthFollows => "decode itzon OAuth follows".to_string(),
            ItzonError::StateMismatch => "itzon authorization state mismatch".to_string(),
            ItzonError::AuthorizationFailed(error) => {
                let mut out = "itzon authorization was not completed: ".to_string();
                out.append(error.as_str());
                out
            },
            ItzonError::NoCode => "itzon authorization returned no code".to_string(),
            ItzonError::TokenRejected(status, detail) => {
                let mut out = "itzon OAuth error (HTTP ".to_string();
                out.append(status.as_str());
                out.append("): ");
                out.append(detail.as_str());
                out
            },
            ItzonError::IncompleteToken => "itzon returned an incomplete OAuth token".to_string(),
            ItzonError::TokenNotKept(reason) => reason.clone(),
            ItzonError::InvalidTokenResponse => "invalid itzon OAuth token response".to_string(),
            ItzonError::InvalidOAuthUsername =>
            "itzon returned an invalid OAuth username".to_string(),
            ItzonError::NotConfigured =>
            "itzon OAuth registration is pending; ITZON_OAUTH_CLIENT_ID is not configured".to_string(),
            ItzonError::SignInIncomplete => "itzon sign-in wasn't completed".to_string(),
        }
    }
}

} // verus!
