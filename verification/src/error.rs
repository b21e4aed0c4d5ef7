use crate::json::{extract_json_message, json_message};
use crate::text::{decimal, from_chars, push_decimal, push_str, to_chars};
use vstd::prelude::*;

verus! {

/// What went wrong in a call of the remote service, as it is told to the
/// outline.
#[derive(Debug, PartialEq)]
pub enum ErrorInfo {
    Api { status: u16, body: String },
    Network(String),
    Write(String),
}

/// An error as it is shown: a title, what happened, and what to do about it.
#[derive(Debug, PartialEq)]
pub struct ErrorPopup {
    pub title: String,
    pub message: String,
    pub hint: String,
}

/// What an [`ErrorPopup`] is, as a mathematical value.
pub struct PopupView {
    pub title: Seq<char>,
    pub message: Seq<char>,
    pub hint: Seq<char>,
}

impl View for ErrorPopup {
    type V = PopupView;

    open spec fn view(&self) -> PopupView {
        PopupView { title: self.title@, message: self.message@, hint: self.hint@ }
    }
}

impl Clone for ErrorInfo {
    fn clone(&self) -> (r: Self)
        ensures
            r == *self,
    {
        match self {
            ErrorInfo::Api { status, body } => ErrorInfo::Api { status: *status, body: body.clone() },
            ErrorInfo::Network(m) => ErrorInfo::Network(m.clone()),
            ErrorInfo::Write(m) => ErrorInfo::Write(m.clone()),
        }
    }
}

impl Clone for ErrorPopup {
    fn clone(&self) -> (r: Self)
        ensures
            r@ == self@,
    {
        ErrorPopup {
            title: self.title.clone(),
            message: self.message.clone(),
            hint: self.hint.clone(),
        }
    }
}

/// `s` cut to `max` characters, with three dots after it where it was
/// longer.
pub open spec fn truncated(s: Seq<char>, max: nat) -> Seq<char> {
    if s.len() <= max {
        s
    } else {
        s.take(max as int) + "..."@
    }
}

/// `s` cut to `max` characters, with three dots after it where it was
/// longer.
pub fn truncate(s: &str, max: usize) -> (r: String)
    ensures
        r@ == truncated(s@, max as nat),
{
    let chars = to_chars(s);
    if chars.len() <= max {
        s.to_owned()
    } else {
        let mut r = from_chars(&chars, 0, max);
        push_str(&mut r, "...");
        assert(chars@.subrange(0, max as int) =~= s@.take(max as int));
        r
    }
}

/// What is shown for an answer of the remote service with the status
/// `status` and the body `body`.
pub open spec fn api_popup(status: u16, body: Seq<char>) -> PopupView {
    if status == 429 {
        PopupView {
            title: "Rate Limited"@,
            message: match json_message(body) {
                Some(m) => m,
                None => "Too many requests"@,
            },
            hint: "Wait a moment and try again"@,
        }
    } else if status == 401 {
        PopupView {
            title: "Unauthorized"@,
            message: "Invalid API token"@,
            hint: "Check your config.toml"@,
        }
    } else if status == 403 {
        PopupView {
            title: "Forbidden"@,
            message: "Access denied to this graph"@,
            hint: "Check graph permissions"@,
        }
    } else if status == 500 {
        PopupView {
            title: "Server Error"@,
            message: "Roam servers returned an error"@,
            hint: "Try again later"@,
        }
    } else {
        PopupView {
            title: "API Error ("@ + decimal(status as nat) + ")"@,
            message: match json_message(body) {
                Some(m) => m,
                None => truncated(body, 200),
            },
            hint: "Try again later"@,
        }
    }
}

/// What is shown for the error `info`.
pub open spec fn popup_for(info: ErrorInfo) -> PopupView {
    match info {
        ErrorInfo::Api { status, body } => api_popup(status, body@),
        ErrorInfo::Network(msg) => PopupView {
            title: "Network Error"@,
            message: truncated(msg@, 80),
            hint: "Check your internet connection"@,
        },
        ErrorInfo::Write(msg) => PopupView {
            title: "Write Failed"@,
            message: truncated(msg@, 80),
            hint: "Your changes may not have been saved"@,
        },
    }
}

impl ErrorPopup {
    /// What is shown for the error `info`.
    pub fn from_error_info(info: &ErrorInfo) -> (popup: Self)
        ensures
            popup@ == popup_for(*info),
    {
        match info {
            ErrorInfo::Api { status, body } => Self::from_api(*status, body.as_str()),
            ErrorInfo::Network(msg) => ErrorPopup {
                title: "Network Error".to_owned(),
                message: truncate(msg.as_str(), 80),
                hint: "Check your internet connection".to_owned(),
            },
            ErrorInfo::Write(msg) => ErrorPopup {
                title: "Write Failed".to_owned(),
                message: truncate(msg.as_str(), 80),
                hint: "Your changes may not have been saved".to_owned(),
            },
        }
    }

    /// What is shown for an answer of the remote service with the status
    /// `status` and the body `body`.
    pub fn from_api(status: u16, body: &str) -> (popup: Self)
        ensures
            popup@ == api_popup(status, body@),
    {
        let extracted_message = extract_json_message(body);
        if status == 429 {
            ErrorPopup {
                title: "Rate Limited".to_owned(),
                message: match extracted_message {
                    Some(m) => m,
                    None => "Too many requests".to_owned(),
                },
                hint: "Wait a moment and try again".to_owned(),
            }
        } else if status == 401 {
            ErrorPopup {
                title: "Unauthorized".to_owned(),
                message: "Invalid API token".to_owned(),
                hint: "Check your config.toml".to_owned(),
            }
        } else if status == 403 {
            ErrorPopup {
                title: "Forbidden".to_owned(),
                message: "Access denied to this graph".to_owned(),
                hint: "Check graph permissions".to_owned(),
            }
        } else if status == 500 {
            ErrorPopup {
                title: "Server Error".to_owned(),
                message: "Roam servers returned an error".to_owned(),
                hint: "Try again later".to_owned(),
            }
        } else {
            let mut title = "API Error (".to_owned();
            push_decimal(&mut title, status as u64);
            push_str(&mut title, ")");
            ErrorPopup {
                title,
                message: match extracted_message {
                    Some(m) => m,
                    None => truncate(body, 200),
                },
                hint: "Try again later".to_owned(),
            }
        }
    }
}

} // verus!
