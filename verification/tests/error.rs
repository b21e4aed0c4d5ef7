#![allow(unused_imports, dead_code, unused_mut)]
use roam_tui::error::{ErrorInfo, ErrorPopup};

#[test]
fn error_popup_from_429_extracts_message() {
    let info = ErrorInfo::Api {
        status: 429,
        body: r#"{"graph-name":"avelino-graph","message":"You've crossed your quotas of 50 req/min/graph, please try again later."}"#.into(),
    };
    let popup = ErrorPopup::from_error_info(&info);
    assert_eq!(popup.title, "Rate Limited");
    assert!(popup.message.contains("crossed your quotas"));
    assert_eq!(popup.hint, "Wait a moment and try again");
}

#[test]
fn error_popup_from_429_fallback() {
    let info = ErrorInfo::Api {
        status: 429,
        body: "rate limited plain text".into(),
    };
    let popup = ErrorPopup::from_error_info(&info);
    assert_eq!(popup.title, "Rate Limited");
    assert_eq!(popup.message, "Too many requests");
}

#[test]
fn error_popup_from_401() {
    let info = ErrorInfo::Api {
        status: 401,
        body: "".into(),
    };
    let popup = ErrorPopup::from_error_info(&info);
    assert_eq!(popup.title, "Unauthorized");
    assert_eq!(popup.message, "Invalid API token");
    assert_eq!(popup.hint, "Check your config.toml");
}

#[test]
fn error_popup_from_403() {
    let info = ErrorInfo::Api {
        status: 403,
        body: "".into(),
    };
    let popup = ErrorPopup::from_error_info(&info);
    assert_eq!(popup.title, "Forbidden");
}

#[test]
fn error_popup_from_500() {
    let info = ErrorInfo::Api {
        status: 500,
        body: "".into(),
    };
    let popup = ErrorPopup::from_error_info(&info);
    assert_eq!(popup.title, "Server Error");
}

#[test]
fn error_popup_from_unknown_status_with_json() {
    let info = ErrorInfo::Api {
        status: 502,
        body: r#"{"message":"bad gateway"}"#.into(),
    };
    let popup = ErrorPopup::from_error_info(&info);
    assert_eq!(popup.title, "API Error (502)");
    assert_eq!(popup.message, "bad gateway");
}

#[test]
fn error_popup_from_unknown_status_plain_text() {
    let info = ErrorInfo::Api {
        status: 502,
        body: "some plain error".into(),
    };
    let popup = ErrorPopup::from_error_info(&info);
    assert_eq!(popup.title, "API Error (502)");
    assert_eq!(popup.message, "some plain error");
}

#[test]
fn error_popup_from_network() {
    let info = ErrorInfo::Network("connection refused".into());
    let popup = ErrorPopup::from_error_info(&info);
    assert_eq!(popup.title, "Network Error");
    assert_eq!(popup.message, "connection refused");
    assert_eq!(popup.hint, "Check your internet connection");
}

#[test]
fn error_popup_from_write() {
    let info = ErrorInfo::Write("timeout writing block".into());
    let popup = ErrorPopup::from_error_info(&info);
    assert_eq!(popup.title, "Write Failed");
    assert_eq!(popup.message, "timeout writing block");
    assert_eq!(popup.hint, "Your changes may not have been saved");
}

#[test]
fn error_popup_truncates_long_message() {
    let long_msg = "a".repeat(100);
    let info = ErrorInfo::Network(long_msg);
    let popup = ErrorPopup::from_error_info(&info);
    assert!(popup.message.len() <= 83); // 80 + "..."
    assert!(popup.message.ends_with("..."));
}
