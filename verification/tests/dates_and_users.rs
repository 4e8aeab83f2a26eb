use icost_bill_convert::arguments::User;
use icost_bill_convert::arguments::parse_user;
use icost_bill_convert::ConvertError;

#[test]
fn zhifubao_date_normalizes() {
    assert_eq!(
        icost_bill_convert::zhifubao::format_date("2023-06-01 12:30:05"),
        Some("2023年06月01日 12:30:05".to_string())
    );
    // short components are zero-padded so the text sorts in time order
    assert_eq!(
        icost_bill_convert::zhifubao::format_date("2023-6-1 9:5:3"),
        Some("2023年06月01日 09:05:03".to_string())
    );
}

#[test]
fn zhifubao_date_rejects_malformed() {
    assert_eq!(icost_bill_convert::zhifubao::format_date("2023-06-01"), None);
    assert_eq!(icost_bill_convert::zhifubao::format_date("2023/06/01 12:30:05"), None);
    assert_eq!(icost_bill_convert::zhifubao::format_date("2023-06-01 12:30"), None);
    assert_eq!(icost_bill_convert::zhifubao::format_date(""), None);
    assert_eq!(icost_bill_convert::zhifubao::format_date("23-06-01 12:30:05"), None);
}

#[test]
fn weixin_date_normalizes_with_zero_seconds() {
    assert_eq!(
        icost_bill_convert::weixin::format_date("2023/6/1 12:30"),
        Some("2023年06月01日 12:30:00".to_string())
    );
    assert_eq!(
        icost_bill_convert::weixin::format_date("2023/12/31 23:59"),
        Some("2023年12月31日 23:59:00".to_string())
    );
}

#[test]
fn weixin_date_rejects_malformed() {
    assert_eq!(icost_bill_convert::weixin::format_date("2023-06-01 12:30"), None);
    assert_eq!(icost_bill_convert::weixin::format_date("2023/6/1 12:30:05"), None);
    assert_eq!(icost_bill_convert::weixin::format_date("yesterday"), None);
}

#[test]
fn user_selector_parses() {
    assert!(matches!(parse_user("yang"), Ok(User::Yang)));
    assert!(matches!(parse_user("han"), Ok(User::Han)));
}

#[test]
fn user_selector_rejects_unknown() {
    assert!(matches!(parse_user("bob"), Err(ConvertError::Config(_))));
    assert!(matches!(parse_user(""), Err(ConvertError::Config(_))));
    assert!(matches!(parse_user("Yang"), Err(ConvertError::Config(_))));
}
