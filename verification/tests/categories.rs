use icost_bill_convert::arguments::User;

#[test]
fn zhifubao_counterparty_rules() {
    let pair = icost_bill_convert::zhifubao::filter_category("饿了么", "午饭", "支出", 3000);
    assert_eq!(pair, ("餐饮".to_string(), "外卖".to_string()));
    let pair = icost_bill_convert::zhifubao::filter_category("Steam", "游戏", "支出", 6800);
    assert_eq!(pair, ("网络".to_string(), "游戏".to_string()));
    let pair = icost_bill_convert::zhifubao::filter_category("无名商户", "东西", "支出", 100);
    assert_eq!(pair, ("未知".to_string(), "".to_string()));
}

#[test]
fn zhifubao_transit_rule_splits_on_amount() {
    let bus = icost_bill_convert::zhifubao::filter_category("北京一卡通", "", "支出", 150);
    assert_eq!(bus, ("交通".to_string(), "公交".to_string()));
    let metro = icost_bill_convert::zhifubao::filter_category("北京一卡通", "", "支出", 400);
    assert_eq!(metro, ("交通".to_string(), "地铁".to_string()));
}

#[test]
fn zhifubao_fund_rule_follows_direction() {
    let gain =
        icost_bill_convert::zhifubao::filter_category("兴全基金管理有限公司", "", "收入", 1000);
    assert_eq!(gain, ("资本".to_string(), "投资收入".to_string()));
    let loss =
        icost_bill_convert::zhifubao::filter_category("兴全基金管理有限公司", "", "支出", 1000);
    assert_eq!(loss, ("资本".to_string(), "投资亏损".to_string()));
}

#[test]
fn zhifubao_remark_rules_override_counterparty() {
    let power = icost_bill_convert::zhifubao::filter_category("饿了么", "家里的电费", "支出", 100);
    assert_eq!(power, ("账单".to_string(), "电费".to_string()));
    // the later remark rule wins when both match
    let train =
        icost_bill_convert::zhifubao::filter_category("饿了么", "电费和火车票", "支出", 100);
    assert_eq!(train, ("交通".to_string(), "火车".to_string()));
}

#[test]
fn zhifubao_transfer_short_circuits_categories() {
    let pair = icost_bill_convert::zhifubao::filter_category("北京一卡通", "电费", "转账", 100);
    assert_eq!(pair, ("".to_string(), "".to_string()));
}

#[test]
fn weixin_counterparty_rules_match_substrings() {
    let pair = icost_bill_convert::weixin::filter_category("北京永辉超市股份公司", "菜", "支出");
    assert_eq!(pair, ("食材".to_string(), "蔬菜".to_string()));
    let pair = icost_bill_convert::weixin::filter_category("某某商户", "东西", "支出");
    assert_eq!(pair, ("未知".to_string(), "".to_string()));
}

#[test]
fn weixin_remark_rule_overrides() {
    let pair = icost_bill_convert::weixin::filter_category("永辉超市", "霸王茶姬奶茶", "支出");
    assert_eq!(pair, ("餐饮".to_string(), "饮料".to_string()));
}

#[test]
fn weixin_transfer_short_circuits_categories() {
    let pair = icost_bill_convert::weixin::filter_category("永辉超市", "霸王茶姬", "转账");
    assert_eq!(pair, ("".to_string(), "".to_string()));
}

#[test]
fn zhifubao_account_canonicalization_and_suffix() {
    assert_eq!(
        icost_bill_convert::zhifubao::append_user_postfix("账户余额", &User::Yang),
        "支付宝零钱-杨"
    );
    assert_eq!(
        icost_bill_convert::zhifubao::append_user_postfix("余额宝", &User::Han),
        "余额宝-韩"
    );
    assert_eq!(
        icost_bill_convert::zhifubao::append_user_postfix("招商银行储蓄卡", &User::Yang),
        "招商银行储蓄卡"
    );
}

#[test]
fn weixin_shared_accounts_get_suffix() {
    assert_eq!(icost_bill_convert::weixin::append_user_postfix("零钱", &User::Yang), "零钱-杨");
    assert_eq!(
        icost_bill_convert::weixin::append_user_postfix("微信零钱通", &User::Han),
        "微信零钱通-韩"
    );
    assert_eq!(
        icost_bill_convert::weixin::append_user_postfix("工商银行", &User::Yang),
        "工商银行"
    );
}
