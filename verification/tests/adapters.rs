use icost_bill_convert::arguments::User;

// A provider-A export: a banner line, a preamble line, the true header, then
// the data rows; encoded in the provider's legacy double-byte encoding.
fn zhifubao_bytes(rows: &[&str]) -> Vec<u8> {
    let mut text = String::new();
    text.push_str("支付宝交易记录明细查询\n");
    text.push_str("起始日期:[2023-06-01]\n");
    text.push_str(
        "交易时间,交易分类,交易对方,对方账号,商品说明,收/支,金额,收/付款方式,交易状态,交易订单号,商家订单号,备注\n",
    );
    for row in rows {
        text.push_str(row);
        text.push('\n');
    }
    encoding_rs::GBK.encode(&text).0.into_owned()
}

// A provider-B export: a banner line, the true header, then the data rows,
// in UTF-8.
fn weixin_bytes(rows: &[&str]) -> Vec<u8> {
    let mut text = String::new();
    text.push_str("微信支付账单明细\n");
    text.push_str("导出时间:[2023-06-30]\n");
    text.push_str("交易时间,交易类型,交易对方,商品,收/支,金额(元),支付方式,当前状态\n");
    for row in rows {
        text.push_str(row);
        text.push('\n');
    }
    text.into_bytes()
}

#[test]
fn zhifubao_ordinary_expense_row() {
    let bytes = zhifubao_bytes(&[
        "2023-06-01 12:30:05,餐饮,饿了么,,午饭外卖,支出,25.00,招商银行储蓄卡,交易成功,1,2,好吃",
    ]);
    let (records, notes) = icost_bill_convert::zhifubao::read_input_file(&bytes, &User::Yang);
    assert_eq!(notes.len(), 0);
    assert_eq!(records.len(), 1);
    let r = &records[0];
    assert_eq!(r.date, "2023年06月01日 12:30:05");
    assert_eq!(r.kind, "支出");
    assert_eq!(r.amount_cents, 2500);
    assert_eq!(r.category1, "餐饮");
    assert_eq!(r.category2, "外卖");
    assert_eq!(r.account1, "招商银行储蓄卡");
    assert_eq!(r.account2, "");
    assert_eq!(r.remark, "午饭外卖: 好吃");
    assert_eq!(r.currency, "CNY");
    assert_eq!(r.tag, "");
    assert_eq!(r.source, "支付宝");
}

#[test]
fn zhifubao_closed_row_is_dropped_with_note() {
    let bytes = zhifubao_bytes(&[
        "2023-06-01 12:30:05,餐饮,饿了么,,午饭,支出,25.00,招商银行储蓄卡,交易关闭,1,2,",
    ]);
    let (records, notes) = icost_bill_convert::zhifubao::read_input_file(&bytes, &User::Yang);
    assert_eq!(records.len(), 0);
    assert_eq!(notes.len(), 1);
    assert_eq!(notes[0], "2023-06-01 12:30:05 支付宝: 跳过已关闭交易");
}

#[test]
fn zhifubao_refund_status_overrides_declared_type() {
    let bytes = zhifubao_bytes(&[
        "2023-06-02 08:00:00,餐饮,饿了么,,退单,支出,25.00,招商银行储蓄卡,退款成功,1,2,",
    ]);
    let (records, notes) = icost_bill_convert::zhifubao::read_input_file(&bytes, &User::Yang);
    assert_eq!(notes.len(), 0);
    assert_eq!(records.len(), 1);
    assert_eq!(records[0].kind, "退款");
}

#[test]
fn zhifubao_repayment_becomes_transfer_needing_target() {
    let bytes = zhifubao_bytes(&[
        "2023-06-03 09:00:00,还款,招商银行信用卡,,信用卡还款,支出,500.00,支付宝零钱,还款成功,1,2,",
    ]);
    let (records, notes) = icost_bill_convert::zhifubao::read_input_file(&bytes, &User::Yang);
    assert_eq!(records.len(), 1);
    assert_eq!(records[0].kind, "转账");
    assert_eq!(records[0].account1, "支付宝零钱-杨");
    assert_eq!(records[0].account2, "未知");
    assert_eq!(notes.len(), 1);
    assert_eq!(notes[0], "2023-06-03 09:00:00 支付宝: 需要手动添加还款目标卡");
}

#[test]
fn zhifubao_not_counted_rows_drop_and_carve() {
    let bytes = zhifubao_bytes(&[
        // yield payout carves back into income
        "2023-06-04 06:00:00,理财,网商银行,,余额宝-收益发放,不计收支,0.35,余额宝,交易成功,1,2,",
        // automatic sweep carves back into a transfer
        "2023-06-04 07:00:00,理财,网商银行,,余额宝-自动转入,不计收支,100.00,账户余额,交易成功,1,2,",
        // family-card payment is out of scope
        "2023-06-04 08:00:00,餐饮,饿了么,,午饭,不计收支,25.00,亲情卡,交易成功,1,2,",
        // any other “not counted” row is out of scope
        "2023-06-04 09:00:00,其他,某商户,,小票,不计收支,1.00,招商银行储蓄卡,交易成功,1,2,",
    ]);
    let (records, notes) = icost_bill_convert::zhifubao::read_input_file(&bytes, &User::Yang);
    assert_eq!(records.len(), 2);
    assert_eq!(records[0].kind, "收入");
    assert_eq!(records[0].account1, "余额宝-杨");
    assert_eq!(records[1].kind, "转账");
    assert_eq!(records[1].account1, "支付宝零钱-杨");
    assert_eq!(records[1].account2, "余额宝-杨");
    assert_eq!(records[1].category1, "");
    assert_eq!(records[1].category2, "");
    assert_eq!(notes.len(), 2);
    assert_eq!(notes[0], "2023-06-04 08:00:00 支付宝: 跳过亲情卡交易");
    assert_eq!(notes[1], "2023-06-04 09:00:00 支付宝: 跳过其他不计收支交易");
}

#[test]
fn zhifubao_zero_amount_and_bad_amount_rows() {
    let bytes = zhifubao_bytes(&[
        "2023-06-05 10:00:00,餐饮,饿了么,,午饭,支出,0.00,招商银行储蓄卡,交易成功,1,2,",
        "2023-06-05 11:00:00,餐饮,饿了么,,午饭,支出,abc,招商银行储蓄卡,交易成功,1,2,",
    ]);
    let (records, notes) = icost_bill_convert::zhifubao::read_input_file(&bytes, &User::Yang);
    assert_eq!(records.len(), 0);
    assert_eq!(notes.len(), 2);
    assert_eq!(notes[0], "2023-06-05 10:00:00 支付宝: 跳过金额为0的交易");
    assert_eq!(notes[1], "2023-06-05 11:00:00 支付宝: 不支持的金额输入格式");
}

#[test]
fn zhifubao_compound_account_takes_first() {
    let bytes = zhifubao_bytes(&[
        "2023-06-06 10:00:00,餐饮,饿了么,,午饭,支出,25.00,红包&招商银行储蓄卡,交易成功,1,2,",
    ]);
    let (records, _) = icost_bill_convert::zhifubao::read_input_file(&bytes, &User::Yang);
    assert_eq!(records.len(), 1);
    assert_eq!(records[0].account1, "红包");
}

#[test]
fn zhifubao_without_header_marker_yields_nothing() {
    let text = "支付宝交易记录明细查询\n没有表头的行,1,2\n又一行,3,4\n";
    let bytes = encoding_rs::GBK.encode(text).0.into_owned();
    let (records, notes) = icost_bill_convert::zhifubao::read_input_file(&bytes, &User::Yang);
    assert_eq!(records.len(), 0);
    assert_eq!(notes.len(), 0);
}

#[test]
fn zhifubao_short_row_reads_missing_columns_as_empty() {
    // a row narrower than the header: the optional remark column is absent
    let bytes = zhifubao_bytes(&[
        "2023-06-07 10:00:00,餐饮,饿了么,,午饭,支出,25.00,招商银行储蓄卡,交易成功",
    ]);
    let (records, notes) = icost_bill_convert::zhifubao::read_input_file(&bytes, &User::Yang);
    assert_eq!(notes.len(), 0);
    assert_eq!(records.len(), 1);
    assert_eq!(records[0].remark, "午饭: ");
}

#[test]
fn zhifubao_preamble_with_commas_is_discarded() {
    let text = "支付宝账单,导出,版本2
说明,这些行,不是表头
交易时间,交易分类,交易对方,对方账号,商品说明,收/支,金额,收/付款方式,交易状态,订单号,商家订单号,备注
2023-06-08 10:00:00,餐饮,饿了么,,午饭,支出,25.00,招商银行储蓄卡,交易成功,1,2,好
";
    let bytes = encoding_rs::GBK.encode(text).0.into_owned();
    let (records, notes) = icost_bill_convert::zhifubao::read_input_file(&bytes, &User::Yang);
    assert_eq!(notes.len(), 0);
    assert_eq!(records.len(), 1);
    assert_eq!(records[0].amount_cents, 2500);
}

#[test]
fn zhifubao_bad_date_row_is_dropped_with_note() {
    let bytes = zhifubao_bytes(&[
        "昨天中午,餐饮,饿了么,,午饭,支出,25.00,招商银行储蓄卡,交易成功,1,2,",
    ]);
    let (records, notes) = icost_bill_convert::zhifubao::read_input_file(&bytes, &User::Yang);
    assert_eq!(records.len(), 0);
    assert_eq!(notes.len(), 1);
    assert_eq!(notes[0], "昨天中午 支付宝: 日期时间格式不正确");
}

#[test]
fn weixin_ordinary_expense_row() {
    let bytes = weixin_bytes(&[
        "2023/6/1 12:30,商户消费,某奶茶店,奶茶,支出,¥15.00,零钱,支付成功",
    ]);
    let (records, notes) = icost_bill_convert::weixin::read_input_file(&bytes, &User::Yang);
    assert_eq!(notes.len(), 0);
    assert_eq!(records.len(), 1);
    let r = &records[0];
    assert_eq!(r.date, "2023年06月01日 12:30:00");
    assert_eq!(r.kind, "支出");
    assert_eq!(r.amount_cents, 1500);
    assert_eq!(r.account1, "零钱-杨");
    assert_eq!(r.account2, "");
    assert_eq!(r.remark, "奶茶: 某奶茶店");
    assert_eq!(r.currency, "CNY");
    assert_eq!(r.source, "微信");
}

#[test]
fn weixin_sweep_into_yield_account_becomes_transfer() {
    let bytes = weixin_bytes(&[
        "2023/6/2 09:00,转入零钱通-来自零钱,零钱通,/,/,¥200.00,零钱,支付成功",
    ]);
    let (records, notes) = icost_bill_convert::weixin::read_input_file(&bytes, &User::Yang);
    assert_eq!(notes.len(), 0);
    assert_eq!(records.len(), 1);
    let r = &records[0];
    assert_eq!(r.kind, "转账");
    assert_eq!(r.account1, "零钱-杨");
    assert_eq!(r.account2, "微信零钱通-杨");
    assert_eq!(r.category1, "");
    assert_eq!(r.category2, "");
    assert_eq!(r.remark, "转入零钱通-来自零钱: 零钱通");
}

#[test]
fn weixin_wallet_deposit_becomes_income() {
    let bytes = weixin_bytes(&[
        "2023/6/3 10:00,微信红包,朋友,红包,收入,¥66.00,/,已存入零钱",
    ]);
    let (records, _) = icost_bill_convert::weixin::read_input_file(&bytes, &User::Han);
    assert_eq!(records.len(), 1);
    assert_eq!(records[0].kind, "收入");
    assert_eq!(records[0].account1, "零钱-韩");
}

#[test]
fn weixin_fully_refunded_row_is_dropped_with_note() {
    let bytes = weixin_bytes(&[
        "2023/6/4 11:00,商户消费,某商店,东西,支出,¥30.00,零钱,已全额退款",
    ]);
    let (records, notes) = icost_bill_convert::weixin::read_input_file(&bytes, &User::Yang);
    assert_eq!(records.len(), 0);
    assert_eq!(notes.len(), 1);
    assert_eq!(notes[0], "2023/6/4 11:00 微信: 跳过全额退款交易");
}

#[test]
fn weixin_currency_empty_without_glyph() {
    let bytes = weixin_bytes(&[
        "2023/6/5 12:00,商户消费,某商店,东西,支出,30.00,零钱,支付成功",
    ]);
    let (records, _) = icost_bill_convert::weixin::read_input_file(&bytes, &User::Yang);
    assert_eq!(records.len(), 1);
    assert_eq!(records[0].currency, "");
    assert_eq!(records[0].amount_cents, 3000);
}
