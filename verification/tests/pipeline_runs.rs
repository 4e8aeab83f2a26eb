use icost_bill_convert::arguments::User;
use icost_bill_convert::pipeline::convert;

fn zhifubao_bytes(rows: &[String]) -> Vec<u8> {
    let mut text = String::new();
    text.push_str("支付宝交易记录明细查询\n");
    text.push_str(
        "交易时间,交易分类,交易对方,对方账号,商品说明,收/支,金额,收/付款方式,交易状态,交易订单号,商家订单号,备注\n",
    );
    for row in rows {
        text.push_str(row);
        text.push('\n');
    }
    encoding_rs::GBK.encode(&text).0.into_owned()
}

fn weixin_bytes(rows: &[String]) -> Vec<u8> {
    let mut text = String::new();
    text.push_str("微信支付账单明细\n");
    text.push_str("交易时间,交易类型,交易对方,商品,收/支,金额(元),支付方式,当前状态\n");
    for row in rows {
        text.push_str(row);
        text.push('\n');
    }
    text.into_bytes()
}

fn sample_inputs() -> (Vec<u8>, Vec<u8>) {
    let mut zfb_rows = Vec::new();
    for day in 1..=10 {
        zfb_rows.push(format!(
            "2023-06-{:02} 12:00:00,餐饮,饿了么,,午饭,支出,{}.00,招商银行储蓄卡,交易成功,1,2,好吃",
            day, day
        ));
    }
    let mut wx_rows = Vec::new();
    for day in 1..=15 {
        wx_rows.push(format!(
            "2023/6/{} 18:30,商户消费,某商店,晚饭,支出,¥{}.50,零钱,支付成功",
            day, day
        ));
    }
    (zhifubao_bytes(&zfb_rows), weixin_bytes(&wx_rows))
}

#[test]
fn merged_run_yields_all_rows_sorted_descending() {
    let (zfb, wx) = sample_inputs();
    let outcome = convert(Some(&zfb), Some(&wx), &User::Yang);
    assert_eq!(outcome.records.len(), 25);
    assert_eq!(outcome.notes.len(), 0);
    assert_eq!(outcome.warnings.len(), 0);
    assert!(outcome.text.is_some());
    for w in outcome.records.windows(2) {
        assert!(w[0].date >= w[1].date);
    }
    // the newest row of either provider comes first
    assert_eq!(outcome.records[0].date, "2023年06月15日 18:30:00");
    assert_eq!(outcome.records[24].date, "2023年06月01日 12:00:00");
}

#[test]
fn run_twice_on_identical_inputs_gives_identical_text() {
    let (zfb, wx) = sample_inputs();
    let first = convert(Some(&zfb), Some(&wx), &User::Yang);
    let second = convert(Some(&zfb), Some(&wx), &User::Yang);
    assert_eq!(first.text.unwrap(), second.text.unwrap());
}

#[test]
fn output_text_reads_back_as_the_records() {
    let (zfb, wx) = sample_inputs();
    let outcome = convert(Some(&zfb), Some(&wx), &User::Yang);
    let text = outcome.text.unwrap();
    let back = icost_bill_convert::output::read_output(&text).unwrap();
    assert_eq!(back, outcome.records);
}

#[test]
fn single_provider_runs() {
    let (zfb, wx) = sample_inputs();
    let only_zfb = convert(Some(&zfb), None, &User::Yang);
    assert_eq!(only_zfb.records.len(), 10);
    let only_wx = convert(None, Some(&wx), &User::Yang);
    assert_eq!(only_wx.records.len(), 15);
    let neither = convert(None, None, &User::Yang);
    assert_eq!(neither.records.len(), 0);
}

#[test]
fn repayment_transfer_passes_validation_with_unresolved_target() {
    // the repayment carve-out fills the target with the unresolved marker,
    // so validation passes and the summary flags it for manual completion
    let rows = vec![
        "2023-06-03 09:00:00,还款,招商银行信用卡,,信用卡还款,支出,500.00,支付宝零钱,还款成功,1,2,"
            .to_string(),
    ];
    let bytes = zhifubao_bytes(&rows);
    let outcome = convert(Some(&bytes), None, &User::Yang);
    assert_eq!(outcome.warnings.len(), 0);
    assert!(outcome.text.is_some());
    let summary = icost_bill_convert::pipeline::summarize(&outcome.records);
    assert_eq!(summary.transfer_count, 1);
    assert_eq!(summary.flagged.len(), 1);
    assert!(summary.flagged[0].contains("转账记录缺少目标账户"));
}
