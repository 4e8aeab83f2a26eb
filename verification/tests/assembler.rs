use icost_bill_convert::output::OutputRecord;

fn record(date: &str, kind: &str, cents: u64, account1: &str, account2: &str, remark: &str) -> OutputRecord {
    OutputRecord {
        date: date.to_string(),
        kind: kind.to_string(),
        amount_cents: cents,
        category1: "未知".to_string(),
        category2: "".to_string(),
        account1: account1.to_string(),
        account2: account2.to_string(),
        remark: remark.to_string(),
        currency: "CNY".to_string(),
        tag: "".to_string(),
        source: "支付宝".to_string(),
    }
}

#[test]
fn sort_is_descending_by_date() {
    let mut records = vec![
        record("2023年06月01日 12:00:00", "支出", 100, "a", "", "one"),
        record("2023年06月03日 12:00:00", "支出", 200, "a", "", "two"),
        record("2023年06月02日 12:00:00", "支出", 300, "a", "", "three"),
    ];
    OutputRecord::sort_by_time(&mut records);
    assert_eq!(records[0].remark, "two");
    assert_eq!(records[1].remark, "three");
    assert_eq!(records[2].remark, "one");
    for w in records.windows(2) {
        assert!(w[0].date >= w[1].date);
    }
}

#[test]
fn sort_is_stable_for_equal_dates() {
    let mut records = vec![
        record("2023年06月02日 12:00:00", "支出", 100, "a", "", "first"),
        record("2023年06月01日 12:00:00", "支出", 200, "a", "", "oldest"),
        record("2023年06月02日 12:00:00", "收入", 300, "a", "", "second"),
        record("2023年06月02日 12:00:00", "支出", 400, "a", "", "third"),
    ];
    OutputRecord::sort_by_time(&mut records);
    assert_eq!(records[0].remark, "first");
    assert_eq!(records[1].remark, "second");
    assert_eq!(records[2].remark, "third");
    assert_eq!(records[3].remark, "oldest");
}

#[test]
fn check_accepts_valid_records() {
    let records = vec![
        record("2023年06月01日 12:00:00", "支出", 100, "a", "", ""),
        record("2023年06月01日 12:00:00", "收入", 100, "a", "", ""),
        record("2023年06月01日 12:00:00", "退款", 100, "a", "", ""),
        record("2023年06月01日 12:00:00", "转账", 100, "a", "b", ""),
    ];
    assert_eq!(OutputRecord::check(&records), Vec::<String>::new());
}

#[test]
fn check_flags_unknown_direction() {
    let records = vec![record("2023年06月01日 12:00:00", "借出", 100, "a", "", "")];
    let warnings = OutputRecord::check(&records);
    assert_eq!(warnings.len(), 1);
    assert_eq!(warnings[0], "未知的交易方向: 借出, 日期: 2023年06月01日 12:00:00");
}

#[test]
fn check_flags_missing_source_account() {
    let records = vec![record("2023年06月01日 12:00:00", "支出", 100, "", "", "")];
    let warnings = OutputRecord::check(&records);
    assert_eq!(warnings.len(), 1);
    assert_eq!(warnings[0], "账户1为空: 2023年06月01日 12:00:00");
}

#[test]
fn check_flags_transfer_without_target() {
    let records = vec![record("2023年06月01日 12:00:00", "转账", 100, "a", "", "")];
    let warnings = OutputRecord::check(&records);
    assert_eq!(warnings.len(), 1);
    assert_eq!(warnings[0], "转账时账户2为空: 2023年06月01日 12:00:00");
}

#[test]
fn written_text_reads_back_identically() {
    let records = vec![
        record("2023年06月02日 12:00:00", "支出", 2500, "招商银行储蓄卡", "", "午饭, 外卖: 好吃"),
        record("2023年06月01日 08:30:00", "转账", 10000, "支付宝零钱-杨", "余额宝-杨", "备注里有\"引号\""),
    ];
    let text = OutputRecord::write(&records);
    let back = icost_bill_convert::output::read_output(&text).unwrap();
    assert_eq!(back, records);
}

#[test]
fn written_text_has_localized_header_first() {
    let records = vec![record("2023年06月01日 12:00:00", "支出", 100, "a", "", "")];
    let text = OutputRecord::write(&records);
    let first_line = text.lines().next().unwrap();
    assert_eq!(first_line, "日期,类型,金额,一级分类,二级分类,账户1,账户2,备注,货币,标签,来源");
}

#[test]
fn reading_back_rejects_malformed_rows() {
    // a row of the wrong width
    let text = "日期,类型,金额,一级分类,二级分类,账户1,账户2,备注,货币,标签,来源\n只有一列\n";
    assert!(matches!(
        icost_bill_convert::output::read_output(text),
        Err(icost_bill_convert::ConvertError::Format(_))
    ));
    // a full-width row whose amount is unreadable
    let text = "日期,类型,金额,一级分类,二级分类,账户1,账户2,备注,货币,标签,来源\n                2023年06月01日 12:00:00,支出,not-a-number,a,b,c,d,e,CNY,,支付宝\n";
    assert!(matches!(
        icost_bill_convert::output::read_output(text),
        Err(icost_bill_convert::ConvertError::Format(_))
    ));
}

#[test]
fn summary_counts_and_flags() {
    let records = vec![
        record("2023年06月01日 12:00:00", "支出", 100, "a", "", ""),
        record("2023年06月01日 13:00:00", "支出", 100, "a", "", ""),
        record("2023年06月01日 14:00:00", "收入", 100, "a", "", ""),
        record("2023年06月01日 15:00:00", "转账", 100, "a", "未知", ""),
        record("2023年06月01日 16:00:00", "退款", 100, "a", "", ""),
    ];
    let summary = icost_bill_convert::pipeline::summarize(&records);
    assert_eq!(summary.expense_count, 2);
    assert_eq!(summary.income_count, 1);
    assert_eq!(summary.transfer_count, 1);
    assert_eq!(summary.flagged.len(), 2);
    assert_eq!(
        summary.flagged[0],
        "2023年06月01日 15:00:00 支付宝: 转账记录缺少目标账户，请手动添加"
    );
    assert_eq!(
        summary.flagged[1],
        "2023年06月01日 16:00:00 支付宝: 未知的交易类型: 退款，请手动处理"
    );
}
