use resume_manager::render_lines::{
    parse_lines, preprocess_lines_for_time_tail, split_numbered_sections, trailing_time_plan, LineShape,
    TimeTailPlan,
};

fn chars(s: &str) -> Vec<char> {
    s.chars().collect()
}

fn texts(v: &[Vec<char>]) -> Vec<String> {
    v.iter().map(|x| x.iter().collect()).collect()
}

#[test]
fn numbered_items_split() {
    assert_eq!(
        texts(&split_numbered_sections(&chars("负责1、开发 2、测试"))),
        vec!["负责1、开发", "2、测试"]
    );
    assert_eq!(
        texts(&split_numbered_sections(&chars("1. 需求分析；2. 编码"))),
        vec!["1. 需求分析；", "2. 编码"]
    );
}

#[test]
fn years_are_not_item_numbers() {
    assert_eq!(texts(&split_numbered_sections(&chars("2018.06 入职"))), vec!["2018.06 入职"]);
    assert_eq!(texts(&split_numbered_sections(&chars("  hello  "))), vec!["hello"]);
}

#[test]
fn sections_never_empty_law_example() {
    let s = split_numbered_sections(&chars("   "));
    assert_eq!(texts(&s), vec![""]);
    let t = split_numbered_sections(&chars("a，1、b，2、c"));
    assert_eq!(texts(&t), vec!["a，", "1、b，", "2、c"]);
    assert!(t.iter().all(|x| !x.is_empty()));
}

#[test]
fn time_range_pulled_up() {
    let lines = vec![
        chars("公司A / 工程师 /  "),
        chars("  2019.03 - 至今 "),
        chars("独立行"),
        chars("2018-2020"),
    ];
    assert_eq!(
        texts(&preprocess_lines_for_time_tail(&lines)),
        vec!["公司A / 工程师 / 2019.03 - 至今", "独立行", "2018-2020"]
    );
}

#[test]
fn full_width_slash_awaits_time() {
    let lines = vec![chars("公司B／经理"), chars("2015.1~2017.12")];
    assert_eq!(
        texts(&preprocess_lines_for_time_tail(&lines)),
        vec!["公司B／经理 2015.1~2017.12"]
    );
}

#[test]
fn line_shapes_of_text() {
    let content = "# 张三\n## 工作经历\n- 公司A / 工程师 /\n2019.03 - 至今\n  - 1、开发 2、测试\n\n普通行";
    let shapes = parse_lines(content);
    assert_eq!(shapes.len(), 6);
    match &shapes[0] {
        LineShape::Title(t) => assert_eq!(t.iter().collect::<String>(), "张三"),
        _ => panic!("title expected"),
    }
    match &shapes[1] {
        LineShape::Heading(t) => assert_eq!(t.iter().collect::<String>(), "工作经历"),
        _ => panic!("heading expected"),
    }
    match &shapes[2] {
        LineShape::Item(s) => assert_eq!(texts(s), vec!["公司A / 工程师 / 2019.03 - 至今"]),
        _ => panic!("item expected"),
    }
    match &shapes[3] {
        LineShape::SubItem(s) => assert_eq!(texts(s), vec!["1、开发", "2、测试"]),
        _ => panic!("sub item expected"),
    }
    assert!(matches!(shapes[4], LineShape::Blank));
    match &shapes[5] {
        LineShape::Plain(s) => assert_eq!(texts(s), vec!["普通行"]),
        _ => panic!("plain expected"),
    }
}

#[test]
fn trailing_time_plan_keeps_whole_company_lines() {
    match trailing_time_plan("  甲公司 / 工程师 / 2019.03 - 至今 ") {
        TimeTailPlan::Whole(t) => assert_eq!(t, "甲公司 / 工程师 / 2019.03 - 至今"),
        _ => panic!("expected the whole line"),
    }
}

#[test]
fn trailing_time_plan_keeps_time_range_apart() {
    // Only full-width slashes: the line is wrapped as it is.
    assert!(matches!(trailing_time_plan("甲公司／ 工程师 ／2018-2020"), TimeTailPlan::Wrap));
    match trailing_time_plan("甲公司/ 工程师 ／2018-2020") {
        TimeTailPlan::Tail(head, tail) => {
            assert_eq!(head, "甲公司 / 工程师");
            assert_eq!(tail, " / 2018-2020");
        }
        _ => panic!("expected the time range apart"),
    }
}

#[test]
fn trailing_time_plan_wraps_other_lines() {
    assert!(matches!(trailing_time_plan("负责后端开发"), TimeTailPlan::Wrap));
    assert!(matches!(trailing_time_plan("A / B"), TimeTailPlan::Wrap));
    assert!(matches!(trailing_time_plan("A / B / C"), TimeTailPlan::Wrap));
    assert!(matches!(trailing_time_plan("甲／乙／丙"), TimeTailPlan::Wrap));
}
