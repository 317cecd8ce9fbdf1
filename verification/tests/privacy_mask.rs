use resume_manager::privacy_mask::{
    extract_name_from_text, mask_sensitive_segments, mask_sensitive_segments_single,
    unmask_sensitive_segments, PrivacyTokenMap,
};

#[test]
fn roundtrip_email_and_name() {
    let raw = "姓名：王小明\n手机：13812345678\n邮箱 a@b.com 结尾";
    let (masked, map) = mask_sensitive_segments_single(raw);
    assert!(masked.contains("__RM_PRIV_"));
    assert!(!masked.contains("13812345678"));
    assert!(!masked.contains("a@b.com"));
    let back = unmask_sensitive_segments(&masked, &map);
    assert_eq!(back, raw);
}

#[test]
fn header_name_inference() {
    let raw = "王小明\n男 | 28岁 | 本科\nJava 开发工程师\n\n工作经历：...";
    let (masked, map) = mask_sensitive_segments_single(raw);
    assert!(masked.contains("__RM_PRIV_"));
    assert!(!masked.contains("王小明"));
    let back = unmask_sensitive_segments(&masked, &map);
    assert_eq!(back, raw);
}

#[test]
fn header_name_with_title_skip() {
    let raw = "个人简历\n\n李四\n男 | 25岁\n\n教育经历：...";
    let (masked, map) = mask_sensitive_segments_single(raw);
    assert!(!masked.contains("李四"));
    let back = unmask_sensitive_segments(&masked, &map);
    assert_eq!(back, raw);
}

#[test]
fn surname_based_name_detection() {
    let raw = "候选人 张三 的简历，曾就职于阿里巴巴。";
    let (masked, _map) = mask_sensitive_segments_single(raw);
    assert!(!masked.contains("张三"));
}

#[test]
fn no_false_positive_on_common_word() {
    let raw = "黄金时代的技术栈以 Java 为主。";
    let (masked, _map) = mask_sensitive_segments_single(raw);
    assert!(masked.contains("黄金"));
}

#[test]
fn extract_name_from_header() {
    assert_eq!(extract_name_from_text("王小明\n男 | 28岁 | 本科"), Some("王小明".into()));
}

#[test]
fn extract_name_from_labeled() {
    assert_eq!(extract_name_from_text("姓名：赵六\n手机：13800000000"), Some("赵六".into()));
}

#[test]
fn extract_name_fallback_empty() {
    assert_eq!(extract_name_from_text("仅测试没有姓名的文本内容"), None);
}

#[test]
fn masked_text_numbers_placeholders_in_text_order() {
    let raw = "联系 a@b.com 或 c@d.org";
    let (masked, map) = mask_sensitive_segments_single(raw);
    assert_eq!(masked, "联系 __RM_PRIV_0000__ 或 __RM_PRIV_0001__");
    assert!(!map.is_empty());
    assert_eq!(unmask_sensitive_segments(&masked, &map), raw);
}

#[test]
fn shared_counter_continues_numbering() {
    let mut next = 7u32;
    let (a, ma) = mask_sensitive_segments("x a@b.com", &mut next);
    assert_eq!(a, "x __RM_PRIV_0007__");
    assert_eq!(next, 8);
    let (b, mb) = mask_sensitive_segments("y c@d.com", &mut next);
    assert_eq!(b, "y __RM_PRIV_0008__");
    assert_eq!(next, 9);
    let mut all = ma;
    all.extend_map(mb);
    let joined = format!("{} {}", a, b);
    assert_eq!(unmask_sensitive_segments(&joined, &all), "x a@b.com y c@d.com");
}

#[test]
fn empty_text_masks_to_empty() {
    let mut next = 3u32;
    let (m, map) = mask_sensitive_segments("", &mut next);
    assert_eq!(m, "");
    assert!(map.is_empty());
    assert_eq!(next, 3);
}

#[test]
fn counter_wraps_at_max() {
    let mut next = u32::MAX;
    let (m, _map) = mask_sensitive_segments("a@b.com", &mut next);
    assert_eq!(m, "__RM_PRIV_4294967295__");
    assert_eq!(next, 0);
}

#[test]
fn empty_map_leaves_text() {
    let map = PrivacyTokenMap::default();
    assert!(map.is_empty());
    assert_eq!(unmask_sensitive_segments("__RM_PRIV_0000__", &map), "__RM_PRIV_0000__");
}

#[test]
fn latin_header_name_extracted() {
    assert_eq!(extract_name_from_text("John Smith\nEngineer"), Some("John Smith".into()));
}

#[test]
fn shared_counter_keeps_placeholders_distinct() {
    let mut next_id = 0u32;
    let (a, mut map) = mask_sensitive_segments("a@example.com", &mut next_id);
    let (b, map_b) = mask_sensitive_segments("13812345678", &mut next_id);
    assert_eq!(next_id, 2);
    assert!(a.contains("__RM_PRIV_0000__"));
    assert!(b.contains("__RM_PRIV_0001__"));
    assert!(!b.contains("__RM_PRIV_0000__"));
    map.extend_map(map_b);
    assert_eq!(unmask_sensitive_segments(&a, &map), "a@example.com");
    assert_eq!(unmask_sensitive_segments(&b, &map), "13812345678");
}

#[test]
fn masked_segments_disjoint_in_order() {
    let (masked, map) = mask_sensitive_segments_single("电话：13812345678，邮箱：bob@example.com");
    let first = masked.find("__RM_PRIV_0000__").expect("first placeholder");
    let second = masked.find("__RM_PRIV_0001__").expect("second placeholder");
    assert!(first < second);
    assert!(!masked.contains("13812345678"));
    assert!(!masked.contains("bob@example.com"));
    assert_eq!(unmask_sensitive_segments(&masked, &map), "电话：13812345678，邮箱：bob@example.com");
}

#[test]
fn roundtrip_keeps_underscores() {
    let raw = "邮箱 zhang_san@x.com，文件 my_resume_v2.pdf，手机 13812345678_备用";
    let (masked, map) = mask_sensitive_segments_single(raw);
    assert!(!masked.contains("zhang_san@x.com"));
    assert!(!masked.contains("13812345678"));
    assert!(masked.contains("my_resume_v2.pdf"));
    assert_eq!(unmask_sensitive_segments(&masked, &map), raw);
}
